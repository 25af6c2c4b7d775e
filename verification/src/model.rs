//! The decoded form of a bytecode program.
use vstd::prelude::*;

use crate::constants::{Constant, ConstantView};
use crate::register::RegisterId;

verus! {

/// A decoded, structurally validated program.
#[derive(Debug)]
pub struct Program {
    /// The constant table.
    pub constants: Vec<Constant>,
    /// The global names referenced by slot, each with its standard-library
    /// slot when it names a standard-library global.
    pub global_names: Vec<(String, Option<usize>)>,
    /// The root function.
    pub root: FunctionDef,
    /// The nested functions, each defined before any function that contains it.
    pub functions: Vec<FunctionDef>,
}

/// A function definition.
#[derive(Debug)]
pub struct FunctionDef {
    /// Code offset of the defining instruction.
    pub offset: usize,
    /// Number of arguments; for a variadic function the last one collects the rest.
    pub arg_count: usize,
    /// Number of registers of the function's frame.
    pub register_count: usize,
    /// Whether the last argument collects the remaining arguments.
    pub variadic: bool,
    /// The function's instructions.
    pub body: Vec<Instruction>,
}

/// An instruction and the code offset it was decoded from.
#[derive(Debug)]
pub struct Instruction {
    /// Code offset of the instruction's opcode.
    pub offset: usize,
    /// What the instruction does.
    pub kind: InstructionKind,
}

/// The instructions, structured ones holding their nested blocks.
#[derive(Debug)]
pub enum InstructionKind {
    /// A simple operation.
    Op(Operation),
    /// Create a closure over the current frame.
    Function {
        /// Register receiving the closure.
        destination: RegisterId,
        /// Index of the definition in the function table.
        function: usize,
    },
    /// Conditional execution.
    If {
        /// The test applied to the register.
        condition: Condition,
        /// The tested register.
        register: RegisterId,
        /// Executed when the test holds.
        then_body: Vec<Instruction>,
        /// Executed otherwise.
        else_body: Vec<Instruction>,
    },
    /// A loop whose body runs in a child frame.
    Loop {
        /// Number of registers of the body's frame; register 1 holds the
        /// iteration value.
        register_count: usize,
        /// What the loop iterates over.
        kind: LoopKind,
        /// The loop body.
        body: Vec<Instruction>,
        /// Whether one frame may serve every iteration: true exactly when
        /// the body creates no closure or module that could capture it.
        reuse_frame: bool,
    },
    /// Build a record.
    Record {
        /// Register receiving the record.
        destination: RegisterId,
        /// The fields and spreads, in order.
        elements: Vec<RecordElement>,
    },
    /// Build an array.
    Array {
        /// Register receiving the array.
        destination: RegisterId,
        /// The items, ranges and spreads, in order.
        elements: Vec<ArrayElement>,
    },
    /// Build a module exporting registers of the current frame.
    Module {
        /// Register receiving the module.
        destination: RegisterId,
        /// The module's name.
        name: String,
        /// The exported names and the registers they read.
        fields: Vec<(String, RegisterId)>,
    },
}

/// A simple operation.
#[derive(Debug, Clone)]
pub enum Operation {
    /// Do nothing.
    Noop,
    /// Leave the innermost loop.
    Break,
    /// Start the next iteration of the innermost loop.
    Continue,
    /// Return a register's value.
    Return {
        /// Register holding the result.
        value: RegisterId,
    },
    /// Load a constant.
    Constant {
        /// Register receiving the constant.
        destination: RegisterId,
        /// Index into the constant table.
        constant: usize,
    },
    /// Mark a register unwritten.
    Uninit {
        /// The register.
        destination: RegisterId,
    },
    /// A unary operation.
    Unary {
        /// Which operation.
        kind: UnaryOperation,
        /// Register receiving the result.
        destination: RegisterId,
        /// The operand.
        value: RegisterId,
    },
    /// Numeric addition.
    Add {
        /// Register receiving the result.
        destination: RegisterId,
        /// Left operand.
        left: RegisterId,
        /// Right operand.
        right: RegisterId,
    },
    /// Numeric subtraction.
    Sub {
        /// Register receiving the result.
        destination: RegisterId,
        /// Left operand.
        left: RegisterId,
        /// Right operand.
        right: RegisterId,
    },
    /// Numeric multiplication.
    Mul {
        /// Register receiving the result.
        destination: RegisterId,
        /// Left operand.
        left: RegisterId,
        /// Right operand.
        right: RegisterId,
    },
    /// Numeric division.
    Div {
        /// Register receiving the result.
        destination: RegisterId,
        /// Left operand.
        left: RegisterId,
        /// Right operand.
        right: RegisterId,
    },
    /// Numeric remainder.
    Mod {
        /// Register receiving the result.
        destination: RegisterId,
        /// Left operand.
        left: RegisterId,
        /// Right operand.
        right: RegisterId,
    },
    /// Numeric power.
    Pow {
        /// Register receiving the result.
        destination: RegisterId,
        /// Left operand.
        left: RegisterId,
        /// Right operand.
        right: RegisterId,
    },
    /// A comparison or logical operation.
    Binary {
        /// Which operation.
        kind: BinaryOperation,
        /// Register receiving the result.
        destination: RegisterId,
        /// Left operand.
        left: RegisterId,
        /// Right operand.
        right: RegisterId,
    },
    /// Exchange two registers.
    Swap {
        /// First register.
        left: RegisterId,
        /// Second register.
        right: RegisterId,
    },
    /// Read or write a register of an enclosing frame.
    Upvalue {
        /// Read or write.
        kind: UpvalueOperation,
        /// Register of the current frame.
        value: RegisterId,
        /// How many frames up.
        level: usize,
        /// Register of the enclosing frame.
        register: RegisterId,
    },
    /// Read a global by slot.
    GetGlobal {
        /// Register receiving the value.
        destination: RegisterId,
        /// Global slot.
        slot: usize,
    },
    /// Read a global by a computed name.
    GetGlobalDyn {
        /// Register receiving the value.
        destination: RegisterId,
        /// Register holding the name.
        key: RegisterId,
    },
    /// Test whether a computed name is a global.
    InGlobal {
        /// Register receiving the result.
        destination: RegisterId,
        /// Register holding the name.
        key: RegisterId,
    },
    /// Concatenate the formatted values of registers.
    Concat {
        /// Register receiving the string.
        destination: RegisterId,
        /// The registers, in order.
        values: Vec<RegisterId>,
    },
    /// Format a value with a format constant.
    Format {
        /// Register receiving the string.
        destination: RegisterId,
        /// The formatted register.
        value: RegisterId,
        /// Index of a string or nil constant.
        format: usize,
    },
    /// Fail unless a register is written, or non-nil.
    Assert {
        /// Which assertion.
        kind: AssertOperation,
        /// The checked register.
        value: RegisterId,
    },
    /// Keep or drop record fields named by constants.
    PickOmit {
        /// Keep or drop.
        kind: PickOmitOperation,
        /// Register receiving the record.
        destination: RegisterId,
        /// The source record.
        value: RegisterId,
        /// Indexes of the key constants.
        keys: Vec<usize>,
    },
    /// Call a global with no argument.
    CallGlobal0 {
        /// Register receiving the result.
        destination: RegisterId,
        /// Global slot of the callee.
        slot: usize,
    },
    /// Call a global with one argument.
    CallGlobal1 {
        /// Register receiving the result.
        destination: RegisterId,
        /// Global slot of the callee.
        slot: usize,
        /// The argument.
        argument: RegisterId,
    },
    /// Call a global with one argument read from another global.
    CallGlobal1FromGlobal {
        /// Register receiving the result.
        destination: RegisterId,
        /// Global slot of the callee.
        slot: usize,
        /// Global slot of the argument.
        argument_slot: usize,
    },
    /// Call a global with two arguments.
    CallGlobal2 {
        /// Register receiving the result.
        destination: RegisterId,
        /// Global slot of the callee.
        slot: usize,
        /// The arguments.
        arguments: [RegisterId; 2],
    },
    /// Call a global with three arguments.
    CallGlobal3 {
        /// Register receiving the result.
        destination: RegisterId,
        /// Global slot of the callee.
        slot: usize,
        /// The arguments.
        arguments: [RegisterId; 3],
    },
    /// Call a global with four arguments.
    CallGlobal4 {
        /// Register receiving the result.
        destination: RegisterId,
        /// Global slot of the callee.
        slot: usize,
        /// The arguments.
        arguments: [RegisterId; 4],
    },
    /// A general call.
    Call {
        /// Register receiving the result.
        destination: RegisterId,
        /// The callee.
        target: CallTarget,
        /// The arguments.
        arguments: Vec<RegisterId>,
        /// Positions of the arguments to spread.
        spreads: Vec<usize>,
    },
    /// Test, read or write a key of a value.
    Access {
        /// Test, read or write.
        kind: AccessOperation,
        /// Register receiving the result (or holding the written value).
        destination: RegisterId,
        /// The accessed value.
        value: RegisterId,
        /// The key.
        key: AccessKey,
    },
    /// Slice an array.
    Slice {
        /// Register receiving the slice.
        destination: RegisterId,
        /// The sliced value.
        value: RegisterId,
        /// Start bound, if any.
        start: Option<SliceBound>,
        /// End bound, if any.
        end: Option<SliceBound>,
        /// Whether the end bound is exclusive.
        exclusive: bool,
    },
}

/// Unary operations.
#[derive(Debug, Clone, Copy, PartialEq, Eq, Structural)]
pub enum UnaryOperation {
    /// `+x` as an operand.
    Pos,
    /// `-x`.
    Neg,
    /// `!x`.
    Not,
    /// Unary plus.
    Plus,
    /// `type(x)`.
    Type,
    /// `boolean(x)`.
    ToBoolean,
    /// `number(x)`.
    ToNumber,
    /// `string(x)`.
    ToString,
    /// Whether `x` is a boolean.
    IsBoolean,
    /// Whether `x` is a number.
    IsNumber,
    /// Whether `x` is a string.
    IsString,
    /// Whether `x` is a record.
    IsRecord,
    /// Whether `x` is an array.
    IsArray,
    /// Copy.
    Assign,
    /// Length.
    Length,
}

/// Comparison and logical operations.
#[derive(Debug, Clone, Copy, PartialEq, Eq, Structural)]
pub enum BinaryOperation {
    /// `==`.
    Eq,
    /// `!=`.
    Neq,
    /// `<`.
    Lt,
    /// `<=`.
    Lte,
    /// `>`.
    Gt,
    /// `>=`.
    Gte,
    /// `=~`.
    Aeq,
    /// `!~`.
    Naeq,
    /// `===`.
    Same,
    /// `!==`.
    Nsame,
    /// `in`.
    In,
    /// `&&`.
    And,
    /// `||`.
    Or,
}

/// Assertions.
#[derive(Debug, Clone, Copy, PartialEq, Eq, Structural)]
pub enum AssertOperation {
    /// The register is written.
    Initialized,
    /// The register is not nil.
    NonNil,
}

/// Upvalue access.
#[derive(Debug, Clone, Copy, PartialEq, Eq, Structural)]
pub enum UpvalueOperation {
    /// Read the enclosing register.
    Get,
    /// Write the enclosing register.
    Put,
}

/// Field selection.
#[derive(Debug, Clone, Copy, PartialEq, Eq, Structural)]
pub enum PickOmitOperation {
    /// Keep the listed fields.
    Pick,
    /// Drop the listed fields.
    Omit,
}

/// Key access.
#[derive(Debug, Clone, Copy, PartialEq, Eq, Structural)]
pub enum AccessOperation {
    /// Whether the key is present.
    Has,
    /// Read the key.
    Get,
    /// Write the key.
    Store,
}

/// The callee of a general call.
#[derive(Debug, Clone, Copy, PartialEq, Eq, Structural)]
pub enum CallTarget {
    /// A global slot.
    Global(usize),
    /// A register.
    Register(RegisterId),
}

/// The key of an access.
#[derive(Debug, Clone, Copy, PartialEq, Eq, Structural)]
pub enum AccessKey {
    /// A constant index.
    Constant(usize),
    /// A register.
    Register(RegisterId),
    /// An integer key.
    Index(i64),
}

/// A slice bound.
#[derive(Debug, Clone, Copy, PartialEq, Eq, Structural)]
pub enum SliceBound {
    /// An integer.
    Constant(i64),
    /// A register.
    Register(RegisterId),
}

/// The test of a conditional.
#[derive(Debug, Clone, Copy, PartialEq, Eq, Structural)]
pub enum Condition {
    /// The register is `true`.
    Truthy,
    /// The register is `false`.
    Falsy,
    /// The register is written.
    Initialized,
    /// The register is unwritten.
    Uninitialized,
    /// The register is nil.
    Nil,
    /// The register is not nil.
    NonNil,
}

/// What a loop iterates over.
#[derive(Debug, Clone, Copy, PartialEq, Eq, Structural)]
pub enum LoopKind {
    /// No iteration value; the loop runs until it breaks or returns.
    Infinite,
    /// The items of an iterable value.
    Iterable {
        /// Register holding the iterable.
        value: RegisterId,
    },
    /// A numeric range.
    Range {
        /// Register holding the start.
        start: RegisterId,
        /// Register holding the end.
        end: RegisterId,
        /// Whether the end is excluded.
        exclusive: bool,
    },
}

/// The key of a record field.
#[derive(Debug, Clone)]
pub enum RecordKey {
    /// A string constant's text.
    Constant(String),
    /// A register holding the key.
    Dynamic(RegisterId),
    /// An integer key.
    Index(i64),
}

/// An element of a record literal.
#[derive(Debug, Clone)]
pub enum RecordElement {
    /// A field.
    Field {
        /// The key.
        key: RecordKey,
        /// Register holding the value.
        value: RegisterId,
        /// Whether nil (and callables) are skipped.
        optional: bool,
    },
    /// Spread a record, array or nil.
    Spread(RegisterId),
}

/// An element of an array literal.
#[derive(Debug, Clone, Copy, PartialEq, Eq, Structural)]
pub enum ArrayElement {
    /// One item.
    Item(RegisterId),
    /// A numeric range of items.
    Range {
        /// Start endpoint.
        start: RangeEndpoint,
        /// End endpoint.
        end: RangeEndpoint,
        /// Whether the end is excluded.
        exclusive: bool,
    },
    /// Spread an array or nil.
    Spread(RegisterId),
}

/// A range endpoint.
#[derive(Debug, Clone, Copy, PartialEq, Eq, Structural)]
pub enum RangeEndpoint {
    /// An integer.
    Constant(i64),
    /// A register.
    Dynamic(RegisterId),
}

/// Whether running `body` may create a closure or module that captures the
/// frame it runs in.
pub open spec fn spec_may_capture(body: Seq<Instruction>) -> bool
    decreases body,
{
    if body.len() == 0 {
        false
    } else {
        instruction_may_capture(body[0]) || spec_may_capture(body.drop_first())
    }
}

/// `body` may capture its frame exactly when one of its instructions may.
pub proof fn lemma_may_capture_exists(body: Seq<Instruction>)
    ensures
        spec_may_capture(body) <==> exists|i: int|
            0 <= i < body.len() && #[trigger] instruction_may_capture(body[i]),
    decreases body.len(),
{
    if body.len() > 0 {
        lemma_may_capture_exists(body.drop_first());
        assert(spec_may_capture(body) == (instruction_may_capture(body[0]) || spec_may_capture(body.drop_first())));
        if instruction_may_capture(body[0]) {
            assert(exists|i: int| 0 <= i < body.len() && #[trigger] instruction_may_capture(body[i]));
        }
        if spec_may_capture(body.drop_first()) {
            let i = choose|i: int|
                0 <= i < body.drop_first().len() && #[trigger] instruction_may_capture(body.drop_first()[i]);
            assert(instruction_may_capture(body[i + 1]));
        }
        if exists|i: int| 0 <= i < body.len() && #[trigger] instruction_may_capture(body[i]) {
            let i = choose|i: int| 0 <= i < body.len() && #[trigger] instruction_may_capture(body[i]);
            if i > 0 {
                assert(instruction_may_capture(body.drop_first()[i - 1]));
            }
        }
    }
}

/// Whether running an instruction may capture its frame.
pub open spec fn instruction_may_capture(instruction: Instruction) -> bool
    decreases instruction,
{
    match instruction.kind {
        InstructionKind::Function { .. } | InstructionKind::Module { .. } => true,
        InstructionKind::If { then_body, else_body, .. } => spec_may_capture(then_body@)
            || spec_may_capture(else_body@),
        InstructionKind::Loop { body, .. } => spec_may_capture(body@),
        _ => false,
    }
}

/// Whether running `body` may create a closure or module that captures the
/// frame it runs in.
pub fn block_may_capture_frame(body: &Vec<Instruction>) -> (r: bool)
    ensures
        r == spec_may_capture(body@),
    decreases body@,
{
    let mut index: usize = 0;
    while index < body.len()
        invariant
            index <= body@.len(),
            forall|j: int| 0 <= j < index ==> !instruction_may_capture(#[trigger] body@[j]),
        decreases body@.len() - index,
    {
        let instruction = &body[index];
        let captured = match &instruction.kind {
            InstructionKind::Function { .. } | InstructionKind::Module { .. } => true,
            InstructionKind::If { then_body, else_body, .. } => {
                proof {
                    assert(decreases_to!(body@ => body@[index as int]));
                }
                block_may_capture_frame(then_body) || block_may_capture_frame(else_body)
            },
            InstructionKind::Loop { body: inner, .. } => {
                proof {
                    assert(decreases_to!(body@ => body@[index as int]));
                }
                block_may_capture_frame(inner)
            },
            _ => false,
        };
        assert(captured == instruction_may_capture(body@[index as int]));
        if captured {
            proof {
                lemma_may_capture_exists(body@);
            }
            return true;
        }
        index = index + 1;
    }
    proof {
        lemma_may_capture_exists(body@);
    }
    false
}

} // verus!

//! What a structurally valid program is: every register, constant, global
//! slot and function index in range, in the scope in which it is used.
use vstd::prelude::*;

use crate::constants::ConstantView;
use crate::opcode::{OpCode, index_at, opcode_byte, param_at, param_width};
use crate::model::{
    AccessKey, AccessOperation, ArrayElement, AssertOperation, BinaryOperation, CallTarget,
    Condition, PickOmitOperation, UnaryOperation, UpvalueOperation, FunctionDef, Instruction, InstructionKind, LoopKind,
    Operation, RangeEndpoint, RecordElement, RecordKey, SliceBound, instruction_may_capture,
    lemma_may_capture_exists, spec_may_capture,
};
use crate::register::RegisterId;
use crate::encoding::{
    array_elements_span, chain_end, ends_at_freeze, loop_reads, module_fields_span, opcode_at, params_end,
    record_elements_span, spans,
};

verus! {

/// The tables an instruction may refer to, and the code it was read from.
pub struct Tables {
    /// The code section.
    pub code: Seq<u8>,
    /// The constant table.
    pub constants: Seq<ConstantView>,
    /// The global names, by slot.
    pub global_names: Seq<Seq<char>>,
    /// The function table.
    pub functions: Seq<FunctionDef>,
}

/// Whether `later` keeps what `earlier` holds: the same constants, and the
/// global names and functions of `earlier` as prefixes.
pub open spec fn tables_extend(earlier: Tables, later: Tables) -> bool {
    &&& later.code == earlier.code
    &&& later.constants == earlier.constants
    &&& earlier.global_names.len() <= later.global_names.len()
    &&& later.global_names.take(earlier.global_names.len() as int) == earlier.global_names
    &&& earlier.functions.len() <= later.functions.len()
    &&& later.functions.take(earlier.functions.len() as int) == earlier.functions
}

/// The highest register index usable in the innermost scope.
pub open spec fn scope_limit(scopes: Seq<usize>) -> usize {
    if scopes.len() == 0 {
        0
    } else {
        scopes.last()
    }
}

/// Whether a register exists in the innermost scope.
pub open spec fn register_ok(register: RegisterId, scopes: Seq<usize>) -> bool {
    register.0 <= scope_limit(scopes)
}

/// Whether every register of a sequence exists in the innermost scope.
pub open spec fn registers_ok(registers: Seq<RegisterId>, scopes: Seq<usize>) -> bool {
    forall|i: int| 0 <= i < registers.len() ==> #[trigger] register_ok(registers[i], scopes)
}

/// Whether some constant is the string `text`.
pub open spec fn is_string_constant(constants: Seq<ConstantView>, text: Seq<char>) -> bool {
    exists|i: int| 0 <= i < constants.len() && #[trigger] constants[i] == ConstantView::String(text)
}

/// Whether an access key is in range.
pub open spec fn access_key_ok(key: AccessKey, t: Tables, scopes: Seq<usize>) -> bool {
    match key {
        AccessKey::Constant(index) => index < t.constants.len(),
        AccessKey::Register(register) => register_ok(register, scopes),
        AccessKey::Index(_) => true,
    }
}

/// Whether an optional slice bound is in range.
pub open spec fn slice_bound_ok(bound: Option<SliceBound>, scopes: Seq<usize>) -> bool {
    match bound {
        Some(SliceBound::Register(register)) => register_ok(register, scopes),
        _ => true,
    }
}

/// Whether a simple operation is valid in a scope nested `loops` loops deep.
pub open spec fn operation_ok(op: Operation, t: Tables, scopes: Seq<usize>, loops: nat) -> bool {
    match op {
        Operation::Noop => true,
        Operation::Break | Operation::Continue => loops > 0,
        Operation::Return { value } => register_ok(value, scopes),
        Operation::Constant { destination, constant } => register_ok(destination, scopes)
            && constant < t.constants.len(),
        Operation::Uninit { destination } => register_ok(destination, scopes),
        Operation::Unary { destination, value, .. } => register_ok(destination, scopes)
            && register_ok(value, scopes),
        Operation::Add { destination, left, right }
        | Operation::Sub { destination, left, right }
        | Operation::Mul { destination, left, right }
        | Operation::Div { destination, left, right }
        | Operation::Mod { destination, left, right }
        | Operation::Pow { destination, left, right }
        | Operation::Binary { destination, left, right, .. } => register_ok(destination, scopes)
            && register_ok(left, scopes) && register_ok(right, scopes),
        Operation::Swap { left, right } => register_ok(left, scopes) && register_ok(right, scopes),
        Operation::Upvalue { value, level, register, .. } => {
            &&& register_ok(value, scopes)
            &&& 1 <= level < scopes.len()
            &&& register.0 <= scopes[scopes.len() - 1 - level]
        },
        Operation::GetGlobal { destination, slot } => register_ok(destination, scopes) && slot
            < t.global_names.len(),
        Operation::GetGlobalDyn { destination, key } | Operation::InGlobal { destination, key } =>
            register_ok(destination, scopes) && register_ok(key, scopes),
        Operation::Concat { destination, values } => register_ok(destination, scopes)
            && registers_ok(values@, scopes),
        Operation::Format { destination, value, format } => {
            &&& register_ok(destination, scopes)
            &&& register_ok(value, scopes)
            &&& format < t.constants.len()
            &&& (t.constants[format as int] is String || t.constants[format as int] is Nil)
        },
        Operation::Assert { value, .. } => register_ok(value, scopes),
        Operation::PickOmit { destination, value, keys, .. } => {
            &&& register_ok(destination, scopes)
            &&& register_ok(value, scopes)
            &&& forall|i: int| 0 <= i < keys@.len() ==> #[trigger] keys@[i] < t.constants.len()
        },
        Operation::CallGlobal0 { destination, slot } => register_ok(destination, scopes) && slot
            < t.global_names.len(),
        Operation::CallGlobal1 { destination, slot, argument } => register_ok(destination, scopes)
            && slot < t.global_names.len() && register_ok(argument, scopes),
        Operation::CallGlobal1FromGlobal { destination, slot, argument_slot } => register_ok(
            destination,
            scopes,
        ) && slot < t.global_names.len() && argument_slot < t.global_names.len(),
        Operation::CallGlobal2 { destination, slot, arguments } => register_ok(destination, scopes)
            && slot < t.global_names.len() && registers_ok(arguments@, scopes),
        Operation::CallGlobal3 { destination, slot, arguments } => register_ok(destination, scopes)
            && slot < t.global_names.len() && registers_ok(arguments@, scopes),
        Operation::CallGlobal4 { destination, slot, arguments } => register_ok(destination, scopes)
            && slot < t.global_names.len() && registers_ok(arguments@, scopes),
        Operation::Call { destination, target, arguments, spreads } => {
            &&& register_ok(destination, scopes)
            &&& match target {
                CallTarget::Global(slot) => {
                    &&& slot < t.global_names.len()
                    &&& (arguments@.len() > 4 || spreads@.len() > 0)
                },
                CallTarget::Register(register) => register_ok(register, scopes),
            }
            &&& registers_ok(arguments@, scopes)
            &&& forall|i: int| 0 <= i < spreads@.len() ==> #[trigger] spreads@[i] < arguments@.len()
        },
        Operation::Access { destination, value, key, .. } => {
            &&& register_ok(destination, scopes)
            &&& register_ok(value, scopes)
            &&& access_key_ok(key, t, scopes)
        },
        Operation::Slice { destination, value, start, end, .. } => {
            &&& register_ok(destination, scopes)
            &&& register_ok(value, scopes)
            &&& slice_bound_ok(start, scopes)
            &&& slice_bound_ok(end, scopes)
        },
    }
}

/// Whether a record element is valid.
pub open spec fn record_element_ok(element: RecordElement, t: Tables, scopes: Seq<usize>) -> bool {
    match element {
        RecordElement::Field { key, value, .. } => {
            &&& register_ok(value, scopes)
            &&& match key {
                RecordKey::Constant(text) => is_string_constant(t.constants, text@),
                RecordKey::Dynamic(register) => register_ok(register, scopes),
                RecordKey::Index(_) => true,
            }
        },
        RecordElement::Spread(register) => register_ok(register, scopes),
    }
}

/// Whether an array element is valid.
pub open spec fn array_element_ok(element: ArrayElement, scopes: Seq<usize>) -> bool {
    match element {
        ArrayElement::Item(register) | ArrayElement::Spread(register) => register_ok(register, scopes),
        ArrayElement::Range { start, end, .. } => {
            &&& start matches RangeEndpoint::Dynamic(r) ==> register_ok(r, scopes)
            &&& end matches RangeEndpoint::Dynamic(r) ==> register_ok(r, scopes)
        },
    }
}

/// Whether the registers a loop reads before entering its body exist.
pub open spec fn loop_kind_ok(kind: LoopKind, scopes: Seq<usize>) -> bool {
    match kind {
        LoopKind::Infinite => true,
        LoopKind::Iterable { value } => register_ok(value, scopes),
        LoopKind::Range { start, end, .. } => register_ok(start, scopes) && register_ok(end, scopes),
    }
}

/// Whether the exports of a module are valid: registers in range, names
/// that are string constants, and no name exported twice.
pub open spec fn module_fields_ok(fields: Seq<(String, RegisterId)>, t: Tables, scopes: Seq<usize>) -> bool {
    &&& forall|i: int| 0 <= i < fields.len() ==> #[trigger] register_ok(fields[i].1, scopes)
    &&& forall|i: int| 0 <= i < fields.len() ==> #[trigger] is_string_constant(t.constants, fields[i].0@)
    &&& forall|i: int, j: int| 0 <= i < j < fields.len() ==> fields[i].0@ != fields[j].0@
}

/// The opcode of a unary operation.
pub open spec fn unary_opcode(kind: UnaryOperation) -> OpCode {
    match kind {
        UnaryOperation::Pos => OpCode::Pos,
        UnaryOperation::Neg => OpCode::Neg,
        UnaryOperation::Not => OpCode::Not,
        UnaryOperation::Plus => OpCode::Plus,
        UnaryOperation::Type => OpCode::Type,
        UnaryOperation::ToBoolean => OpCode::ToBoolean,
        UnaryOperation::ToNumber => OpCode::ToNumber,
        UnaryOperation::ToString => OpCode::ToString,
        UnaryOperation::IsBoolean => OpCode::IsBoolean,
        UnaryOperation::IsNumber => OpCode::IsNumber,
        UnaryOperation::IsString => OpCode::IsString,
        UnaryOperation::IsRecord => OpCode::IsRecord,
        UnaryOperation::IsArray => OpCode::IsArray,
        UnaryOperation::Assign => OpCode::Assign,
        UnaryOperation::Length => OpCode::Length,
    }
}

/// The opcode of a comparison or logical operation.
pub open spec fn binary_opcode(kind: BinaryOperation) -> OpCode {
    match kind {
        BinaryOperation::Eq => OpCode::Eq,
        BinaryOperation::Neq => OpCode::Neq,
        BinaryOperation::Lt => OpCode::Lt,
        BinaryOperation::Lte => OpCode::Lte,
        BinaryOperation::Gt => OpCode::Gt,
        BinaryOperation::Gte => OpCode::Gte,
        BinaryOperation::Aeq => OpCode::Aeq,
        BinaryOperation::Naeq => OpCode::Naeq,
        BinaryOperation::Same => OpCode::Same,
        BinaryOperation::Nsame => OpCode::Nsame,
        BinaryOperation::In => OpCode::In,
        BinaryOperation::And => OpCode::And,
        BinaryOperation::Or => OpCode::Or,
    }
}

/// The opcode of a conditional.
pub open spec fn condition_opcode(condition: Condition) -> OpCode {
    match condition {
        Condition::Truthy => OpCode::If,
        Condition::Falsy => OpCode::IfNot,
        Condition::Initialized => OpCode::IfInit,
        Condition::Uninitialized => OpCode::IfNotInit,
        Condition::Nil => OpCode::IfNil,
        Condition::NonNil => OpCode::IfNotNil,
    }
}

/// The opcode of a loop.
pub open spec fn loop_opcode(kind: LoopKind) -> OpCode {
    match kind {
        LoopKind::Infinite => OpCode::Loop,
        LoopKind::Iterable { .. } => OpCode::LoopFor,
        LoopKind::Range { exclusive, .. } => if exclusive {
            OpCode::LoopRangeExclusive
        } else {
            OpCode::LoopRange
        },
    }
}

/// The opcode of a key access.
pub open spec fn access_opcode(kind: AccessOperation, key: AccessKey) -> OpCode {
    match (kind, key) {
        (AccessOperation::Has, AccessKey::Constant(_)) => OpCode::Has,
        (AccessOperation::Has, AccessKey::Register(_)) => OpCode::HasDyn,
        (AccessOperation::Has, AccessKey::Index(_)) => OpCode::HasIndex,
        (AccessOperation::Get, AccessKey::Constant(_)) => OpCode::Get,
        (AccessOperation::Get, AccessKey::Register(_)) => OpCode::GetDyn,
        (AccessOperation::Get, AccessKey::Index(_)) => OpCode::GetIndex,
        (AccessOperation::Store, AccessKey::Constant(_)) => OpCode::SetKey,
        (AccessOperation::Store, AccessKey::Register(_)) => OpCode::SetDyn,
        (AccessOperation::Store, AccessKey::Index(_)) => OpCode::SetIndex,
    }
}

/// Whether an operation is what the opcode `op` decodes to. Every call of
/// a global, quickened or fused, comes from `Call`.
pub open spec fn operation_matches(op: OpCode, operation: Operation) -> bool {
    match operation {
        Operation::Noop => op == OpCode::Noop,
        Operation::Break => op == OpCode::Break,
        Operation::Continue => op == OpCode::Continue,
        Operation::Return { .. } => op == OpCode::Return,
        Operation::Constant { .. } => op == OpCode::Constant,
        Operation::Uninit { .. } => op == OpCode::Uninit,
        Operation::Unary { kind, .. } => op == unary_opcode(kind),
        Operation::Add { .. } => op == OpCode::Add,
        Operation::Sub { .. } => op == OpCode::Sub,
        Operation::Mul { .. } => op == OpCode::Mul,
        Operation::Div { .. } => op == OpCode::Div,
        Operation::Mod { .. } => op == OpCode::Mod,
        Operation::Pow { .. } => op == OpCode::Pow,
        Operation::Binary { kind, .. } => op == binary_opcode(kind),
        Operation::Swap { .. } => op == OpCode::Swap,
        Operation::Upvalue { kind, .. } => op == match kind {
            UpvalueOperation::Get => OpCode::GetUpvalue,
            UpvalueOperation::Put => OpCode::SetUpvalue,
        },
        Operation::GetGlobal { .. } => op == OpCode::GetGlobal,
        Operation::GetGlobalDyn { .. } => op == OpCode::GetGlobalDyn,
        Operation::InGlobal { .. } => op == OpCode::InGlobal,
        Operation::Concat { .. } => op == OpCode::Concat,
        Operation::Format { .. } => op == OpCode::Format,
        Operation::Assert { kind, .. } => op == match kind {
            AssertOperation::Initialized => OpCode::AssertInit,
            AssertOperation::NonNil => OpCode::AssertNonNil,
        },
        Operation::PickOmit { kind, .. } => op == match kind {
            PickOmitOperation::Pick => OpCode::Pick,
            PickOmitOperation::Omit => OpCode::Omit,
        },
        Operation::CallGlobal0 { .. } | Operation::CallGlobal1 { .. }
        | Operation::CallGlobal1FromGlobal { .. } | Operation::CallGlobal2 { .. }
        | Operation::CallGlobal3 { .. } | Operation::CallGlobal4 { .. } => op == OpCode::Call,
        Operation::Call { target, .. } => op == match target {
            CallTarget::Global(_) => OpCode::Call,
            CallTarget::Register(_) => OpCode::CallDyn,
        },
        Operation::Access { kind, key, .. } => op == access_opcode(kind, key),
        Operation::Slice { start, end, exclusive, .. } => match (start, end) {
            (Some(SliceBound::Constant(_)), Some(SliceBound::Constant(_))) => op == OpCode::Slice
                && !exclusive,
            (None, Some(SliceBound::Constant(_))) => op == OpCode::SliceStart && !exclusive,
            (Some(SliceBound::Constant(_)), None) => op == OpCode::SliceEnd && !exclusive,
            (Some(SliceBound::Register(_)), Some(SliceBound::Register(_))) => op == if exclusive {
                OpCode::SliceExclusiveDyn
            } else {
                OpCode::SliceDyn
            },
            _ => false,
        },
    }
}

/// Whether an instruction is what the opcode `op` decodes to.
pub open spec fn kind_matches(op: OpCode, kind: InstructionKind) -> bool {
    match kind {
        InstructionKind::Op(operation) => operation_matches(op, operation),
        InstructionKind::Function { .. } => op == OpCode::Func || op == OpCode::FuncVarg,
        InstructionKind::If { condition, .. } => op == condition_opcode(condition),
        InstructionKind::Loop { kind, .. } => op == loop_opcode(kind),
        InstructionKind::Record { .. } => op == OpCode::Record,
        InstructionKind::Array { .. } => op == OpCode::Array,
        InstructionKind::Module { .. } => op == OpCode::Module,
    }
}

/// Whether the instruction is what the opcode at its offset decodes to.
pub open spec fn decoded_from(code: Seq<u8>, instruction: Instruction) -> bool {
    &&& instruction.offset < code.len()
    &&& match OpCode::spec_from_code(opcode_byte(code, instruction.offset as int).0) {
        Some(op) => kind_matches(op, instruction.kind),
        None => false,
    }
}

/// The `k`-th parameter of the instruction whose opcode is at `at`, in
/// the width that the opcode's wide bit selects.
pub open spec fn operand(code: Seq<u8>, at: int, k: int) -> nat {
    let wide = opcode_byte(code, at).1;
    param_at(code, at + 1 + k * param_width(wide), wide)
}

/// The `k`-th parameter of the instruction at `at`, read as a signed
/// integer.
pub open spec fn signed_operand(code: Seq<u8>, at: int, k: int) -> int {
    let wide = opcode_byte(code, at).1;
    index_at(code, at + 1 + k * param_width(wide), wide)
}

/// Whether the registers are the parameters from the `k`-th on.
pub open spec fn registers_at(code: Seq<u8>, at: int, k: int, registers: Seq<RegisterId>) -> bool {
    forall|i: int| 0 <= i < registers.len() ==> #[trigger] registers[i].0 == operand(code, at, k + i)
}

/// Whether the numbers are the parameters from the `k`-th on.
pub open spec fn params_at(code: Seq<u8>, at: int, k: int, values: Seq<usize>) -> bool {
    forall|i: int| 0 <= i < values.len() ==> #[trigger] values[i] == operand(code, at, k + i)
}

/// Whether the operands of an operation are the parameters that follow
/// its opcode at `at`: registers, constant and argument indexes, counts and
/// integer keys in the order the encoding lists them. Global slots are
/// numbered by name instead, and are left out.
pub open spec fn operation_layout(code: Seq<u8>, at: int, op: Operation) -> bool {
    match op {
        Operation::Noop | Operation::Break | Operation::Continue => true,
        Operation::Return { value } => value.0 == operand(code, at, 0),
        Operation::Uninit { destination } => destination.0 == operand(code, at, 0),
        Operation::Assert { value, .. } => value.0 == operand(code, at, 0),
        Operation::Constant { destination, constant } => destination.0 == operand(code, at, 0)
            && constant == operand(code, at, 1),
        Operation::Unary { destination, value, .. } => destination.0 == operand(code, at, 0) && value.0
            == operand(code, at, 1),
        Operation::GetGlobalDyn { destination, key } | Operation::InGlobal { destination, key } => {
            destination.0 == operand(code, at, 0) && key.0 == operand(code, at, 1)
        },
        Operation::Add { destination, left, right }
        | Operation::Sub { destination, left, right }
        | Operation::Mul { destination, left, right }
        | Operation::Div { destination, left, right }
        | Operation::Mod { destination, left, right }
        | Operation::Pow { destination, left, right }
        | Operation::Binary { destination, left, right, .. } => {
            &&& destination.0 == operand(code, at, 0)
            &&& left.0 == operand(code, at, 1)
            &&& right.0 == operand(code, at, 2)
        },
        Operation::Swap { left, right } => left.0 == operand(code, at, 0) && right.0 == operand(
            code,
            at,
            1,
        ),
        Operation::Upvalue { value, level, register, .. } => {
            &&& value.0 == operand(code, at, 0)
            &&& level == operand(code, at, 1)
            &&& register.0 == operand(code, at, 2)
        },
        Operation::GetGlobal { destination, .. } => destination.0 == operand(code, at, 0),
        Operation::Concat { destination, values } => {
            &&& destination.0 == operand(code, at, 0)
            &&& values@.len() == operand(code, at, 1)
            &&& registers_at(code, at, 2, values@)
        },
        Operation::Format { destination, value, format } => {
            &&& destination.0 == operand(code, at, 0)
            &&& value.0 == operand(code, at, 1)
            &&& format == operand(code, at, 2)
        },
        Operation::PickOmit { destination, value, keys, .. } => {
            &&& destination.0 == operand(code, at, 0)
            &&& value.0 == operand(code, at, 1)
            &&& keys@.len() == operand(code, at, 2)
            &&& params_at(code, at, 3, keys@)
        },
        Operation::CallGlobal0 { destination, .. } => {
            &&& destination.0 == operand(code, at, 0)
            &&& operand(code, at, 2) == 0
            &&& operand(code, at, 3) == 0
        },
        Operation::CallGlobal1 { destination, argument, .. } => {
            &&& destination.0 == operand(code, at, 0)
            &&& operand(code, at, 2) == 1
            &&& argument.0 == operand(code, at, 3)
            &&& operand(code, at, 4) == 0
        },
        Operation::CallGlobal1FromGlobal { destination, .. } => {
            &&& destination.0 == operand(code, at, 0)
            &&& operand(code, at, 2) == 1
            &&& operand(code, at, 4) == 0
        },
        Operation::CallGlobal2 { destination, arguments, .. } => {
            &&& destination.0 == operand(code, at, 0)
            &&& operand(code, at, 2) == 2
            &&& registers_at(code, at, 3, arguments@)
            &&& operand(code, at, 5) == 0
        },
        Operation::CallGlobal3 { destination, arguments, .. } => {
            &&& destination.0 == operand(code, at, 0)
            &&& operand(code, at, 2) == 3
            &&& registers_at(code, at, 3, arguments@)
            &&& operand(code, at, 6) == 0
        },
        Operation::CallGlobal4 { destination, arguments, .. } => {
            &&& destination.0 == operand(code, at, 0)
            &&& operand(code, at, 2) == 4
            &&& registers_at(code, at, 3, arguments@)
            &&& operand(code, at, 7) == 0
        },
        Operation::Call { destination, target, arguments, spreads } => {
            &&& destination.0 == operand(code, at, 0)
            &&& target matches CallTarget::Register(callee) ==> callee.0 == operand(code, at, 1)
            &&& arguments@.len() == operand(code, at, 2)
            &&& registers_at(code, at, 3, arguments@)
            &&& spreads@.len() == operand(code, at, 3 + arguments@.len() as int)
            &&& params_at(code, at, 4 + arguments@.len() as int, spreads@)
        },
        Operation::Access { destination, value, key, .. } => {
            &&& destination.0 == operand(code, at, 0)
            &&& value.0 == operand(code, at, 1)
            &&& match key {
                AccessKey::Constant(index) => index == operand(code, at, 2),
                AccessKey::Register(register) => register.0 == operand(code, at, 2),
                AccessKey::Index(index) => index == signed_operand(code, at, 2),
            }
        },
        Operation::Slice { destination, value, start, end, .. } => {
            &&& destination.0 == operand(code, at, 0)
            &&& value.0 == operand(code, at, 1)
            &&& match (start, end) {
                (Some(SliceBound::Constant(first)), Some(SliceBound::Constant(last))) => first
                    == signed_operand(code, at, 2) && last == signed_operand(code, at, 3),
                (None, Some(SliceBound::Constant(last))) => last == signed_operand(code, at, 2),
                (Some(SliceBound::Constant(first)), None) => first == signed_operand(code, at, 2),
                (Some(SliceBound::Register(first)), Some(SliceBound::Register(last))) => first.0
                    == operand(code, at, 2) && last.0 == operand(code, at, 3),
                _ => true,
            }
        },
    }
}

/// The global slot that an operation reads or calls by name: that of a
/// global read, or of the callee of a call of a global.
pub open spec fn named_slot(op: Operation) -> Option<usize> {
    match op {
        Operation::GetGlobal { slot, .. }
        | Operation::CallGlobal0 { slot, .. }
        | Operation::CallGlobal1 { slot, .. }
        | Operation::CallGlobal1FromGlobal { slot, .. }
        | Operation::CallGlobal2 { slot, .. }
        | Operation::CallGlobal3 { slot, .. }
        | Operation::CallGlobal4 { slot, .. } => Some(slot),
        Operation::Call { target: CallTarget::Global(slot), .. } => Some(slot),
        _ => None,
    }
}

/// Whether a slot is that of a constant's text, when the constant is a
/// string.
pub open spec fn names_constant(names: Seq<Seq<char>>, constant: ConstantView, slot: usize) -> bool {
    match constant {
        ConstantView::String(name) => slot < names.len() && names[slot as int] == name,
        _ => true,
    }
}

/// Whether the global slot an operation at `at` names by its second
/// parameter, a constant index, is that of the constant's text when the
/// constant is a string.
pub open spec fn slot_named(t: Tables, at: int, op: Operation) -> bool {
    match named_slot(op) {
        Some(slot) => names_constant(t.global_names, t.constants[operand(t.code, at, 1) as int], slot),
        None => true,
    }
}

/// Whether the last instruction of a block, when it is a call whose
/// argument is read from a global, follows the global read whose slot it
/// reads.
pub open spec fn argument_slot_read(body: Seq<Instruction>) -> bool {
    match body.last().kind {
        InstructionKind::Op(Operation::CallGlobal1FromGlobal { argument_slot, .. }) => {
            &&& body.len() >= 2
            &&& body[body.len() - 2].kind matches InstructionKind::Op(Operation::GetGlobal { slot, .. })
            &&& body[body.len() - 2].kind->Op_0->GetGlobal_slot == argument_slot
        },
        _ => true,
    }
}

/// Whether the operands of an instruction are the parameters that follow
/// its opcode; a function definition's counts are its second and third.
pub open spec fn instruction_layout(t: Tables, instruction: Instruction) -> bool {
    let code = t.code;
    let at = instruction.offset as int;
    match instruction.kind {
        InstructionKind::Op(op) => operation_layout(code, at, op) && slot_named(t, at, op),
        InstructionKind::Function { destination, function } => {
            &&& destination.0 == operand(code, at, 0)
            &&& t.functions[function as int].arg_count == operand(code, at, 1)
            &&& t.functions[function as int].register_count == operand(code, at, 2)
        },
        InstructionKind::If { register, .. } => register.0 == operand(code, at, 0),
        InstructionKind::Loop { register_count, kind, .. } => {
            &&& register_count == operand(code, at, 0)
            &&& match kind {
                LoopKind::Infinite => true,
                LoopKind::Iterable { value } => value.0 == operand(code, at, 1),
                LoopKind::Range { start, end, .. } => start.0 == operand(code, at, 1) && end.0
                    == operand(code, at, 2),
            }
        },
        InstructionKind::Record { destination, .. } | InstructionKind::Array { destination, .. } => {
            destination.0 == operand(code, at, 0)
        },
        InstructionKind::Module { destination, name, .. } => {
            &&& destination.0 == operand(code, at, 0)
            &&& operand(code, at, 1) < t.constants.len()
            &&& t.constants[operand(code, at, 1) as int] == ConstantView::String(name@)
        },
    }
}

/// Whether an instruction is valid in a scope nested `loops` loops deep,
/// referring only to functions below `bound`.
pub open spec fn instruction_ok(
    t: Tables,
    instruction: Instruction,
    scopes: Seq<usize>,
    loops: nat,
    bound: nat,
) -> bool
    decreases bound, instruction,
{
    &&& decoded_from(t.code, instruction)
    &&& instruction_layout(t, instruction)
    &&& match instruction.kind {
        InstructionKind::Op(op) => operation_ok(op, t, scopes, loops),
        InstructionKind::Function { destination, function } => {
            &&& register_ok(destination, scopes)
            &&& function < bound
            &&& bound <= t.functions.len()
            &&& t.functions[function as int].offset == instruction.offset
            &&& t.functions[function as int].variadic == (opcode_byte(t.code, instruction.offset as int).0
                == OpCode::FuncVarg.spec_code())
            &&& t.functions[function as int].arg_count <= t.functions[function as int].register_count
            &&& block_ok(
                t,
                t.functions[function as int].body@,
                scopes.push(t.functions[function as int].register_count),
                loops,
                function as nat,
            )
            &&& spans(
                t.code,
                t.constants,
                scopes.push(t.functions[function as int].register_count),
                loops,
                t.functions[function as int].body@,
                params_end(t.code, instruction.offset as int, 3),
                seq![OpCode::FuncEnd],
            )
        },
        InstructionKind::If { register, then_body, else_body, .. } => {
            &&& register_ok(register, scopes)
            &&& block_ok(t, then_body@, scopes, loops, bound)
            &&& block_ok(t, else_body@, scopes, loops, bound)
            &&& if_bodies_span(t, instruction.offset as int, then_body@, else_body@, scopes, loops)
        },
        InstructionKind::Loop { register_count, kind, body, reuse_frame } => {
            &&& loop_kind_ok(kind, scopes)
            &&& reuse_frame == !spec_may_capture(body@)
            &&& block_ok(t, body@, scopes.push(register_count), loops + 1, bound)
            &&& spans(
                t.code,
                t.constants,
                scopes.push(register_count),
                loops + 1,
                body@,
                params_end(t.code, instruction.offset as int, 1 + loop_reads(loop_opcode(kind))),
                seq![OpCode::LoopEnd],
            )
        },
        InstructionKind::Record { destination, elements } => {
            &&& register_ok(destination, scopes)
            &&& forall|i: int|
                0 <= i < elements@.len() ==> #[trigger] record_element_ok(elements@[i], t, scopes)
            &&& ends_at_freeze(
                t.code,
                record_elements_span(t.code, t.constants, elements@, params_end(t.code, instruction.offset as int, 1)),
            )
        },
        InstructionKind::Array { destination, elements } => {
            &&& register_ok(destination, scopes)
            &&& forall|i: int| 0 <= i < elements@.len() ==> #[trigger] array_element_ok(elements@[i], scopes)
            &&& ends_at_freeze(
                t.code,
                array_elements_span(t.code, elements@, params_end(t.code, instruction.offset as int, 1)),
            )
        },
        InstructionKind::Module { destination, name, fields } => {
            &&& register_ok(destination, scopes)
            &&& is_string_constant(t.constants, name@)
            &&& module_fields_ok(fields@, t, scopes)
            &&& ends_at_freeze(
                t.code,
                module_fields_span(t.code, t.constants, fields@, params_end(t.code, instruction.offset as int, 2)),
            )
        },
    }
}

/// Whether the branches of the conditional at `at` are every instruction
/// of its code: the then-branch from after the tested register up to `Else`
/// or `IfEnd`, and after `Else` the else-branch up to `IfEnd`; without
/// `Else`, no else-branch.
pub open spec fn if_bodies_span(
    t: Tables,
    at: int,
    then_body: Seq<Instruction>,
    else_body: Seq<Instruction>,
    scopes: Seq<usize>,
    loops: nat,
) -> bool {
    &&& spans(t.code, t.constants, scopes, loops, then_body, params_end(t.code, at, 1), seq![OpCode::Else, OpCode::IfEnd])
    &&& match chain_end(t.code, t.constants, scopes, loops, then_body, params_end(t.code, at, 1)) {
        Some(middle) => if opcode_at(t.code, middle) == Some(OpCode::Else) {
            spans(t.code, t.constants, scopes, loops, else_body, middle + 1, seq![OpCode::IfEnd])
        } else {
            else_body.len() == 0
        },
        None => false,
    }
}

/// Whether two adjacent instructions are a global read whose result is the
/// single argument of the next call of a global; the decoder fuses such
/// pairs, so they never remain in a decoded block.
pub open spec fn fusable(previous: Instruction, next: Instruction) -> bool {
    &&& previous.kind matches InstructionKind::Op(Operation::GetGlobal { destination: loaded, .. })
    &&& next.kind matches InstructionKind::Op(Operation::CallGlobal1 { argument, .. })
    &&& loaded == argument
}

/// Whether every instruction of a block is valid, the instructions come in
/// the order of their offsets, and no fusable pair is left.
pub open spec fn block_ok(
    t: Tables,
    body: Seq<Instruction>,
    scopes: Seq<usize>,
    loops: nat,
    bound: nat,
) -> bool
    decreases bound, body,
{
    if body.len() == 0 {
        true
    } else {
        &&& block_ok(t, body.drop_last(), scopes, loops, bound)
        &&& instruction_ok(t, body.last(), scopes, loops, bound)
        &&& argument_slot_read(body)
        &&& body.len() >= 2 ==> !fusable(body[body.len() - 2], body.last())
        &&& body.len() >= 2 ==> body[body.len() - 2].offset < body.last().offset
    }
}

/// A block extended by one instruction is valid when both parts are and
/// the new instruction cannot be fused with the last one.
pub proof fn lemma_block_push(
    t: Tables,
    body: Seq<Instruction>,
    instruction: Instruction,
    scopes: Seq<usize>,
    loops: nat,
    bound: nat,
)
    ensures
        block_ok(t, body.push(instruction), scopes, loops, bound) == ({
            &&& block_ok(t, body, scopes, loops, bound)
            &&& instruction_ok(t, instruction, scopes, loops, bound)
            &&& argument_slot_read(body.push(instruction))
            &&& body.len() >= 1 ==> !fusable(body.last(), instruction)
            &&& body.len() >= 1 ==> body.last().offset < instruction.offset
        }),
{
    assert(body.push(instruction).drop_last() =~= body);
}

/// Every instruction of a valid block is valid.
pub proof fn lemma_block_index(t: Tables, body: Seq<Instruction>, scopes: Seq<usize>, loops: nat, bound: nat, i: int)
    requires
        block_ok(t, body, scopes, loops, bound),
        0 <= i < body.len(),
    ensures
        instruction_ok(t, body[i], scopes, loops, bound),
    decreases body.len(),
{
    if i < body.len() - 1 {
        lemma_block_index(t, body.drop_last(), scopes, loops, bound, i);
    }
}

/// Operations stay valid when the tables grow.
pub proof fn lemma_operation_extend(op: Operation, t1: Tables, t2: Tables, scopes: Seq<usize>, loops: nat)
    requires
        operation_ok(op, t1, scopes, loops),
        tables_extend(t1, t2),
    ensures
        operation_ok(op, t2, scopes, loops),
{
}

/// Instructions stay valid when the tables grow and more functions may be
/// referred to, as long as the functions they reach are already present.
pub proof fn lemma_instruction_extend(
    t1: Tables,
    t2: Tables,
    instruction: Instruction,
    scopes: Seq<usize>,
    loops: nat,
    bound1: nat,
    bound2: nat,
)
    requires
        instruction_ok(t1, instruction, scopes, loops, bound1),
        tables_extend(t1, t2),
        bound1 <= t1.functions.len(),
        bound1 <= bound2 <= t2.functions.len(),
    ensures
        instruction_ok(t2, instruction, scopes, loops, bound2),
    decreases bound1, instruction,
{
    match instruction.kind {
        InstructionKind::Op(op) => {
            lemma_operation_extend(op, t1, t2, scopes, loops);
            if let Some(slot) = named_slot(op) {
                if slot < t1.global_names.len() {
                    assert(t2.global_names.take(t1.global_names.len() as int)[slot as int] == t2.global_names[slot as int]);
                }
            }
        },
        InstructionKind::Function { destination, function } => {
            assert(t2.functions[function as int] == t1.functions[function as int]) by {
                assert(t2.functions.take(t1.functions.len() as int)[function as int]
                    == t2.functions[function as int]);
            }
            let f = t1.functions[function as int];
            lemma_block_extend(
                t1,
                t2,
                f.body@,
                scopes.push(f.register_count),
                loops,
                function as nat,
                function as nat,
            );
        },
        InstructionKind::If { then_body, else_body, .. } => {
            lemma_block_extend(t1, t2, then_body@, scopes, loops, bound1, bound2);
            lemma_block_extend(t1, t2, else_body@, scopes, loops, bound1, bound2);
        },
        InstructionKind::Loop { register_count, body, .. } => {
            lemma_block_extend(t1, t2, body@, scopes.push(register_count), loops + 1, bound1, bound2);
        },
        InstructionKind::Record { elements, .. } => {
            assert forall|i: int| 0 <= i < elements@.len() implies #[trigger] record_element_ok(
                elements@[i],
                t2,
                scopes,
            ) by {
                assert(record_element_ok(elements@[i], t1, scopes));
            }
        },
        InstructionKind::Array { .. } => {},
        InstructionKind::Module { fields, .. } => {},
    }
}

/// Blocks stay valid when the tables grow and more functions may be
/// referred to, as long as the functions they reach are already present.
pub proof fn lemma_block_extend(
    t1: Tables,
    t2: Tables,
    body: Seq<Instruction>,
    scopes: Seq<usize>,
    loops: nat,
    bound1: nat,
    bound2: nat,
)
    requires
        block_ok(t1, body, scopes, loops, bound1),
        tables_extend(t1, t2),
        bound1 <= t1.functions.len(),
        bound1 <= bound2 <= t2.functions.len(),
    ensures
        block_ok(t2, body, scopes, loops, bound2),
    decreases bound1, body,
{
    if body.len() > 0 {
        lemma_block_extend(t1, t2, body.drop_last(), scopes, loops, bound1, bound2);
        lemma_instruction_extend(t1, t2, body.last(), scopes, loops, bound1, bound2);
    }
}

/// In a valid block, no global read is left in front of a call of a
/// global that takes its result as the single argument: such pairs are
/// fused.
pub proof fn lemma_no_fusable_pair(
    t: Tables,
    body: Seq<Instruction>,
    scopes: Seq<usize>,
    loops: nat,
    bound: nat,
    i: int,
)
    requires
        block_ok(t, body, scopes, loops, bound),
        0 <= i < body.len() - 1,
    ensures
        !fusable(body[i], body[i + 1]),
    decreases body.len(),
{
    if i + 1 < body.len() - 1 {
        lemma_no_fusable_pair(t, body.drop_last(), scopes, loops, bound, i);
    }
}

/// In a valid block, a general call of a global has more than four
/// arguments or spreads some: the others are fixed-arity calls.
pub proof fn lemma_global_calls_quickened(
    t: Tables,
    body: Seq<Instruction>,
    scopes: Seq<usize>,
    loops: nat,
    bound: nat,
    i: int,
)
    requires
        block_ok(t, body, scopes, loops, bound),
        0 <= i < body.len(),
    ensures
        body[i].kind matches InstructionKind::Op(Operation::Call { target, arguments, spreads, .. })
            ==> (target is Global ==> arguments@.len() > 4 || spreads@.len() > 0),
{
    lemma_block_index(t, body, scopes, loops, bound, i);
}

/// In a valid block, a global read or call of a global names the slot of
/// its constant's text, and a call whose argument is read from a global
/// follows the read of that global's slot.
pub proof fn lemma_global_slots_named(
    t: Tables,
    body: Seq<Instruction>,
    scopes: Seq<usize>,
    loops: nat,
    bound: nat,
    i: int,
)
    requires
        block_ok(t, body, scopes, loops, bound),
        0 <= i < body.len(),
    ensures
        body[i].kind matches InstructionKind::Op(op) ==> slot_named(t, body[i].offset as int, op),
        body[i].kind matches InstructionKind::Op(Operation::CallGlobal1FromGlobal { argument_slot, .. }) ==> {
            &&& i >= 1
            &&& body[i - 1].kind matches InstructionKind::Op(Operation::GetGlobal { slot, .. })
            &&& body[i - 1].kind->Op_0->GetGlobal_slot == argument_slot
        },
    decreases body.len(),
{
    lemma_block_index(t, body, scopes, loops, bound, i);
    if i < body.len() - 1 {
        lemma_global_slots_named(t, body.drop_last(), scopes, loops, bound, i);
    }
}

/// In a valid block, a loop reuses one frame for all its iterations
/// exactly when no instruction of its body may capture the frame.
pub proof fn lemma_loop_reuses_frame_exactly(
    t: Tables,
    body: Seq<Instruction>,
    scopes: Seq<usize>,
    loops: nat,
    bound: nat,
    i: int,
)
    requires
        block_ok(t, body, scopes, loops, bound),
        0 <= i < body.len(),
    ensures
        body[i].kind matches InstructionKind::Loop { body: inner, reuse_frame, .. } ==> (reuse_frame
            <==> forall|j: int| 0 <= j < inner@.len() ==> !#[trigger] instruction_may_capture(inner@[j])),
{
    lemma_block_index(t, body, scopes, loops, bound, i);
    if let InstructionKind::Loop { body: inner, .. } = body[i].kind {
        lemma_may_capture_exists(inner@);
    }
}

/// Each binary operation is encoded by the opcode of the same name.
pub proof fn lemma_binary_opcodes_named()
    ensures
        binary_opcode(BinaryOperation::Eq) == OpCode::Eq,
        binary_opcode(BinaryOperation::Neq) == OpCode::Neq,
        binary_opcode(BinaryOperation::Lt) == OpCode::Lt,
        binary_opcode(BinaryOperation::Lte) == OpCode::Lte,
        binary_opcode(BinaryOperation::Gt) == OpCode::Gt,
        binary_opcode(BinaryOperation::Gte) == OpCode::Gte,
        binary_opcode(BinaryOperation::Aeq) == OpCode::Aeq,
        binary_opcode(BinaryOperation::Naeq) == OpCode::Naeq,
        binary_opcode(BinaryOperation::Same) == OpCode::Same,
        binary_opcode(BinaryOperation::Nsame) == OpCode::Nsame,
        binary_opcode(BinaryOperation::In) == OpCode::In,
        binary_opcode(BinaryOperation::And) == OpCode::And,
        binary_opcode(BinaryOperation::Or) == OpCode::Or,
{
}

/// A numeric-range loop is encoded by the opcode of its end's kind: an
/// exclusive end by `LoopRangeExclusive`, an inclusive one by `LoopRange`.
pub proof fn lemma_range_loop_opcodes(start: RegisterId, end: RegisterId)
    ensures
        loop_opcode(LoopKind::Range { start, end, exclusive: true }) == OpCode::LoopRangeExclusive,
        loop_opcode(LoopKind::Range { start, end, exclusive: false }) == OpCode::LoopRange,
{
}

} // verus!

//! Running decoded programs on scalar values.
//!
//! Values here are scalars: nil, booleans and numbers, or unwritten
//! registers. Floating-point arithmetic is done by the caller's `num`,
//! which is handed the operation and the operands' bit patterns.
use vstd::prelude::*;

use crate::constants::Constant;
use crate::error::{MiraError, Result, RuntimeErrorKind};
use crate::frame::{FrameArena, FrameId};
use crate::model::{
    AssertOperation, BinaryOperation, Condition, Instruction, InstructionKind, LoopKind, Operation,
    Program, UnaryOperation, UpvalueOperation,
};
use crate::operations::{assert_non_nil, to_boolean};
use crate::globals::Globals;
use crate::register::{MiraAny, RegisterId, register_capacity};
use crate::decoder::{chunk_sections, decode_result_ok};
use crate::script::{CompileOptions, MiraScript, ScriptId, compile, compile_result_ok, compiler_output};
use crate::validity::{Tables, block_ok, instruction_ok, lemma_block_index};
use crate::value::{MiraType, MiraValue};

verus! {

/// How running an instruction ends: go on with the next one, leave or
/// restart the innermost loop, or return a value from the function.
#[derive(Debug, Clone, Copy)]
pub enum Flow {
    /// Go on with the next instruction.
    Continue,
    /// Start the next iteration of the innermost loop.
    LoopContinue,
    /// Leave the innermost loop.
    Break,
    /// Return from the function.
    Return(MiraValue),
}

/// A floating-point operation, done by the caller on bit patterns.
#[derive(Debug, Clone, Copy, PartialEq, Eq, Structural)]
pub enum NumOp {
    /// `a + b`.
    Add,
    /// `a - b`.
    Sub,
    /// `a * b`.
    Mul,
    /// `a / b`.
    Div,
    /// `a % b`.
    Mod,
    /// `a` to the power `b`.
    Pow,
    /// `-a`.
    Neg,
    /// The number of the 32-bit integer whose two's-complement pattern is
    /// the low half of `a`.
    FromInt,
    /// `a + 1`.
    Increment,
    /// 1 when `a < b`, else 0.
    Less,
    /// 1 when `a <= b`, else 0.
    LessEqual,
    /// 1 when `a == b` as numbers, else 0.
    Equal,
    /// 1 when `a == b` as numbers or both are NaN, else 0.
    SameValue,
    /// 1 when neither is NaN and `a` and `b` are equal or differ by less
    /// than 1e-15, absolutely or relative to the smaller magnitude, else 0.
    Approx,
}

/// The bit pattern of the number 1.
pub const ONE_BITS: u64 = 0x3ff0_0000_0000_0000;

/// Whether a value is one this runtime holds: unwritten, nil, a boolean
/// or a number.
pub open spec fn is_scalar(value: MiraValue) -> bool {
    value is Uninitialized || value is Nil || value is Boolean || value is Number
}

/// Whether every register of every active frame holds a scalar.
pub open spec fn scalar_frames(frames: &FrameArena) -> bool {
    forall|id: FrameId, i: int|
        id.0 <= frames.active() && 0 <= i < frames.frame(id).registers@.len() ==> is_scalar(
            #[trigger] frames.frame(id).registers@[i].0,
        )
}

/// The value of a register, unwritten ones included; register 0 is nil.
pub open spec fn cell(frames: &FrameArena, frame: FrameId, register: RegisterId) -> MiraValue {
    if register.0 == 0 {
        MiraValue::Nil
    } else {
        frames.frame(frame).registers@[register.0 - 1].0
    }
}

/// Whether `after` is `before` with one register of `frame` set to `value`.
pub open spec fn sets(before: &FrameArena, after: &FrameArena, frame: FrameId, register: RegisterId, value: MiraValue) -> bool {
    &&& after.wf()
    &&& after.active() == before.active()
    &&& after.frame(frame).parent == before.frame(frame).parent
    &&& after.frame(frame).registers@ == if register.0 == 0 {
        before.frame(frame).registers@
    } else {
        before.frame(frame).registers@.update(register.0 - 1, MiraAny(value))
    }
    &&& forall|id: FrameId| id.0 <= before.active() && id != frame ==> #[trigger] after.frame(id) == before.frame(id)
}

/// Whether `after` is `before` unchanged, frame by active frame.
pub open spec fn same_frames(before: &FrameArena, after: &FrameArena) -> bool {
    &&& after.wf()
    &&& after.active() == before.active()
    &&& forall|id: FrameId| id.0 <= before.active() ==> #[trigger] after.frame(id) == before.frame(id)
}

/// Whether `r` is the runtime failure of kind `kind`.
pub open spec fn fails_with<T>(r: Result<T>, kind: RuntimeErrorKind) -> bool {
    r matches Err(e) && e.is_runtime_with(kind)
}

/// The number a scalar converts to: a number itself, 1 or 0 for a boolean.
pub open spec fn number_of(value: MiraValue) -> Option<u64> {
    match value {
        MiraValue::Number(bits) => Some(bits),
        MiraValue::Boolean(b) => Some(if b {
            ONE_BITS
        } else {
            0
        }),
        _ => None,
    }
}

/// The failure of converting a scalar that is no number: an unwritten
/// register, or a value of another type.
pub open spec fn number_failure(value: MiraValue) -> RuntimeErrorKind {
    if value is Uninitialized {
        RuntimeErrorKind::UninitializedValue
    } else {
        RuntimeErrorKind::TypeMismatch { expected: "number-convertible value", actual: value.spec_value_type() }
    }
}

/// Whether an operation is one this runtime runs whatever the globals: one
/// on scalars that reads no string constant or global, and calls nothing;
/// upvalues reach the registers of enclosing frames.
pub open spec fn scalar_operation(op: Operation, constants: Seq<Constant>) -> bool {
    match op {
        Operation::Noop | Operation::Break | Operation::Continue | Operation::Return { .. }
        | Operation::Uninit { .. } | Operation::Add { .. } | Operation::Sub { .. } | Operation::Mul { .. }
        | Operation::Div { .. } | Operation::Mod { .. } | Operation::Pow { .. } | Operation::Swap { .. }
        | Operation::Assert { .. } => true,
        Operation::Constant { constant, .. } => constant < constants.len() && !(constants[constant as int] is String),
        Operation::Unary { kind, .. } => !(kind is Type || kind is ToString || kind is Length),
        Operation::Binary { .. } | Operation::Upvalue { .. } => true,
        _ => false,
    }
}

/// The registers of the running frame an operation of this runtime names.
pub open spec fn operation_registers(op: Operation) -> Seq<RegisterId> {
    match op {
        Operation::Return { value } => seq![value],
        Operation::Constant { destination, .. } | Operation::Uninit { destination } => seq![destination],
        Operation::Unary { destination, value, .. } => seq![destination, value],
        Operation::Add { destination, left, right }
        | Operation::Sub { destination, left, right }
        | Operation::Mul { destination, left, right }
        | Operation::Div { destination, left, right }
        | Operation::Mod { destination, left, right }
        | Operation::Pow { destination, left, right }
        | Operation::Binary { destination, left, right, .. } => seq![destination, left, right],
        Operation::Swap { left, right } => seq![left, right],
        Operation::Assert { value, .. } | Operation::Upvalue { value, .. } => seq![value],
        Operation::GetGlobal { destination, .. } => seq![destination],
        _ => seq![],
    }
}

/// Whether every register an operation names is at most `limit`.
pub open spec fn registers_within(op: Operation, limit: nat) -> bool {
    forall|i: int| 0 <= i < operation_registers(op).len() ==> #[trigger] operation_registers(op)[i].0 <= limit
}

/// Whether the enclosing register an upvalue operation names can be
/// reached: the parent links it follows lead to active frames, and the
/// register is in range of the frame it reaches.
pub open spec fn upvalue_in_range(frames: &FrameArena, frame: FrameId, op: Operation) -> bool {
    match op {
        Operation::Upvalue { level, register, .. } => {
            &&& frames.chain_active(frame, level as nat)
            &&& (frames.ancestor(frame, level as nat) matches Some(owner) ==> frames.register_in_range(owner, register))
        },
        _ => true,
    }
}

/// Whether an upvalue operation names a frame of the scopes it is nested
/// in, innermost last, and a register within that scope.
pub open spec fn upvalue_fits(op: Operation, scopes: Seq<usize>) -> bool {
    match op {
        Operation::Upvalue { level, register, .. } => level < scopes.len() && register.0 <= scopes[scopes.len() - 1 - level],
        _ => true,
    }
}

/// Whether the frame `k` parent links up from `frame` is reached through
/// active frames and holds the registers of the `k`-th enclosing scope.
pub open spec fn ancestor_fits(a: &FrameArena, frame: FrameId, scopes: Seq<usize>, k: nat) -> bool {
    &&& a.chain_active(frame, k)
    &&& match a.ancestor(frame, k) {
        Some(id) => id.0 <= a.active() && scopes[scopes.len() - 1 - k] <= a.frame(id).registers@.len(),
        None => false,
    }
}

/// Whether `frame` and its ancestors hold the registers of the scopes that
/// code running in it is nested in, innermost last.
pub open spec fn frames_fit(a: &FrameArena, frame: FrameId, scopes: Seq<usize>) -> bool {
    &&& scopes.len() > 0
    &&& forall|k: nat| k < scopes.len() ==> #[trigger] ancestor_fits(a, frame, scopes, k)
}

/// Whether every frame active before keeps its parent and its number of
/// registers, and no active frame is dropped.
pub open spec fn shape_kept(before: &FrameArena, after: &FrameArena) -> bool {
    &&& before.active() <= after.active()
    &&& forall|id: FrameId|
        id.0 <= before.active() ==> (#[trigger] after.frame(id)).parent == before.frame(id).parent
            && after.frame(id).registers@.len() == before.frame(id).registers@.len()
}

/// The frame reached from `frame` by following `level` parent links in a
/// view.
pub open spec fn view_ancestor(v: Seq<(Option<FrameId>, Seq<MiraAny>)>, frame: FrameId, level: nat) -> Option<FrameId>
    decreases level,
{
    if level == 0 {
        Some(frame)
    } else {
        match v[frame.0 as int].0 {
            Some(parent) => view_ancestor(v, parent, (level - 1) as nat),
            None => None,
        }
    }
}

/// The globals a program names, by slot: each name with the value the
/// global shows to scripts, if it is defined and written.
pub open spec fn global_env(names: Seq<(String, Option<usize>)>, globals: &Globals) -> Seq<(String, Option<MiraValue>)> {
    Seq::new(names.len(), |i: int| (names[i].0, globals.visible(names[i].0@)))
}

/// Whether an operation reads a global this runtime holds: one of a slot
/// the program names whose global, when defined, is a scalar.
pub open spec fn global_read(op: Operation, env: Seq<(String, Option<MiraValue>)>) -> bool {
    match op {
        Operation::GetGlobal { slot, .. } => slot < env.len() && (env[slot as int].1 matches Some(value) ==> is_scalar(value)),
        _ => false,
    }
}

/// Whether `num` gives one result for each operation and operands.
pub open spec fn deterministic<N: Fn(NumOp, u64, u64) -> u64>(num: N) -> bool {
    forall|op: NumOp, a: u64, b: u64, x: u64, y: u64|
        #[trigger] num.ensures((op, a, b), x) && #[trigger] num.ensures((op, a, b), y) ==> x == y
}

/// The result `num` gives for an operation and operands.
pub open spec fn num_value<N: Fn(NumOp, u64, u64) -> u64>(num: N, op: NumOp, a: u64, b: u64) -> u64 {
    choose|r: u64| num.ensures((op, a, b), r)
}

/// The value of a binary operation on two written scalars, or its failure:
/// `and`/`or` on booleans; `in` is false for any scalar container;
/// orderings and approximate equality on the numbers the operands convert
/// to, done by `num`; equality and same-value equality by `num` on two
/// numbers and by identity otherwise.
pub open spec fn binary_result<N: Fn(NumOp, u64, u64) -> u64>(
    kind: BinaryOperation,
    a: MiraValue,
    b: MiraValue,
    num: N,
) -> core::result::Result<MiraValue, RuntimeErrorKind> {
    match kind {
        BinaryOperation::And | BinaryOperation::Or => match (a, b) {
            (MiraValue::Boolean(x), MiraValue::Boolean(y)) => Ok(MiraValue::Boolean(if kind is And {
                x && y
            } else {
                x || y
            })),
            (MiraValue::Boolean(_), _) => Err(RuntimeErrorKind::TypeMismatch { expected: "boolean", actual: b.spec_value_type() }),
            _ => Err(RuntimeErrorKind::TypeMismatch { expected: "boolean", actual: a.spec_value_type() }),
        },
        BinaryOperation::In => Ok(MiraValue::Boolean(false)),
        BinaryOperation::Lt | BinaryOperation::Lte | BinaryOperation::Gt | BinaryOperation::Gte
        | BinaryOperation::Aeq | BinaryOperation::Naeq => match (number_of(a), number_of(b)) {
            (Some(x), Some(y)) => Ok(
                MiraValue::Boolean(
                    match kind {
                        BinaryOperation::Lt => num_value(num, NumOp::Less, x, y) != 0,
                        BinaryOperation::Lte => num_value(num, NumOp::LessEqual, x, y) != 0,
                        BinaryOperation::Gt => num_value(num, NumOp::Less, y, x) != 0,
                        BinaryOperation::Gte => num_value(num, NumOp::LessEqual, y, x) != 0,
                        BinaryOperation::Aeq => num_value(num, NumOp::Approx, x, y) != 0,
                        _ => num_value(num, NumOp::Approx, x, y) == 0,
                    },
                ),
            ),
            (None, _) => Err(number_failure(a)),
            (Some(_), None) => Err(number_failure(b)),
        },
        _ => {
            let negated = kind is Neq || kind is Nsame;
            let same = match (a, b) {
                (MiraValue::Number(x), MiraValue::Number(y)) => num_value(
                    num,
                    if kind is Eq || kind is Neq {
                        NumOp::Equal
                    } else {
                        NumOp::SameValue
                    },
                    x,
                    y,
                ) != 0,
                _ => a == b,
            };
            Ok(MiraValue::Boolean(same != negated))
        },
    }
}

/// The numeric operation of an arithmetic operation.
pub open spec fn arithmetic_kind(op: Operation) -> NumOp {
    match op {
        Operation::Add { .. } => NumOp::Add,
        Operation::Sub { .. } => NumOp::Sub,
        Operation::Mul { .. } => NumOp::Mul,
        Operation::Div { .. } => NumOp::Div,
        Operation::Mod { .. } => NumOp::Mod,
        _ => NumOp::Pow,
    }
}

/// What an arithmetic operation `kind` does: both operands converted to
/// numbers, and the destination set to what `num` gives for them.
pub open spec fn arithmetic_done<N: Fn(NumOp, u64, u64) -> u64>(
    before: &FrameArena,
    after: &FrameArena,
    frame: FrameId,
    kind: NumOp,
    destination: RegisterId,
    left: RegisterId,
    right: RegisterId,
    num: N,
    r: Result<Flow>,
) -> bool {
    let a = cell(before, frame, left);
    let b = cell(before, frame, right);
    match (number_of(a), number_of(b)) {
        (Some(x), Some(y)) => {
            &&& r matches Ok(Flow::Continue)
            &&& exists|z: u64| num.ensures((kind, x, y), z) && sets(before, after, frame, destination, MiraValue::Number(z))
        },
        (None, _) => same_frames(before, after) && fails_with(r, number_failure(a)),
        (Some(_), None) => same_frames(before, after) && fails_with(r, number_failure(b)),
    }
}

/// What running a scalar operation or global read in `frame` does to the
/// frames and returns, the numeric results being those that `num` may give
/// and the globals by slot those of `env`.
pub open spec fn operation_done<N: Fn(NumOp, u64, u64) -> u64>(
    before: &FrameArena,
    after: &FrameArena,
    frame: FrameId,
    op: Operation,
    constants: Seq<Constant>,
    env: Seq<(String, Option<MiraValue>)>,
    num: N,
    r: Result<Flow>,
) -> bool {
    match op {
        Operation::Noop => same_frames(before, after) && r matches Ok(Flow::Continue),
        Operation::Break => same_frames(before, after) && r matches Ok(Flow::Break),
        Operation::Continue => same_frames(before, after) && r matches Ok(Flow::LoopContinue),
        Operation::Return { value } => {
            &&& same_frames(before, after)
            &&& if cell(before, frame, value) is Uninitialized {
                fails_with(r, RuntimeErrorKind::UninitializedValue)
            } else {
                r matches Ok(Flow::Return(v)) && v == cell(before, frame, value)
            }
        },
        Operation::Constant { destination, constant } => {
            &&& r matches Ok(Flow::Continue)
            &&& match constants[constant as int] {
                Constant::Nil => sets(before, after, frame, destination, MiraValue::Nil),
                Constant::True => sets(before, after, frame, destination, MiraValue::Boolean(true)),
                Constant::False => sets(before, after, frame, destination, MiraValue::Boolean(false)),
                Constant::Float(bits) => sets(before, after, frame, destination, MiraValue::Number(bits)),
                Constant::Int(value) => exists|bits: u64|
                    num.ensures((NumOp::FromInt, value as u32 as u64, 0u64), bits) && sets(
                        before,
                        after,
                        frame,
                        destination,
                        MiraValue::Number(bits),
                    ),
                Constant::String(_) => false,
            }
        },
        Operation::Uninit { destination } => r matches Ok(Flow::Continue) && sets(
            before,
            after,
            frame,
            destination,
            MiraValue::Uninitialized,
        ),
        Operation::Unary { kind, destination, value } => {
            let v = cell(before, frame, value);
            if v is Uninitialized {
                same_frames(before, after) && fails_with(r, RuntimeErrorKind::UninitializedValue)
            } else {
                match kind {
                    UnaryOperation::Pos | UnaryOperation::Plus | UnaryOperation::ToNumber => match number_of(v) {
                        Some(bits) => r matches Ok(Flow::Continue) && sets(
                            before,
                            after,
                            frame,
                            destination,
                            MiraValue::Number(bits),
                        ),
                        None => same_frames(before, after) && fails_with(r, number_failure(v)),
                    },
                    UnaryOperation::Neg => match number_of(v) {
                        Some(bits) => r matches Ok(Flow::Continue) && exists|x: u64|
                            num.ensures((NumOp::Neg, bits, 0u64), x) && sets(
                                before,
                                after,
                                frame,
                                destination,
                                MiraValue::Number(x),
                            ),
                        None => same_frames(before, after) && fails_with(r, number_failure(v)),
                    },
                    UnaryOperation::Not | UnaryOperation::ToBoolean => match v {
                        MiraValue::Boolean(b) => r matches Ok(Flow::Continue) && sets(
                            before,
                            after,
                            frame,
                            destination,
                            MiraValue::Boolean(if kind is Not {
                                !b
                            } else {
                                b
                            }),
                        ),
                        _ => same_frames(before, after) && fails_with(
                            r,
                            RuntimeErrorKind::TypeMismatch { expected: "boolean", actual: v.spec_value_type() },
                        ),
                    },
                    UnaryOperation::IsBoolean => r matches Ok(Flow::Continue) && sets(
                        before,
                        after,
                        frame,
                        destination,
                        MiraValue::Boolean(v is Boolean),
                    ),
                    UnaryOperation::IsNumber => r matches Ok(Flow::Continue) && sets(
                        before,
                        after,
                        frame,
                        destination,
                        MiraValue::Boolean(v is Number),
                    ),
                    UnaryOperation::IsString | UnaryOperation::IsRecord | UnaryOperation::IsArray => r matches Ok(
                        Flow::Continue,
                    ) && sets(before, after, frame, destination, MiraValue::Boolean(false)),
                    UnaryOperation::Assign => r matches Ok(Flow::Continue) && sets(
                        before,
                        after,
                        frame,
                        destination,
                        v,
                    ),
                    _ => false,
                }
            }
        },
        Operation::Add { destination, left, right } => arithmetic_done(before, after, frame, NumOp::Add, destination, left, right, num, r),
        Operation::Sub { destination, left, right } => arithmetic_done(before, after, frame, NumOp::Sub, destination, left, right, num, r),
        Operation::Mul { destination, left, right } => arithmetic_done(before, after, frame, NumOp::Mul, destination, left, right, num, r),
        Operation::Div { destination, left, right } => arithmetic_done(before, after, frame, NumOp::Div, destination, left, right, num, r),
        Operation::Mod { destination, left, right } => arithmetic_done(before, after, frame, NumOp::Mod, destination, left, right, num, r),
        Operation::Pow { destination, left, right } => arithmetic_done(before, after, frame, NumOp::Pow, destination, left, right, num, r),
        Operation::Binary { kind, destination, left, right } => {
            let a = cell(before, frame, left);
            let b = cell(before, frame, right);
            if a is Uninitialized || b is Uninitialized {
                same_frames(before, after) && fails_with(r, RuntimeErrorKind::UninitializedValue)
            } else {
                match binary_result(kind, a, b, num) {
                    Ok(value) => r matches Ok(Flow::Continue) && sets(before, after, frame, destination, value),
                    Err(failure) => same_frames(before, after) && fails_with(r, failure),
                }
            }
        },
        Operation::GetGlobal { destination, slot } => match env[slot as int].1 {
            Some(value) => r matches Ok(Flow::Continue) && sets(before, after, frame, destination, value),
            None => same_frames(before, after) && fails_with(r, RuntimeErrorKind::UndefinedGlobal { name: env[slot as int].0 }),
        },
        Operation::Upvalue { kind, value, level, register } => match before.ancestor(frame, level as nat) {
            None => same_frames(before, after) && fails_with(r, RuntimeErrorKind::InvalidUpvalueLevel { level }),
            Some(owner) => {
                let moved = if kind is Get {
                    cell(before, owner, register)
                } else {
                    cell(before, frame, value)
                };
                if moved is Uninitialized {
                    same_frames(before, after) && fails_with(r, RuntimeErrorKind::UninitializedValue)
                } else if kind is Get {
                    r matches Ok(Flow::Continue) && sets(before, after, frame, value, moved)
                } else {
                    r matches Ok(Flow::Continue) && sets(before, after, owner, register, moved)
                }
            },
        },
        Operation::Swap { left, right } => {
            let a = cell(before, frame, left);
            let b = cell(before, frame, right);
            &&& r matches Ok(Flow::Continue)
            &&& after.wf()
            &&& after.active() == before.active()
            &&& exists|middle: FrameArena| sets(before, &middle, frame, left, b) && sets(&middle, after, frame, right, a)
        },
        Operation::Assert { kind, value } => {
            let v = cell(before, frame, value);
            &&& same_frames(before, after)
            &&& if v is Uninitialized {
                fails_with(r, RuntimeErrorKind::UninitializedValue)
            } else if kind is NonNil && v is Nil {
                fails_with(r, RuntimeErrorKind::ExpectedNonNil)
            } else {
                r matches Ok(Flow::Continue)
            }
        },
        _ => false,
    }
}

/// The number a register holds or converts to, for arithmetic.
fn read_number(frames: &FrameArena, frame: FrameId, register: RegisterId) -> (r: Result<u64>)
    requires
        frames.wf(),
        frame.0 <= frames.active(),
        frames.register_in_range(frame, register),
        is_scalar(cell(frames, frame, register)),
    ensures
        match number_of(cell(frames, frame, register)) {
            Some(bits) => r matches Ok(v) && v == bits,
            None => fails_with(r, number_failure(cell(frames, frame, register))),
        },
{
    let raw = frames.read_register_raw(frame, register);
    match raw.0 {
        MiraValue::Number(bits) => Ok(bits),
        MiraValue::Boolean(b) => Ok(if b { ONE_BITS } else { 0 }),
        MiraValue::Uninitialized => Err(MiraError::runtime(RuntimeErrorKind::UninitializedValue)),
        other => Err(MiraError::runtime(RuntimeErrorKind::TypeMismatch { expected: "number-convertible value", actual: other.value_type() })),
    }
}

/// Setting a register of an active frame to a scalar keeps every register a
/// scalar.
pub proof fn lemma_sets_scalar(before: &FrameArena, after: &FrameArena, frame: FrameId, register: RegisterId, value: MiraValue)
    requires
        sets(before, after, frame, register, value),
        before.register_in_range(frame, register),
        scalar_frames(before),
        is_scalar(value),
        frame.0 <= before.active(),
    ensures
        scalar_frames(after),
        after.frame(frame).registers@.len() == before.frame(frame).registers@.len(),
{
    assert forall|id: FrameId, i: int|
        id.0 <= after.active() && 0 <= i < after.frame(id).registers@.len() implies is_scalar(
            #[trigger] after.frame(id).registers@[i].0,
        ) by {
        if id == frame {
            if register.0 == 0 {
                assert(after.frame(id).registers@ == before.frame(id).registers@);
            } else {
                let cells = before.frame(id).registers@;
                assert(after.frame(id).registers@ == cells.update(register.0 - 1, MiraAny(value)));
                if i != register.0 - 1 {
                    assert(after.frame(id).registers@[i] == cells[i]);
                    assert(is_scalar(before.frame(id).registers@[i].0));
                }
            }
        } else {
            assert(after.frame(id) == before.frame(id));
        }
    }
}

/// The number a written scalar converts to.
fn number_value(value: MiraValue) -> (r: Result<u64>)
    requires
        is_scalar(value),
        !(value is Uninitialized),
    ensures
        match number_of(value) {
            Some(bits) => r matches Ok(v) && v == bits,
            None => fails_with(r, number_failure(value)),
        },
{
    match value {
        MiraValue::Number(bits) => Ok(bits),
        MiraValue::Boolean(b) => Ok(if b { ONE_BITS } else { 0 }),
        other => Err(MiraError::runtime(RuntimeErrorKind::TypeMismatch { expected: "number-convertible value", actual: other.value_type() })),
    }
}

/// The value of a binary operation on two written scalars.
fn binary_value<N: Fn(NumOp, u64, u64) -> u64>(kind: BinaryOperation, a: MiraValue, b: MiraValue, num: &N) -> (r: Result<MiraValue>)
    requires
        is_scalar(a),
        is_scalar(b),
        !(a is Uninitialized),
        !(b is Uninitialized),
        forall|op: NumOp, x: u64, y: u64| num.requires((op, x, y)),
        deterministic(*num),
    ensures
        match binary_result(kind, a, b, *num) {
            Ok(value) => r matches Ok(v) && v == value && is_scalar(v) && !(v is Uninitialized),
            Err(failure) => fails_with(r, failure),
        },
{
    match kind {
        BinaryOperation::And | BinaryOperation::Or => {
            let x = to_boolean(a)?;
            let y = to_boolean(b)?;
            Ok(MiraValue::Boolean(if matches!(kind, BinaryOperation::And) {
                x && y
            } else {
                x || y
            }))
        },
        BinaryOperation::In => Ok(MiraValue::Boolean(false)),
        BinaryOperation::Lt | BinaryOperation::Lte | BinaryOperation::Gt | BinaryOperation::Gte
        | BinaryOperation::Aeq | BinaryOperation::Naeq => {
            let x = number_value(a)?;
            let y = number_value(b)?;
            let (op, first, second) = match kind {
                BinaryOperation::Lt => (NumOp::Less, x, y),
                BinaryOperation::Lte => (NumOp::LessEqual, x, y),
                BinaryOperation::Gt => (NumOp::Less, y, x),
                BinaryOperation::Gte => (NumOp::LessEqual, y, x),
                _ => (NumOp::Approx, x, y),
            };
            let t = num(op, first, second);
            proof {
                assert(num.ensures((op, first, second), num_value(*num, op, first, second)));
            }
            Ok(MiraValue::Boolean(if matches!(kind, BinaryOperation::Naeq) {
                t == 0
            } else {
                t != 0
            }))
        },
        _ => {
            let negated = matches!(kind, BinaryOperation::Neq | BinaryOperation::Nsame);
            let same = match (a, b) {
                (MiraValue::Number(x), MiraValue::Number(y)) => {
                    let op = if matches!(kind, BinaryOperation::Eq | BinaryOperation::Neq) {
                        NumOp::Equal
                    } else {
                        NumOp::SameValue
                    };
                    let t = num(op, x, y);
                    proof {
                        assert(num.ensures((op, x, y), num_value(*num, op, x, y)));
                    }
                    t != 0
                },
                _ => a == b,
            };
            Ok(MiraValue::Boolean(same != negated))
        },
    }
}

/// Run one scalar operation or read of a scalar global in `frame`, the
/// program's global names by slot being `names`.
pub fn execute_op<N: Fn(NumOp, u64, u64) -> u64>(
    frames: &mut FrameArena,
    operation: &Operation,
    frame: FrameId,
    constants: &Vec<Constant>,
    names: &Vec<(String, Option<usize>)>,
    globals: &Globals,
    num: &N,
) -> (r: Result<Flow>)
    requires
        old(frames).wf(),
        globals.wf(),
        frame.0 <= old(frames).active(),
        scalar_frames(old(frames)),
        scalar_operation(*operation, constants@) || global_read(*operation, global_env(names@, globals)),
        registers_within(*operation, old(frames).frame(frame).registers@.len()),
        upvalue_in_range(old(frames), frame, *operation),
        forall|op: NumOp, a: u64, b: u64| num.requires((op, a, b)),
        deterministic(*num),
    ensures
        operation_done(old(frames), final(frames), frame, *operation, constants@, global_env(names@, globals), *num, r),
        keeps_frame(old(frames), final(frames), frame),
        returns_scalar(r),
        arena_view(final(frames)) == op_step(arena_view(old(frames)), frame, *operation, constants@, global_env(names@, globals), *num).0,
        outcome_of(r, op_step(arena_view(old(frames)), frame, *operation, constants@, global_env(names@, globals), *num).1),
{
    let ghost before = *frames;
    let r = execute_op_inner(frames, operation, frame, constants, names, globals, num);
    proof {
        lemma_operation_view(&before, frames, frame, *operation, constants@, global_env(names@, globals), *num, r);
    }
    r
}

fn execute_op_inner<N: Fn(NumOp, u64, u64) -> u64>(
    frames: &mut FrameArena,
    operation: &Operation,
    frame: FrameId,
    constants: &Vec<Constant>,
    names: &Vec<(String, Option<usize>)>,
    globals: &Globals,
    num: &N,
) -> (r: Result<Flow>)
    requires
        old(frames).wf(),
        globals.wf(),
        frame.0 <= old(frames).active(),
        scalar_frames(old(frames)),
        scalar_operation(*operation, constants@) || global_read(*operation, global_env(names@, globals)),
        registers_within(*operation, old(frames).frame(frame).registers@.len()),
        upvalue_in_range(old(frames), frame, *operation),
        forall|op: NumOp, a: u64, b: u64| num.requires((op, a, b)),
        deterministic(*num),
    ensures
        operation_done(old(frames), final(frames), frame, *operation, constants@, global_env(names@, globals), *num, r),
        keeps_frame(old(frames), final(frames), frame),
        returns_scalar(r),
{
    let ghost start = *frames;
    match operation {
        Operation::Noop => Ok(Flow::Continue),
        Operation::Break => Ok(Flow::Break),
        Operation::Continue => Ok(Flow::LoopContinue),
        Operation::Return { value } => {
            assert(operation_registers(*operation)[0] == *value);
            proof {
                if value.0 != 0 {
                    assert(is_scalar(frames.frame(frame).registers@[value.0 - 1].0));
                }
            }
            let v = frames.read_register(frame, *value)?;
            Ok(Flow::Return(v))
        },
        Operation::Constant { destination, constant } => {
            assert(operation_registers(*operation)[0] == *destination);
            let value = match &constants[*constant] {
                Constant::Nil => MiraValue::Nil,
                Constant::True => MiraValue::Boolean(true),
                Constant::False => MiraValue::Boolean(false),
                Constant::Float(bits) => MiraValue::Number(*bits),
                Constant::Int(value) => {
                    let bits = num(NumOp::FromInt, *value as u32 as u64, 0);
                    MiraValue::Number(bits)
                },
                Constant::String(_) => MiraValue::Nil,
            };
            frames.write_register(frame, *destination, value);
            proof {
                lemma_sets_scalar(&start, frames, frame, *destination, value);
                match constants@[*constant as int] {
                    Constant::Int(v) => {
                        assert(num.ensures((NumOp::FromInt, v as u32 as u64, 0u64), value->Number_0));
                        assert(sets(&start, frames, frame, *destination, MiraValue::Number(value->Number_0)));
                    },
                    _ => {},
                }
            }
            Ok(Flow::Continue)
        },
        Operation::Uninit { destination } => {
            assert(operation_registers(*operation)[0] == *destination);
            frames.clear_register(frame, *destination);
            proof {
                lemma_sets_scalar(&start, frames, frame, *destination, MiraValue::Uninitialized);
            }
            Ok(Flow::Continue)
        },
        Operation::Unary { kind, destination, value } => {
            assert(operation_registers(*operation)[0] == *destination);
            assert(operation_registers(*operation)[1] == *value);
            let v = frames.read_register(frame, *value)?;
            let ghost mut negated_input: u64 = 0;
            let result = match kind {
                UnaryOperation::Pos | UnaryOperation::Plus | UnaryOperation::ToNumber => MiraValue::Number(
                    read_number(frames, frame, *value)?,
                ),
                UnaryOperation::Neg => {
                    let bits = read_number(frames, frame, *value)?;
                    let negated = num(NumOp::Neg, bits, 0);
                    proof {
                        negated_input = bits;
                    }
                    MiraValue::Number(negated)
                },
                UnaryOperation::Not => MiraValue::Boolean(!to_boolean(v)?),
                UnaryOperation::ToBoolean => MiraValue::Boolean(to_boolean(v)?),
                UnaryOperation::IsBoolean => MiraValue::Boolean(matches!(v, MiraValue::Boolean(_))),
                UnaryOperation::IsNumber => MiraValue::Boolean(matches!(v, MiraValue::Number(_))),
                UnaryOperation::IsString => MiraValue::Boolean(v.is_string()),
                UnaryOperation::IsRecord => MiraValue::Boolean(matches!(v, MiraValue::Record(_))),
                UnaryOperation::IsArray => MiraValue::Boolean(matches!(v, MiraValue::Array(_))),
                _ => v,
            };
            frames.write_register(frame, *destination, result);
            proof {
                lemma_sets_scalar(&start, frames, frame, *destination, result);
                if *kind == UnaryOperation::Neg {
                    assert(num.ensures((NumOp::Neg, negated_input, 0u64), result->Number_0));
                    assert(sets(&start, frames, frame, *destination, MiraValue::Number(result->Number_0)));
                }
            }
            assert(operation_done(&start, frames, frame, *operation, constants@, global_env(names@, globals), *num, Ok(Flow::Continue)));
            Ok(Flow::Continue)
        },
        Operation::Add { destination, left, right }
        | Operation::Sub { destination, left, right }
        | Operation::Mul { destination, left, right }
        | Operation::Div { destination, left, right }
        | Operation::Mod { destination, left, right }
        | Operation::Pow { destination, left, right } => {
            assert(operation_registers(*operation)[0] == *destination);
            assert(operation_registers(*operation)[1] == *left);
            assert(operation_registers(*operation)[2] == *right);
            let x = read_number(frames, frame, *left)?;
            let y = read_number(frames, frame, *right)?;
            let kind = match operation {
                Operation::Add { .. } => NumOp::Add,
                Operation::Sub { .. } => NumOp::Sub,
                Operation::Mul { .. } => NumOp::Mul,
                Operation::Div { .. } => NumOp::Div,
                Operation::Mod { .. } => NumOp::Mod,
                _ => NumOp::Pow,
            };
            let z = num(kind, x, y);
            frames.write_register(frame, *destination, MiraValue::Number(z));
            proof {
                lemma_sets_scalar(&start, frames, frame, *destination, MiraValue::Number(z));
                assert(kind == arithmetic_kind(*operation));
                assert(num.ensures((arithmetic_kind(*operation), x, y), z));
                assert(sets(&start, frames, frame, *destination, MiraValue::Number(z)));
            }
            Ok(Flow::Continue)
        },
        Operation::Binary { kind, destination, left, right } => {
            assert(operation_registers(*operation)[0] == *destination);
            assert(operation_registers(*operation)[1] == *left);
            assert(operation_registers(*operation)[2] == *right);
            proof {
                if left.0 != 0 {
                    assert(is_scalar(frames.frame(frame).registers@[left.0 - 1].0));
                }
                if right.0 != 0 {
                    assert(is_scalar(frames.frame(frame).registers@[right.0 - 1].0));
                }
            }
            let a = frames.read_register(frame, *left)?;
            let b = frames.read_register(frame, *right)?;
            let value = match binary_value(*kind, a, b, num) {
                Ok(value) => value,
                Err(e) => {
                    return Err(e);
                },
            };
            frames.write_register(frame, *destination, value);
            proof {
                lemma_sets_scalar(&start, frames, frame, *destination, value);
            }
            assert(operation_done(&start, frames, frame, *operation, constants@, global_env(names@, globals), *num, Ok(Flow::Continue)));
            Ok(Flow::Continue)
        },
        Operation::Swap { left, right } => {
            assert(operation_registers(*operation)[0] == *left);
            assert(operation_registers(*operation)[1] == *right);
            let a = frames.read_register_raw(frame, *left);
            let b = frames.read_register_raw(frame, *right);
            let ghost before = *frames;
            frames.write_register_raw(frame, *left, b);
            let ghost middle = *frames;
            frames.write_register_raw(frame, *right, a);
            proof {
                assert(sets(&before, &middle, frame, *left, cell(&before, frame, *right)));
                assert(sets(&middle, frames, frame, *right, cell(&before, frame, *left)));
                lemma_sets_scalar(&before, &middle, frame, *left, cell(&before, frame, *right));
                lemma_sets_scalar(&middle, frames, frame, *right, cell(&before, frame, *left));
                assert(exists|m: FrameArena| sets(&before, &m, frame, *left, cell(&before, frame, *right)) && sets(&m, frames, frame, *right, cell(&before, frame, *left)));
            }
            Ok(Flow::Continue)
        },
        Operation::GetGlobal { destination, slot } => {
            assert(operation_registers(*operation)[0] == *destination);
            let name = &names[*slot].0;
            match globals.get(name.as_str()) {
                Some(value) => {
                    frames.write_register(frame, *destination, value);
                    proof {
                        lemma_sets_scalar(&start, frames, frame, *destination, value);
                    }
                    Ok(Flow::Continue)
                },
                None => Err(MiraError::runtime(RuntimeErrorKind::UndefinedGlobal { name: name.clone() })),
            }
        },
        Operation::Upvalue { kind, value, level, register } => {
            assert(operation_registers(*operation)[0] == *value);
            proof {
                lemma_ancestor_active(frames, frame, *level as nat);
            }
            let owner = frames.parent_frame(frame, *level)?;
            let moved = match kind {
                UpvalueOperation::Get => frames.read_register_raw(owner, *register).0,
                UpvalueOperation::Put => frames.read_register_raw(frame, *value).0,
            };
            proof {
                if kind is Get && register.0 != 0 {
                    assert(is_scalar(frames.frame(owner).registers@[register.0 - 1].0));
                }
                if kind is Put && value.0 != 0 {
                    assert(is_scalar(frames.frame(frame).registers@[value.0 - 1].0));
                }
            }
            if moved.is_uninitialized() {
                return Err(MiraError::runtime(RuntimeErrorKind::UninitializedValue));
            }
            match kind {
                UpvalueOperation::Get => {
                    frames.write_register(frame, *value, moved);
                    proof {
                        lemma_sets_scalar(&start, frames, frame, *value, moved);
                    }
                },
                UpvalueOperation::Put => {
                    frames.write_register(owner, *register, moved);
                    proof {
                        lemma_sets_scalar(&start, frames, owner, *register, moved);
                    }
                },
            }
            Ok(Flow::Continue)
        },
        Operation::Assert { kind, value } => {
            assert(operation_registers(*operation)[0] == *value);
            match kind {
                AssertOperation::Initialized => {
                    if frames.read_register_raw(frame, *value).0.is_uninitialized() {
                        return Err(MiraError::runtime(RuntimeErrorKind::UninitializedValue));
                    }
                },
                AssertOperation::NonNil => {
                    assert_non_nil(frames.read_register(frame, *value)?)?;
                },
            }
            Ok(Flow::Continue)
        },
        _ => Ok(Flow::Continue),
    }
}

/// Whether a returned value is a written scalar.
pub open spec fn returns_scalar(r: Result<Flow>) -> bool {
    r matches Ok(Flow::Return(v)) ==> is_scalar(v) && !(v is Uninitialized)
}

/// What running code in `frame` keeps: the arena is well formed and holds
/// scalars, and every active frame keeps its parent and its registers.
pub open spec fn keeps_frame(before: &FrameArena, after: &FrameArena, frame: FrameId) -> bool {
    &&& after.wf()
    &&& scalar_frames(after)
    &&& shape_kept(before, after)
}

/// Whether the registers an instruction names fit the scopes it is nested
/// in, of the given register counts, innermost last: those of the
/// operations this runtime runs (upvalues reaching into an enclosing
/// scope), of conditionals and of loop bounds, and those of nested bodies,
/// a loop body in a scope of its own. Other instructions are reached only
/// to stop there.
pub open spec fn scalar_instruction(ins: Instruction, constants: Seq<Constant>, scopes: Seq<usize>) -> bool
    decreases ins,
{
    match ins.kind {
        InstructionKind::Op(op) => scalar_operation(op, constants) || op is GetGlobal ==> {
            &&& registers_within(op, scopes.last() as nat)
            &&& upvalue_fits(op, scopes)
        },
        InstructionKind::If { register, then_body, else_body, .. } => {
            &&& register.0 <= scopes.last()
            &&& scalar_body(then_body@, constants, scopes)
            &&& scalar_body(else_body@, constants, scopes)
        },
        InstructionKind::Loop { register_count, kind, body, .. } => {
            &&& match kind {
                LoopKind::Infinite => true,
                LoopKind::Range { start, end, .. } => start.0 <= scopes.last() && end.0 <= scopes.last(),
                LoopKind::Iterable { .. } => true,
            }
            &&& scalar_body(body@, constants, scopes.push(register_count))
        },
        _ => true,
    }
}

/// Whether the registers of every instruction of a body fit its scopes.
pub open spec fn scalar_body(body: Seq<Instruction>, constants: Seq<Constant>, scopes: Seq<usize>) -> bool
    decreases body,
{
    forall|i: int| 0 <= i < body.len() ==> scalar_instruction(#[trigger] body[i], constants, scopes)
}

/// Whether the test of a conditional holds of a register's value, or the
/// failure it raises.
pub open spec fn condition_result(condition: Condition, value: MiraValue) -> core::result::Result<bool, RuntimeErrorKind> {
    match condition {
        Condition::Truthy | Condition::Falsy => match value {
            MiraValue::Uninitialized => Err(RuntimeErrorKind::UninitializedValue),
            MiraValue::Boolean(b) => Ok(if condition is Truthy {
                b
            } else {
                !b
            }),
            _ => Err(RuntimeErrorKind::TypeMismatch { expected: "boolean", actual: value.spec_value_type() }),
        },
        Condition::Initialized => Ok(!(value is Uninitialized)),
        Condition::Uninitialized => Ok(value is Uninitialized),
        Condition::Nil => Ok(value is Nil),
        Condition::NonNil => Ok(!(value is Nil)),
    }
}

/// What every runner promises of the arena: it stays well formed and holds
/// scalars, every active frame keeps its parent and registers, and at most
/// one frame is added per loop iteration run.
pub open spec fn ran_in(before: &FrameArena, after: &FrameArena, frame: FrameId, fuel: nat, rest: nat) -> bool {
    &&& keeps_frame(before, after, frame)
    &&& rest <= fuel
    &&& after.active() <= before.active() + (fuel - rest)
}

/// A cleared frame, handed out with every other active frame left alone,
/// keeps every register a scalar.
pub proof fn lemma_loop_frame_scalar(before: &FrameArena, after: &FrameArena, frame: FrameId)
    requires
        scalar_frames(before),
        crate::register::all_cells(after.frame(frame).registers@, MiraValue::Uninitialized),
        forall|id: FrameId| id.0 <= before.active() && id != frame ==> #[trigger] after.frame(id) == before.frame(id),
        after.active() <= before.active() + 1,
        after.active() > before.active() ==> frame.0 == after.active(),
    ensures
        scalar_frames(after),
{
    assert forall|id: FrameId, i: int|
        id.0 <= after.active() && 0 <= i < after.frame(id).registers@.len() implies is_scalar(
            #[trigger] after.frame(id).registers@[i].0,
        ) by {
        if id != frame {
            assert(id.0 <= before.active());
            assert(after.frame(id) == before.frame(id));
        }
    }
}

/// Whether a runner's result is the outcome of a run: both stop at an
/// operation outside this runtime (`None`), or the result is the outcome.
pub open spec fn run_outcome_of(
    r: Option<Result<Flow>>,
    o: Option<core::result::Result<Flow, RuntimeErrorKind>>,
) -> bool {
    match (r, o) {
        (None, None) => true,
        (Some(result), Some(outcome)) => outcome_of(result, outcome),
        _ => false,
    }
}

/// Whether a runner's result that returns a value returns a written scalar.
pub open spec fn returns_scalar_run(r: Option<Result<Flow>>) -> bool {
    r matches Some(result) ==> returns_scalar(result)
}

/// Run the instructions of `body` in `frame` until one does not go on; its
/// result, or going on, is the body's; `None` when an instruction outside
/// this runtime is reached. `fuel` bounds the loop iterations run, and the
/// iterations left are returned.
pub fn execute_block<N: Fn(NumOp, u64, u64) -> u64>(
    frames: &mut FrameArena,
    body: &Vec<Instruction>,
    frame: FrameId,
    constants: &Vec<Constant>,
    names: &Vec<(String, Option<usize>)>,
    globals: &Globals,
    fuel: u64,
    num: &N,
    Ghost(scopes): Ghost<Seq<usize>>,
) -> (r: (Option<Result<Flow>>, u64))
    requires
        old(frames).wf(),
        globals.wf(),
        frame.0 <= old(frames).active(),
        old(frames).active() + fuel < usize::MAX,
        scalar_frames(old(frames)),
        frames_fit(old(frames), frame, scopes),
        scalar_body(body@, constants@, scopes),
        forall|op: NumOp, a: u64, b: u64| num.requires((op, a, b)),
        deterministic(*num),
    ensures
        ran_in(old(frames), final(frames), frame, fuel as nat, r.1 as nat),
        returns_scalar_run(r.0),
        ({
            let s = block_run(arena_view(old(frames)), frame, body@, constants@, global_env(names@, globals), *num, fuel as nat);
            arena_view(final(frames)) == s.0 && r.1 == s.1 && run_outcome_of(r.0, s.2)
        }),
    decreases fuel, body@, 2int,
{
    let ghost start = *frames;
    let mut left = fuel;
    let mut index: usize = 0;
    while index < body.len()
        invariant
            start == *old(frames),
            index <= body@.len(),
            frame.0 <= start.active(),
            start.active() + fuel < usize::MAX,
            ran_in(&start, frames, frame, fuel as nat, left as nat),
            frames_fit(&start, frame, scopes),
            scalar_body(body@, constants@, scopes),
            globals.wf(),
            forall|op: NumOp, a: u64, b: u64| num.requires((op, a, b)),
            deterministic(*num),
            index == 0 ==> *frames == start && left == fuel,
            ({
                let s = block_run(arena_view(&start), frame, body@.take(index as int), constants@, global_env(names@, globals), *num, fuel as nat);
                arena_view(frames) == s.0 && left == s.1 && s.2 == Some(Ok::<Flow, RuntimeErrorKind>(Flow::Continue))
            }),
        decreases body@.len() - index,
    {
        assert(scalar_instruction(body@[index as int], constants@, scopes));
        proof {
            lemma_fits_kept(&start, frames, frame, scopes);
        }
        let ghost middle = *frames;
        let (result, rest) = execute_instruction(frames, &body[index], frame, constants, names, globals, left, num, Ghost(scopes));
        proof {
            lemma_shape_trans(&start, &middle, frames);
            let t = body@.take(index as int + 1);
            assert(t.subrange(0, index as int) =~= body@.take(index as int));
            assert(t[index as int] == body@[index as int]);
        }
        match result {
            Some(Ok(Flow::Continue)) => {},
            _ => {
                proof {
                    lemma_block_stops(arena_view(&start), frame, body@, constants@, global_env(names@, globals), *num, fuel as nat, index as int + 1, body@.len() as int);
                    assert(body@.take(body@.len() as int) =~= body@);
                }
                return (result, rest);
            },
        }
        left = rest;
        index = index + 1;
    }
    proof {
        assert(body@.take(body@.len() as int) =~= body@);
    }
    (Some(Ok(Flow::Continue)), left)
}

/// Run one instruction in `frame`; `None` when it is outside this runtime.
pub fn execute_instruction<N: Fn(NumOp, u64, u64) -> u64>(
    frames: &mut FrameArena,
    instruction: &Instruction,
    frame: FrameId,
    constants: &Vec<Constant>,
    names: &Vec<(String, Option<usize>)>,
    globals: &Globals,
    fuel: u64,
    num: &N,
    Ghost(scopes): Ghost<Seq<usize>>,
) -> (r: (Option<Result<Flow>>, u64))
    requires
        old(frames).wf(),
        globals.wf(),
        frame.0 <= old(frames).active(),
        old(frames).active() + fuel < usize::MAX,
        scalar_frames(old(frames)),
        frames_fit(old(frames), frame, scopes),
        scalar_instruction(*instruction, constants@, scopes),
        forall|op: NumOp, a: u64, b: u64| num.requires((op, a, b)),
        deterministic(*num),
    ensures
        ran_in(old(frames), final(frames), frame, fuel as nat, r.1 as nat),
        returns_scalar_run(r.0),
        ({
            let s = instruction_run(arena_view(old(frames)), frame, *instruction, constants@, global_env(names@, globals), *num, fuel as nat);
            arena_view(final(frames)) == s.0 && r.1 == s.1 && run_outcome_of(r.0, s.2)
        }),
    decreases fuel, *instruction, 1int,
{
    proof {
        lemma_shape_refl(frames);
    }
    match &instruction.kind {
        InstructionKind::Op(operation) => {
            if !supported_operation(operation, constants) && !global_readable(operation, names, globals) {
                return (None, fuel);
            }
            proof {
                lemma_fits_operation(frames, frame, scopes, *operation);
            }
            let result = execute_op(frames, operation, frame, constants, names, globals, num);
            (Some(result), fuel)
        },
        InstructionKind::If { condition, register, then_body, else_body } => {
            proof {
                lemma_cell_view(frames, frame, *register);
                lemma_fits_limit(frames, frame, scopes);
            }
            let raw = frames.read_register_raw(frame, *register).0;
            let holds = match condition {
                Condition::Truthy | Condition::Falsy => {
                    if raw.is_uninitialized() {
                        return (Some(Err(MiraError::runtime(RuntimeErrorKind::UninitializedValue))), fuel);
                    }
                    let b = match to_boolean(raw) {
                        Ok(b) => b,
                        Err(e) => {
                            return (Some(Err(e)), fuel);
                        },
                    };
                    if matches!(condition, Condition::Truthy) {
                        b
                    } else {
                        !b
                    }
                },
                Condition::Initialized => !raw.is_uninitialized(),
                Condition::Uninitialized => raw.is_uninitialized(),
                Condition::Nil => raw.is_nil(),
                Condition::NonNil => !raw.is_nil(),
            };
            if holds {
                execute_block(frames, then_body, frame, constants, names, globals, fuel, num, Ghost(scopes))
            } else {
                execute_block(frames, else_body, frame, constants, names, globals, fuel, num, Ghost(scopes))
            }
        },
        InstructionKind::Loop { .. } => execute_loop(frames, instruction, frame, constants, names, globals, fuel, num, Ghost(scopes)),
        _ => (None, fuel),
    }
}

/// The test of a numeric-range loop: whether the value is below the end
/// (or up to it, for an inclusive range).
pub open spec fn range_test(exclusive: bool) -> NumOp {
    if exclusive {
        NumOp::Less
    } else {
        NumOp::LessEqual
    }
}

/// Run a loop instruction whose frame's parent is `parent`: an infinite
/// loop, or one over the numbers from the start register's up to the end
/// register's, stepping by one. Each iteration runs the body in a cleared
/// frame (the same one each time when the loop may reuse it) and uses one
/// unit of `fuel`; with none left the run times out. Leaving the loop goes
/// on after it; a return is passed on. A loop over an iterable value is
/// outside this runtime (`None`).
pub fn execute_loop<N: Fn(NumOp, u64, u64) -> u64>(
    frames: &mut FrameArena,
    instruction: &Instruction,
    parent: FrameId,
    constants: &Vec<Constant>,
    names: &Vec<(String, Option<usize>)>,
    globals: &Globals,
    fuel: u64,
    num: &N,
    Ghost(scopes): Ghost<Seq<usize>>,
) -> (r: (Option<Result<Flow>>, u64))
    requires
        old(frames).wf(),
        globals.wf(),
        parent.0 <= old(frames).active(),
        old(frames).active() + fuel < usize::MAX,
        scalar_frames(old(frames)),
        instruction.kind is Loop,
        frames_fit(old(frames), parent, scopes),
        scalar_instruction(*instruction, constants@, scopes),
        forall|op: NumOp, a: u64, b: u64| num.requires((op, a, b)),
        deterministic(*num),
    ensures
        ran_in(old(frames), final(frames), parent, fuel as nat, r.1 as nat),
        returns_scalar_run(r.0),
        ({
            let s = instruction_run(arena_view(old(frames)), parent, *instruction, constants@, global_env(names@, globals), *num, fuel as nat);
            arena_view(final(frames)) == s.0 && r.1 == s.1 && run_outcome_of(r.0, s.2)
        }),
    decreases fuel, *instruction, 0int,
{
    proof {
        lemma_shape_refl(frames);
    }
    let (register_count, kind, body, reuse_frame) = match &instruction.kind {
        InstructionKind::Loop { register_count, kind, body, reuse_frame } => (*register_count, kind, body, *reuse_frame),
        _ => {
            return (None, fuel);
        },
    };
    let ghost start = *frames;
    let mut range: Option<(u64, u64, bool)> = match kind {
        LoopKind::Range { start: first, end, exclusive } => {
            proof {
                lemma_cell_view(frames, parent, *first);
                lemma_cell_view(frames, parent, *end);
                lemma_fits_limit(frames, parent, scopes);
            }
            let from = match read_number(frames, parent, *first) {
                Ok(bits) => bits,
                Err(e) => {
                    return (Some(Err(e)), fuel);
                },
            };
            let to = match read_number(frames, parent, *end) {
                Ok(bits) => bits,
                Err(e) => {
                    return (Some(Err(e)), fuel);
                },
            };
            Some((from, to, *exclusive))
        },
        LoopKind::Infinite => None,
        LoopKind::Iterable { .. } => {
            return (None, fuel);
        },
    };
    let mut reusable: Option<FrameId> = None;
    let mut left = fuel;
    loop
        invariant
            start == *old(frames),
            parent.0 <= start.active(),
            start.active() + fuel < usize::MAX,
            ran_in(&start, frames, parent, fuel as nat, left as nat),
            frames_fit(&start, parent, scopes),
            scalar_body(body@, constants@, scopes.push(register_count)),
            globals.wf(),
            forall|op: NumOp, a: u64, b: u64| num.requires((op, a, b)),
            deterministic(*num),
            reusable matches Some(id) ==> start.active() < id.0 <= frames.active() && frames.frame(id).registers@.len()
                == register_capacity(register_count) && frames.frame(id).parent == Some(parent),
            loop_run(arena_view(frames), parent, register_count, body@, reuse_frame, reusable, range, constants@, global_env(names@, globals), *num, left as nat)
                == instruction_run(arena_view(&start), parent, *instruction, constants@, global_env(names@, globals), *num, fuel as nat),
        decreases left,
    {
        let ghost v0 = arena_view(frames);
        let ghost reusable0 = reusable;
        let ghost range0 = range;
        let ghost left0 = left;
        match range {
            Some((value, end, exclusive)) => {
                let test = if exclusive {
                    num(NumOp::Less, value, end)
                } else {
                    num(NumOp::LessEqual, value, end)
                };
                proof {
                    assert(num.ensures((range_test(exclusive), value, end), test));
                    lemma_num_value(*num, range_test(exclusive), value, end, test);
                }
                if test == 0 {
                    return (Some(Ok(Flow::Continue)), left);
                }
            },
            None => {},
        }
        if left == 0 {
            return (Some(Err(MiraError::runtime(RuntimeErrorKind::Timeout))), left);
        }
        let ghost before = *frames;
        proof {
            lemma_fits_kept(&start, frames, parent, scopes);
        }
        let frame = frames.loop_frame(register_count, parent, reuse_frame, &mut reusable);
        proof {
            lemma_loop_frame_scalar(&before, frames, frame);
            lemma_loop_frame_view(&before, frames, parent, register_count, reusable0, frame);
            assert forall|id: FrameId| id.0 <= before.active() implies (#[trigger] frames.frame(id)).parent
                == before.frame(id).parent && frames.frame(id).registers@.len() == before.frame(id).registers@.len() by {
                if id != frame {
                    assert(frames.frame(id) == before.frame(id));
                }
            }
            assert(shape_kept(&before, frames));
            lemma_shape_trans(&start, &before, frames);
            lemma_fits_kept(&before, frames, parent, scopes);
            lemma_fits_loop(frames, parent, frame, scopes, register_count);
        }
        let ghost framed = *frames;
        match range {
            Some((value, _, _)) => {
                frames.write_register(frame, RegisterId(1), MiraValue::Number(value));
                proof {
                    lemma_sets_scalar(&framed, frames, frame, RegisterId(1), MiraValue::Number(value));
                    lemma_sets_view(&framed, frames, frame, RegisterId(1), MiraValue::Number(value));
                }
            },
            None => {},
        }
        proof {
            lemma_shape_refl(frames);
            lemma_fits_kept(&framed, frames, frame, scopes.push(register_count));
            lemma_shape_trans(&start, &framed, frames);
        }
        let ghost seeded = *frames;
        let (result, rest) = execute_block(frames, body, frame, constants, names, globals, left - 1, num, Ghost(scopes.push(register_count)));
        proof {
            lemma_shape_trans(&start, &seeded, frames);
        }
        left = rest;
        match result {
            Some(Ok(Flow::Continue)) | Some(Ok(Flow::LoopContinue)) => {},
            Some(Ok(Flow::Break)) => {
                return (Some(Ok(Flow::Continue)), left);
            },
            _ => {
                return (result, left);
            },
        }
        match range {
            Some((value, end, exclusive)) => {
                let next = num(NumOp::Increment, value, 0);
                proof {
                    lemma_num_value(*num, NumOp::Increment, value, 0, next);
                }
                range = Some((next, end, exclusive));
            },
            None => {},
        }
    }
}

/// Whether an operation is one this runtime runs.
fn supported_operation(op: &Operation, constants: &Vec<Constant>) -> (r: bool)
    ensures
        r == scalar_operation(*op, constants@),
{
    match op {
        Operation::Noop | Operation::Break | Operation::Continue | Operation::Return { .. }
        | Operation::Uninit { .. } | Operation::Add { .. } | Operation::Sub { .. } | Operation::Mul { .. }
        | Operation::Div { .. } | Operation::Mod { .. } | Operation::Pow { .. } | Operation::Swap { .. }
        | Operation::Assert { .. } | Operation::Binary { .. } | Operation::Upvalue { .. } => true,
        Operation::Constant { constant, .. } => *constant < constants.len() && !matches!(
            constants[*constant],
            Constant::String(_)
        ),
        Operation::Unary { kind, .. } => !matches!(
            kind,
            UnaryOperation::Type | UnaryOperation::ToString | UnaryOperation::Length
        ),
        _ => false,
    }
}

/// Whether an operation reads a global this runtime holds.
fn global_readable(op: &Operation, names: &Vec<(String, Option<usize>)>, globals: &Globals) -> (r: bool)
    requires
        globals.wf(),
    ensures
        r == global_read(*op, global_env(names@, globals)),
{
    match op {
        Operation::GetGlobal { slot, .. } => {
            if *slot >= names.len() {
                return false;
            }
            match globals.get(names[*slot].0.as_str()) {
                Some(value) => match value {
                    MiraValue::Uninitialized | MiraValue::Nil | MiraValue::Boolean(_) | MiraValue::Number(_) => true,
                    _ => false,
                },
                None => true,
            }
        },
        _ => false,
    }
}

/// Whether the registers an operation names fit `scopes`, when it is one
/// this runtime runs or a global read.
fn check_operation(op: &Operation, constants: &Vec<Constant>, scopes: &Vec<usize>) -> (r: bool)
    requires
        scopes@.len() > 0,
    ensures
        r == (scalar_operation(*op, constants@) || *op is GetGlobal ==> registers_within(*op, scopes@.last() as nat) && upvalue_fits(
            *op,
            scopes@,
        )),
{
    let limit = scopes[scopes.len() - 1];
    if !supported_operation(op, constants) && !matches!(op, Operation::GetGlobal { .. }) {
        return true;
    }
    let fits = match op {
        Operation::Upvalue { level, register, .. } => *level < scopes.len() && register.0 <= scopes[scopes.len() - 1 - *level],
        _ => true,
    };
    if !fits {
        return false;
    }
    let within = match op {
        Operation::Return { value } => value.0 <= limit,
        Operation::Constant { destination, .. } | Operation::Uninit { destination } => destination.0 <= limit,
        Operation::Unary { destination, value, .. } => destination.0 <= limit && value.0 <= limit,
        Operation::Add { destination, left, right }
        | Operation::Sub { destination, left, right }
        | Operation::Mul { destination, left, right }
        | Operation::Div { destination, left, right }
        | Operation::Mod { destination, left, right }
        | Operation::Pow { destination, left, right }
        | Operation::Binary { destination, left, right, .. } => destination.0 <= limit && left.0 <= limit
            && right.0 <= limit,
        Operation::Swap { left, right } => left.0 <= limit && right.0 <= limit,
        Operation::Assert { value, .. } | Operation::Upvalue { value, .. } => value.0 <= limit,
        Operation::GetGlobal { destination, .. } => destination.0 <= limit,
        _ => true,
    };
    proof {
        let regs = operation_registers(*op);
        if within {
            assert forall|i: int| 0 <= i < regs.len() implies #[trigger] regs[i].0 <= limit by {
                assert(regs.len() <= 3);
                if regs.len() > 0 {
                    assert(regs[0].0 <= limit);
                }
            }
        } else {
            assert(!registers_within(*op, limit as nat)) by {
                assert(regs.len() > 0);
                if regs.len() == 1 {
                    assert(regs[0].0 > limit);
                }
            }
        }
    }
    within
}

/// Whether the registers of every instruction of a body fit `scopes`.
fn check_block(body: &Vec<Instruction>, constants: &Vec<Constant>, scopes: &mut Vec<usize>) -> (r: bool)
    requires
        old(scopes)@.len() > 0,
    ensures
        final(scopes)@ == old(scopes)@,
        r == scalar_body(body@, constants@, old(scopes)@),
    decreases body@,
{
    let mut index: usize = 0;
    while index < body.len()
        invariant
            index <= body@.len(),
            scopes@ == old(scopes)@,
            scopes@.len() > 0,
            forall|i: int| 0 <= i < index ==> scalar_instruction(#[trigger] body@[i], constants@, scopes@),
        decreases body@.len() - index,
    {
        if !check_instruction(&body[index], constants, scopes) {
            return false;
        }
        index = index + 1;
    }
    true
}

/// Whether the registers of every instruction of a body fit a function
/// frame of `limit` registers.
pub fn check_body(body: &Vec<Instruction>, constants: &Vec<Constant>, limit: usize) -> (r: bool)
    ensures
        r == scalar_body(body@, constants@, seq![limit]),
{
    let mut scopes = vec![limit];
    proof {
        assert(scopes@ =~= seq![limit]);
    }
    check_block(body, constants, &mut scopes)
}

/// Whether the registers of an instruction fit `scopes`.
pub fn check_instruction(ins: &Instruction, constants: &Vec<Constant>, scopes: &mut Vec<usize>) -> (r: bool)
    requires
        old(scopes)@.len() > 0,
    ensures
        final(scopes)@ == old(scopes)@,
        r == scalar_instruction(*ins, constants@, old(scopes)@),
    decreases *ins,
{
    let limit = scopes[scopes.len() - 1];
    match &ins.kind {
        InstructionKind::Op(op) => check_operation(op, constants, scopes),
        InstructionKind::If { register, then_body, else_body, .. } => register.0 <= limit && check_block(
            then_body,
            constants,
            scopes,
        ) && check_block(else_body, constants, scopes),
        InstructionKind::Loop { register_count, kind, body, .. } => {
            let reads = match kind {
                LoopKind::Infinite => true,
                LoopKind::Range { start, end, .. } => start.0 <= limit && end.0 <= limit,
                LoopKind::Iterable { .. } => true,
            };
            if !reads {
                return false;
            }
            scopes.push(*register_count);
            let inner = check_block(body, constants, scopes);
            scopes.pop();
            proof {
                assert(scopes@ =~= old(scopes)@);
            }
            inner
        },
        _ => true,
    }
}

/// What running a program's root function gives, by the outcome of its
/// body in a fresh run with `fuel` loop iterations allowed: a return gives
/// its value, running off the end gives nil, leaving or restarting a loop
/// outside any loop is a control-flow failure, and a failure is passed on;
/// `None` when the run reaches an instruction outside this runtime.
pub open spec fn run_result_ok<N: Fn(NumOp, u64, u64) -> u64>(
    program: Program,
    globals: &Globals,
    num: N,
    fuel: nat,
    r: Option<Result<MiraValue>>,
) -> bool {
    match block_run(
        fresh_view(program.root.register_count),
        FrameId(0),
        program.root.body@,
        program.constants@,
        global_env(program.global_names@, globals),
        num,
        fuel,
    ).2 {
        None => r is None,
        Some(Ok(Flow::Return(v))) => r matches Some(Ok(x)) && x == v,
        Some(Ok(Flow::Continue)) => r matches Some(Ok(x)) && x == MiraValue::Nil,
        Some(Ok(_)) => r matches Some(result) && fails_with(result, RuntimeErrorKind::InvalidControlFlow { context: "root" }),
        Some(Err(kind)) => r matches Some(result) && fails_with(result, kind),
    }
}

/// Run a program's root function: a fresh run of `frames`, the root body
/// run in the root frame, globals read from `globals`. A return gives its
/// value and running off the end gives nil; leaving or restarting a loop
/// outside any loop is a control-flow failure. `fuel` bounds the loop
/// iterations run.
pub fn run<N: Fn(NumOp, u64, u64) -> u64>(
    program: &Program,
    globals: &Globals,
    frames: &mut FrameArena,
    fuel: u64,
    num: &N,
) -> (r: Option<Result<MiraValue>>)
    requires
        old(frames).wf(),
        globals.wf(),
        fuel < usize::MAX,
        scalar_body(program.root.body@, program.constants@, seq![program.root.register_count]),
        forall|op: NumOp, a: u64, b: u64| num.requires((op, a, b)),
        deterministic(*num),
    ensures
        final(frames).wf(),
        r matches Some(Ok(v)) ==> is_scalar(v) && !(v is Uninitialized),
        program.root.body@.len() == 0 ==> (r matches Some(Ok(v)) && v == MiraValue::Nil),
        run_result_ok(*program, globals, *num, fuel as nat, r),
{
    frames.begin_run(program.root.register_count);
    proof {
        let count = program.root.register_count;
        assert(frames.frame(FrameId(0)).registers@ =~= cleared(register_capacity(count)));
        assert(arena_view(frames) =~= fresh_view(count));
    }
    proof {
        assert forall|id: FrameId, i: int|
            id.0 <= frames.active() && 0 <= i < frames.frame(id).registers@.len() implies is_scalar(
                #[trigger] frames.frame(id).registers@[i].0,
            ) by {
            assert(id.0 == 0);
            assert(id == FrameId(0));
        }
        let scopes = seq![program.root.register_count];
        assert(ancestor_fits(frames, FrameId(0), scopes, 0));
        assert forall|k: nat| k < scopes.len() implies #[trigger] ancestor_fits(frames, FrameId(0), scopes, k) by {
            assert(k == 0);
        }
    }
    let ghost root_scopes = seq![program.root.register_count];
    let (result, _) = execute_block(
        frames,
        &program.root.body,
        FrameId(0),
        &program.constants,
        &program.global_names,
        globals,
        fuel,
        num,
        Ghost(root_scopes),
    );
    match result {
        None => None,
        Some(Ok(Flow::Return(value))) => Some(Ok(value)),
        Some(Ok(Flow::Continue)) => Some(Ok(MiraValue::Nil)),
        Some(Ok(_)) => Some(Err(MiraError::runtime(RuntimeErrorKind::InvalidControlFlow { context: "root" }))),
        Some(Err(e)) => Some(Err(e)),
    }
}

/// The active frames of an arena as the runtime sees them: each frame's
/// parent and register cells, by frame number.
pub open spec fn arena_view(a: &FrameArena) -> Seq<(Option<FrameId>, Seq<MiraAny>)> {
    Seq::new(a.active() + 1, |i: int| (a.frame(FrameId(i as usize)).parent, a.frame(FrameId(i as usize)).registers@))
}

/// The value of a register in a view; register 0 is nil.
pub open spec fn view_cell(v: Seq<(Option<FrameId>, Seq<MiraAny>)>, frame: FrameId, register: RegisterId) -> MiraValue {
    if register.0 == 0 {
        MiraValue::Nil
    } else {
        v[frame.0 as int].1[register.0 - 1].0
    }
}

/// A view with one register of a frame set; register 0 is never set.
pub open spec fn view_set(
    v: Seq<(Option<FrameId>, Seq<MiraAny>)>,
    frame: FrameId,
    register: RegisterId,
    value: MiraValue,
) -> Seq<(Option<FrameId>, Seq<MiraAny>)> {
    if register.0 == 0 {
        v
    } else {
        v.update(frame.0 as int, (v[frame.0 as int].0, v[frame.0 as int].1.update(register.0 - 1, MiraAny(value))))
    }
}

/// `n` unwritten register cells.
pub open spec fn cleared(n: nat) -> Seq<MiraAny> {
    Seq::new(n, |i: int| MiraAny(MiraValue::Uninitialized))
}

/// Whether `r` is the outcome `o`: the same flow, or the runtime failure of
/// that kind.
pub open spec fn outcome_of(r: Result<Flow>, o: core::result::Result<Flow, RuntimeErrorKind>) -> bool {
    match o {
        Ok(flow) => r matches Ok(f) && f == flow,
        Err(kind) => fails_with(r, kind),
    }
}

/// The value of a unary operation on a written scalar, or its failure.
pub open spec fn unary_result<N: Fn(NumOp, u64, u64) -> u64>(kind: UnaryOperation, v: MiraValue, num: N) -> core::result::Result<MiraValue, RuntimeErrorKind> {
    match kind {
        UnaryOperation::Pos | UnaryOperation::Plus | UnaryOperation::ToNumber => match number_of(v) {
            Some(bits) => Ok(MiraValue::Number(bits)),
            None => Err(number_failure(v)),
        },
        UnaryOperation::Neg => match number_of(v) {
            Some(bits) => Ok(MiraValue::Number(num_value(num, NumOp::Neg, bits, 0))),
            None => Err(number_failure(v)),
        },
        UnaryOperation::Not | UnaryOperation::ToBoolean => match v {
            MiraValue::Boolean(b) => Ok(MiraValue::Boolean(if kind is Not {
                !b
            } else {
                b
            })),
            _ => Err(RuntimeErrorKind::TypeMismatch { expected: "boolean", actual: v.spec_value_type() }),
        },
        UnaryOperation::IsBoolean => Ok(MiraValue::Boolean(v is Boolean)),
        UnaryOperation::IsNumber => Ok(MiraValue::Boolean(v is Number)),
        UnaryOperation::IsString | UnaryOperation::IsRecord | UnaryOperation::IsArray => Ok(MiraValue::Boolean(false)),
        _ => Ok(v),
    }
}

/// The number of a constant that is no string.
pub open spec fn constant_value<N: Fn(NumOp, u64, u64) -> u64>(constant: Constant, num: N) -> MiraValue {
    match constant {
        Constant::True => MiraValue::Boolean(true),
        Constant::False => MiraValue::Boolean(false),
        Constant::Float(bits) => MiraValue::Number(bits),
        Constant::Int(value) => MiraValue::Number(num_value(num, NumOp::FromInt, value as u32 as u64, 0)),
        _ => MiraValue::Nil,
    }
}

/// What running a scalar operation in `frame` makes of a view, and its
/// outcome.
pub open spec fn op_step<N: Fn(NumOp, u64, u64) -> u64>(
    v: Seq<(Option<FrameId>, Seq<MiraAny>)>,
    frame: FrameId,
    op: Operation,
    constants: Seq<Constant>,
    env: Seq<(String, Option<MiraValue>)>,
    num: N,
) -> (Seq<(Option<FrameId>, Seq<MiraAny>)>, core::result::Result<Flow, RuntimeErrorKind>) {
    match op {
        Operation::Break => (v, Ok(Flow::Break)),
        Operation::Continue => (v, Ok(Flow::LoopContinue)),
        Operation::Return { value } => if view_cell(v, frame, value) is Uninitialized {
            (v, Err(RuntimeErrorKind::UninitializedValue))
        } else {
            (v, Ok(Flow::Return(view_cell(v, frame, value))))
        },
        Operation::Constant { destination, constant } => (
            view_set(v, frame, destination, constant_value(constants[constant as int], num)),
            Ok(Flow::Continue),
        ),
        Operation::Uninit { destination } => (view_set(v, frame, destination, MiraValue::Uninitialized), Ok(Flow::Continue)),
        Operation::Unary { kind, destination, value } => {
            let a = view_cell(v, frame, value);
            if a is Uninitialized {
                (v, Err(RuntimeErrorKind::UninitializedValue))
            } else {
                match unary_result(kind, a, num) {
                    Ok(result) => (view_set(v, frame, destination, result), Ok(Flow::Continue)),
                    Err(failure) => (v, Err(failure)),
                }
            }
        },
        Operation::Add { destination, left, right } => arithmetic_step(v, frame, NumOp::Add, destination, left, right, num),
        Operation::Sub { destination, left, right } => arithmetic_step(v, frame, NumOp::Sub, destination, left, right, num),
        Operation::Mul { destination, left, right } => arithmetic_step(v, frame, NumOp::Mul, destination, left, right, num),
        Operation::Div { destination, left, right } => arithmetic_step(v, frame, NumOp::Div, destination, left, right, num),
        Operation::Mod { destination, left, right } => arithmetic_step(v, frame, NumOp::Mod, destination, left, right, num),
        Operation::Pow { destination, left, right } => arithmetic_step(v, frame, NumOp::Pow, destination, left, right, num),
        Operation::Binary { kind, destination, left, right } => {
            let a = view_cell(v, frame, left);
            let b = view_cell(v, frame, right);
            if a is Uninitialized || b is Uninitialized {
                (v, Err(RuntimeErrorKind::UninitializedValue))
            } else {
                match binary_result(kind, a, b, num) {
                    Ok(result) => (view_set(v, frame, destination, result), Ok(Flow::Continue)),
                    Err(failure) => (v, Err(failure)),
                }
            }
        },
        Operation::GetGlobal { destination, slot } => match env[slot as int].1 {
            Some(value) => (view_set(v, frame, destination, value), Ok(Flow::Continue)),
            None => (v, Err(RuntimeErrorKind::UndefinedGlobal { name: env[slot as int].0 })),
        },
        Operation::Upvalue { kind, value, level, register } => match view_ancestor(v, frame, level as nat) {
            None => (v, Err(RuntimeErrorKind::InvalidUpvalueLevel { level })),
            Some(owner) => {
                let moved = if kind is Get {
                    view_cell(v, owner, register)
                } else {
                    view_cell(v, frame, value)
                };
                if moved is Uninitialized {
                    (v, Err(RuntimeErrorKind::UninitializedValue))
                } else if kind is Get {
                    (view_set(v, frame, value, moved), Ok(Flow::Continue))
                } else {
                    (view_set(v, owner, register, moved), Ok(Flow::Continue))
                }
            },
        },
        Operation::Swap { left, right } => (
            view_set(view_set(v, frame, left, view_cell(v, frame, right)), frame, right, view_cell(v, frame, left)),
            Ok(Flow::Continue),
        ),
        Operation::Assert { kind, value } => {
            let a = view_cell(v, frame, value);
            if a is Uninitialized {
                (v, Err(RuntimeErrorKind::UninitializedValue))
            } else if kind is NonNil && a is Nil {
                (v, Err(RuntimeErrorKind::ExpectedNonNil))
            } else {
                (v, Ok(Flow::Continue))
            }
        },
        _ => (v, Ok(Flow::Continue)),
    }
}

/// What an arithmetic operation makes of a view.
pub open spec fn arithmetic_step<N: Fn(NumOp, u64, u64) -> u64>(
    v: Seq<(Option<FrameId>, Seq<MiraAny>)>,
    frame: FrameId,
    kind: NumOp,
    destination: RegisterId,
    left: RegisterId,
    right: RegisterId,
    num: N,
) -> (Seq<(Option<FrameId>, Seq<MiraAny>)>, core::result::Result<Flow, RuntimeErrorKind>) {
    let a = view_cell(v, frame, left);
    let b = view_cell(v, frame, right);
    match (number_of(a), number_of(b)) {
        (Some(x), Some(y)) => (view_set(v, frame, destination, MiraValue::Number(num_value(num, kind, x, y))), Ok(Flow::Continue)),
        (None, _) => (v, Err(number_failure(a))),
        (Some(_), None) => (v, Err(number_failure(b))),
    }
}

/// Setting a register, in the arena, sets it in the view.
pub proof fn lemma_sets_view(before: &FrameArena, after: &FrameArena, frame: FrameId, register: RegisterId, value: MiraValue)
    requires
        sets(before, after, frame, register, value),
        before.register_in_range(frame, register),
        frame.0 <= before.active(),
    ensures
        arena_view(after) == view_set(arena_view(before), frame, register, value),
{
    let v = arena_view(before);
    let w = view_set(v, frame, register, value);
    before.lemma_active_bounded();
    assert forall|i: int| 0 <= i < w.len() implies #[trigger] arena_view(after)[i] == w[i] by {
        let id = FrameId(i as usize);
        if i != frame.0 {
            assert(id != frame);
            assert(id.0 <= before.active());
            assert(after.frame(id) == before.frame(id));
        } else {
            assert(id == frame);
        }
    }
    assert(arena_view(after) =~= w);
}

/// Frames left alone keep the view.
pub proof fn lemma_same_view(before: &FrameArena, after: &FrameArena)
    requires
        same_frames(before, after),
    ensures
        arena_view(after) == arena_view(before),
{
    before.lemma_active_bounded();
    assert forall|i: int| 0 <= i < arena_view(before).len() implies #[trigger] arena_view(after)[i] == arena_view(before)[i] by {
        assert(after.frame(FrameId(i as usize)) == before.frame(FrameId(i as usize)));
    }
    assert(arena_view(after) =~= arena_view(before));
}

/// A result `num` may give is the one it gives.
pub proof fn lemma_num_value<N: Fn(NumOp, u64, u64) -> u64>(num: N, op: NumOp, a: u64, b: u64, x: u64)
    requires
        deterministic(num),
        num.ensures((op, a, b), x),
    ensures
        num_value(num, op, a, b) == x,
{
    assert(num.ensures((op, a, b), num_value(num, op, a, b)));
}

/// A register read in the arena is the register read in its view.
pub proof fn lemma_cell_view(a: &FrameArena, frame: FrameId, register: RegisterId)
    requires
        frame.0 <= a.active(),
    ensures
        cell(a, frame, register) == view_cell(arena_view(a), frame, register),
{
    assert(FrameId(frame.0 as int as usize) == frame);
}

/// What a scalar operation does to the arena is what `op_step` makes of its
/// view, and its result is the outcome `op_step` gives.
pub proof fn lemma_operation_view<N: Fn(NumOp, u64, u64) -> u64>(
    before: &FrameArena,
    after: &FrameArena,
    frame: FrameId,
    op: Operation,
    constants: Seq<Constant>,
    env: Seq<(String, Option<MiraValue>)>,
    num: N,
    r: Result<Flow>,
)
    requires
        before.wf(),
        frame.0 <= before.active(),
        scalar_operation(op, constants) || global_read(op, env),
        registers_within(op, before.frame(frame).registers@.len()),
        upvalue_in_range(before, frame, op),
        deterministic(num),
        operation_done(before, after, frame, op, constants, env, num, r),
    ensures
        arena_view(after) == op_step(arena_view(before), frame, op, constants, env, num).0,
        outcome_of(r, op_step(arena_view(before), frame, op, constants, env, num).1),
{
    let v = arena_view(before);
    let regs = operation_registers(op);
    assert forall|i: int| 0 <= i < regs.len() implies before.register_in_range(frame, #[trigger] regs[i]) by {}
    match op {
        Operation::Return { value } => {
            lemma_cell_view(before, frame, value);
            lemma_same_view(before, after);
        },
        Operation::Constant { destination, constant } => {
            assert(before.register_in_range(frame, regs[0]));
            match constants[constant as int] {
                Constant::Int(value) => {
                    let bits = choose|bits: u64|
                        num.ensures((NumOp::FromInt, value as u32 as u64, 0u64), bits) && sets(
                            before,
                            after,
                            frame,
                            destination,
                            MiraValue::Number(bits),
                        );
                    lemma_num_value(num, NumOp::FromInt, value as u32 as u64, 0u64, bits);
                    lemma_sets_view(before, after, frame, destination, MiraValue::Number(bits));
                },
                Constant::Nil => lemma_sets_view(before, after, frame, destination, MiraValue::Nil),
                Constant::True => lemma_sets_view(before, after, frame, destination, MiraValue::Boolean(true)),
                Constant::False => lemma_sets_view(before, after, frame, destination, MiraValue::Boolean(false)),
                Constant::Float(bits) => lemma_sets_view(before, after, frame, destination, MiraValue::Number(bits)),
                Constant::String(_) => {},
            }
        },
        Operation::Uninit { destination } => {
            assert(before.register_in_range(frame, regs[0]));
            lemma_sets_view(before, after, frame, destination, MiraValue::Uninitialized);
        },
        Operation::Unary { kind, destination, value } => {
            assert(before.register_in_range(frame, regs[0]));
            lemma_cell_view(before, frame, value);
            let a = cell(before, frame, value);
            if a is Uninitialized {
                lemma_same_view(before, after);
            } else {
                match unary_result(kind, a, num) {
                    Ok(result) => {
                        if kind is Neg {
                            let bits = number_of(a).unwrap();
                            let x = choose|x: u64|
                                num.ensures((NumOp::Neg, bits, 0u64), x) && sets(
                                    before,
                                    after,
                                    frame,
                                    destination,
                                    MiraValue::Number(x),
                                );
                            lemma_num_value(num, NumOp::Neg, bits, 0u64, x);
                        }
                        lemma_sets_view(before, after, frame, destination, result);
                    },
                    Err(_) => lemma_same_view(before, after),
                }
            }
        },
        Operation::Add { destination, left, right }
        | Operation::Sub { destination, left, right }
        | Operation::Mul { destination, left, right }
        | Operation::Div { destination, left, right }
        | Operation::Mod { destination, left, right }
        | Operation::Pow { destination, left, right } => {
            assert(before.register_in_range(frame, regs[0]));
            lemma_cell_view(before, frame, left);
            lemma_cell_view(before, frame, right);
            let kind = arithmetic_kind(op);
            assert(arithmetic_done(before, after, frame, kind, destination, left, right, num, r));
            match (number_of(cell(before, frame, left)), number_of(cell(before, frame, right))) {
                (Some(x), Some(y)) => {
                    let z = choose|z: u64|
                        num.ensures((kind, x, y), z) && sets(before, after, frame, destination, MiraValue::Number(z));
                    lemma_num_value(num, kind, x, y, z);
                    lemma_sets_view(before, after, frame, destination, MiraValue::Number(z));
                },
                _ => lemma_same_view(before, after),
            }
        },
        Operation::Binary { kind, destination, left, right } => {
            assert(before.register_in_range(frame, regs[0]));
            lemma_cell_view(before, frame, left);
            lemma_cell_view(before, frame, right);
            let a = cell(before, frame, left);
            let b = cell(before, frame, right);
            if a is Uninitialized || b is Uninitialized {
                lemma_same_view(before, after);
            } else {
                match binary_result(kind, a, b, num) {
                    Ok(value) => lemma_sets_view(before, after, frame, destination, value),
                    Err(_) => lemma_same_view(before, after),
                }
            }
        },
        Operation::Swap { left, right } => {
            assert(before.register_in_range(frame, regs[0]));
            assert(before.register_in_range(frame, regs[1]));
            lemma_cell_view(before, frame, left);
            lemma_cell_view(before, frame, right);
            let a = cell(before, frame, left);
            let b = cell(before, frame, right);
            let middle = choose|middle: FrameArena|
                sets(before, &middle, frame, left, b) && sets(&middle, after, frame, right, a);
            lemma_sets_view(before, &middle, frame, left, b);
            lemma_sets_view(&middle, after, frame, right, a);
        },
        Operation::GetGlobal { destination, slot } => {
            assert(before.register_in_range(frame, regs[0]));
            match env[slot as int].1 {
                Some(value) => lemma_sets_view(before, after, frame, destination, value),
                None => lemma_same_view(before, after),
            }
        },
        Operation::Upvalue { kind, value, level, register } => {
            assert(before.register_in_range(frame, regs[0]));
            lemma_ancestor_view(before, frame, level as nat);
            lemma_ancestor_active(before, frame, level as nat);
            match before.ancestor(frame, level as nat) {
                None => lemma_same_view(before, after),
                Some(owner) => {
                    lemma_cell_view(before, owner, register);
                    lemma_cell_view(before, frame, value);
                    let moved = if kind is Get {
                        cell(before, owner, register)
                    } else {
                        cell(before, frame, value)
                    };
                    if moved is Uninitialized {
                        lemma_same_view(before, after);
                    } else if kind is Get {
                        lemma_sets_view(before, after, frame, value, moved);
                    } else {
                        lemma_sets_view(before, after, owner, register, moved);
                    }
                },
            }
        },
        _ => lemma_same_view(before, after),
    }
}

/// The view of a fresh run: the root frame alone, with `count` unwritten
/// registers (at least the inline ones) and no parent.
pub open spec fn fresh_view(count: usize) -> Seq<(Option<FrameId>, Seq<MiraAny>)> {
    seq![(None, cleared(register_capacity(count)))]
}

/// What running the instructions of `body` in `frame` makes of a view, with
/// `fuel` loop iterations allowed: the view after, the iterations left and
/// the outcome. The instructions run in order until one does not go on,
/// whose outcome is the body's; going on past the last one goes on.
pub open spec fn block_run<N: Fn(NumOp, u64, u64) -> u64>(
    v: Seq<(Option<FrameId>, Seq<MiraAny>)>,
    frame: FrameId,
    body: Seq<Instruction>,
    constants: Seq<Constant>,
    env: Seq<(String, Option<MiraValue>)>,
    num: N,
    fuel: nat,
) -> (Seq<(Option<FrameId>, Seq<MiraAny>)>, nat, Option<core::result::Result<Flow, RuntimeErrorKind>>)
    decreases fuel, body, 2int,
{
    if body.len() == 0 {
        (v, fuel, Some(Ok(Flow::Continue)))
    } else {
        let before = block_run(v, frame, body.subrange(0, body.len() - 1), constants, env, num, fuel);
        if before.2 != Some(Ok::<Flow, RuntimeErrorKind>(Flow::Continue)) || before.1 > fuel {
            before
        } else {
            instruction_run(before.0, frame, body[body.len() - 1], constants, env, num, before.1)
        }
    }
}

/// What running one instruction in `frame` makes of a view, with `fuel`
/// loop iterations allowed; no outcome (`None`) for an instruction outside
/// this runtime. A conditional runs the body its test picks, or fails as
/// the test does; a numeric-range loop fails as converting its start or
/// end fails, else iterates from the start.
pub open spec fn instruction_run<N: Fn(NumOp, u64, u64) -> u64>(
    v: Seq<(Option<FrameId>, Seq<MiraAny>)>,
    frame: FrameId,
    ins: Instruction,
    constants: Seq<Constant>,
    env: Seq<(String, Option<MiraValue>)>,
    num: N,
    fuel: nat,
) -> (Seq<(Option<FrameId>, Seq<MiraAny>)>, nat, Option<core::result::Result<Flow, RuntimeErrorKind>>)
    decreases fuel, ins, 1int,
{
    match ins.kind {
        InstructionKind::Op(op) => if scalar_operation(op, constants) || global_read(op, env) {
            let step = op_step(v, frame, op, constants, env, num);
            (step.0, fuel, Some(step.1))
        } else {
            (v, fuel, None)
        },
        InstructionKind::If { condition, register, then_body, else_body } => match condition_result(
            condition,
            view_cell(v, frame, register),
        ) {
            Err(kind) => (v, fuel, Some(Err(kind))),
            Ok(holds) => if holds {
                block_run(v, frame, then_body@, constants, env, num, fuel)
            } else {
                block_run(v, frame, else_body@, constants, env, num, fuel)
            },
        },
        InstructionKind::Loop { register_count, kind, body, reuse_frame } => match kind {
            LoopKind::Range { start, end, exclusive } => {
                let a = view_cell(v, frame, start);
                let b = view_cell(v, frame, end);
                match (number_of(a), number_of(b)) {
                    (Some(x), Some(y)) => loop_run(
                        v,
                        frame,
                        register_count,
                        body@,
                        reuse_frame,
                        None,
                        Some((x, y, exclusive)),
                        constants,
                        env,
                        num,
                        fuel,
                    ),
                    (None, _) => (v, fuel, Some(Err(number_failure(a)))),
                    (Some(_), None) => (v, fuel, Some(Err(number_failure(b)))),
                }
            },
            LoopKind::Infinite => loop_run(v, frame, register_count, body@, reuse_frame, None, None, constants, env, num, fuel),
            LoopKind::Iterable { .. } => (v, fuel, None),
        },
        _ => (v, fuel, None),
    }
}

/// The view with the frame of the next loop iteration handed out under
/// `parent`: the reusable frame cleared, or a new frame of
/// `register_count` registers after the active ones; and that frame.
pub open spec fn iteration_frame(
    v: Seq<(Option<FrameId>, Seq<MiraAny>)>,
    parent: FrameId,
    register_count: usize,
    reusable: Option<FrameId>,
) -> (Seq<(Option<FrameId>, Seq<MiraAny>)>, FrameId) {
    match reusable {
        Some(id) => (v.update(id.0 as int, (Some(parent), cleared(v[id.0 as int].1.len()))), id),
        None => (v.push((Some(parent), cleared(register_capacity(register_count)))), FrameId(v.len() as usize)),
    }
}

/// The iterations of a loop under `parent` from a view: while the range
/// test holds (always, for an infinite loop), each iteration takes one
/// unit of `fuel` (with none left the run times out), runs the body in the
/// iteration's frame with register 1 set to the counter, and then goes on
/// (after the body went on or restarted the loop, the counter stepped by
/// one), leaves the loop (which then goes on) or passes the outcome on.
pub open spec fn loop_run<N: Fn(NumOp, u64, u64) -> u64>(
    v: Seq<(Option<FrameId>, Seq<MiraAny>)>,
    parent: FrameId,
    register_count: usize,
    body: Seq<Instruction>,
    reuse: bool,
    reusable: Option<FrameId>,
    range: Option<(u64, u64, bool)>,
    constants: Seq<Constant>,
    env: Seq<(String, Option<MiraValue>)>,
    num: N,
    fuel: nat,
) -> (Seq<(Option<FrameId>, Seq<MiraAny>)>, nat, Option<core::result::Result<Flow, RuntimeErrorKind>>)
    decreases fuel, body, 0int,
{
    let tested = match range {
        Some((value, end, exclusive)) => num_value(num, range_test(exclusive), value, end) != 0,
        None => true,
    };
    if !tested {
        (v, fuel, Some(Ok(Flow::Continue)))
    } else if fuel == 0 {
        (v, fuel, Some(Err(RuntimeErrorKind::Timeout)))
    } else {
        let framed = iteration_frame(v, parent, register_count, reusable);
        let id = framed.1;
        let seeded = match range {
            Some((value, _, _)) => view_set(framed.0, id, RegisterId(1), MiraValue::Number(value)),
            None => framed.0,
        };
        let ran = block_run(seeded, id, body, constants, env, num, (fuel - 1) as nat);
        match ran.2 {
            Some(Ok(Flow::Continue)) | Some(Ok(Flow::LoopContinue)) => if ran.1 < fuel {
                let next_reusable = match reusable {
                    Some(r) => Some(r),
                    None => if reuse {
                        Some(id)
                    } else {
                        None
                    },
                };
                let next_range = match range {
                    Some((value, end, exclusive)) => Some((num_value(num, NumOp::Increment, value, 0), end, exclusive)),
                    None => None,
                };
                loop_run(ran.0, parent, register_count, body, reuse, next_reusable, next_range, constants, env, num, ran.1)
            } else {
                ran
            },
            Some(Ok(Flow::Break)) => (ran.0, ran.1, Some(Ok(Flow::Continue))),
            _ => ran,
        }
    }
}

/// Once a prefix of a body stops going on, every longer prefix ends as it
/// did.
pub proof fn lemma_block_stops<N: Fn(NumOp, u64, u64) -> u64>(
    v: Seq<(Option<FrameId>, Seq<MiraAny>)>,
    frame: FrameId,
    body: Seq<Instruction>,
    constants: Seq<Constant>,
    env: Seq<(String, Option<MiraValue>)>,
    num: N,
    fuel: nat,
    k: int,
    m: int,
)
    requires
        0 <= k <= m <= body.len(),
        block_run(v, frame, body.take(k), constants, env, num, fuel).2 != Some(Ok::<Flow, RuntimeErrorKind>(Flow::Continue)),
    ensures
        block_run(v, frame, body.take(m), constants, env, num, fuel) == block_run(v, frame, body.take(k), constants, env, num, fuel),
    decreases m - k,
{
    if m > k {
        lemma_block_stops(v, frame, body, constants, env, num, fuel, k, m - 1);
        assert(body.take(m).subrange(0, m - 1) =~= body.take(m - 1));
    }
}

/// Handing out the frame of a loop iteration makes of the view what
/// `iteration_frame` says.
pub proof fn lemma_loop_frame_view(
    before: &FrameArena,
    after: &FrameArena,
    parent: FrameId,
    register_count: usize,
    reusable: Option<FrameId>,
    id: FrameId,
)
    requires
        before.wf(),
        after.wf(),
        after.frame(id).parent == Some(parent),
        forall|other: FrameId| other.0 <= before.active() && other != id ==> #[trigger] after.frame(other) == before.frame(other),
        crate::register::all_cells(after.frame(id).registers@, MiraValue::Uninitialized),
        reusable matches Some(r) ==> {
            &&& id == r
            &&& r.0 <= before.active()
            &&& after.active() == before.active()
            &&& after.frame(id).registers@.len() == before.frame(id).registers@.len()
        },
        reusable is None ==> {
            &&& id.0 == before.active() + 1
            &&& after.active() == id.0
            &&& after.frame(id).registers@.len() == register_capacity(register_count)
        },
    ensures
        arena_view(after) == iteration_frame(arena_view(before), parent, register_count, reusable).0,
        id == iteration_frame(arena_view(before), parent, register_count, reusable).1,
{
    before.lemma_active_bounded();
    after.lemma_active_bounded();
    let w = iteration_frame(arena_view(before), parent, register_count, reusable).0;
    assert(after.frame(id).registers@ =~= cleared(after.frame(id).registers@.len()));
    assert forall|i: int| 0 <= i < w.len() implies #[trigger] arena_view(after)[i] == w[i] by {
        let other = FrameId(i as usize);
        if other != id {
            assert(after.frame(other) == before.frame(other));
        } else {
            assert(FrameId(id.0 as int as usize) == id);
        }
    }
    assert(arena_view(after) =~= w);
}

/// What evaluating source text gives: compiling it with the default
/// options as `compile` does; a compile or decode failure is the result,
/// and a compiled script gives what running it gives (`None` when the run
/// reaches an instruction outside this runtime).
pub open spec fn eval_result_ok<F: Fn(u64, bool) -> String, N: Fn(NumOp, u64, u64) -> u64>(
    source: Seq<char>,
    std: &Globals,
    render: F,
    num: N,
    fuel: nat,
    id: ScriptId,
    r: Option<Result<MiraValue>>,
) -> bool {
    exists|compiled: Result<MiraScript>|
        #[trigger] compile_result_ok(source, CompileOptions::spec_default(), compiled, std, render, id) && match compiled {
            Err(e) => r == Some(Err::<MiraValue, Box<MiraError>>(e)),
            Ok(script) => run_result_ok(script.spec_program(), std, num, fuel, r),
        }
}

/// Compile source text as a script with identity `id` and run it with
/// `fuel` loop iterations allowed, its globals those of `std`. A compile or
/// decode failure is the result; a script whose run reaches an instruction
/// outside this runtime gives `None`.
pub fn eval<F: Fn(u64, bool) -> String, N: Fn(NumOp, u64, u64) -> u64>(
    source: &str,
    std: &Globals,
    render: &F,
    id: ScriptId,
    frames: &mut FrameArena,
    fuel: u64,
    num: &N,
) -> (r: Option<Result<MiraValue>>)
    requires
        std.wf(),
        forall|b: u64, exponent: bool| render.requires((b, exponent)),
        old(frames).wf(),
        fuel < usize::MAX,
        forall|op: NumOp, a: u64, b: u64| num.requires((op, a, b)),
        deterministic(*num),
    ensures
        final(frames).wf(),
        eval_result_ok(source@, std, *render, *num, fuel as nat, id, r),
{
    let compiled = compile(source, std, render, id);
    let ghost witness = compiled;
    match compiled {
        Err(e) => {
            proof {
                assert(compile_result_ok(source@, CompileOptions::spec_default(), witness, std, *render, id));
            }
            Some(Err(e))
        },
        Ok(script) => {
            let program = script.program_ref();
            proof {
                assert(compile_result_ok(source@, CompileOptions::spec_default(), witness, std, *render, id));
                let chunk = compiler_output(source@, CompileOptions::spec_default()).0->Some_0;
                assert(decode_result_ok(chunk, Ok(script.spec_program()), std, *render));
                let sections = chunk_sections(chunk)->Ok_0;
                let code = chunk.subrange(8, 8 + sections.0 as int);
                lemma_valid_program_runs(script.spec_program(), code, std, *render);
            }
            let result = run(program, std, frames, fuel, num);
            proof {
                assert(compile_result_ok(source@, CompileOptions::spec_default(), witness, std, *render, id));
            }
            result
        },
    }
}

/// The frame that active parent links lead to is active.
pub proof fn lemma_ancestor_active(a: &FrameArena, frame: FrameId, level: nat)
    requires
        a.chain_active(frame, level),
    ensures
        a.ancestor(frame, level) matches Some(id) ==> id.0 <= a.active(),
    decreases level,
{
    if level > 0 {
        if let Some(parent) = a.frame(frame).parent {
            lemma_ancestor_active(a, parent, (level - 1) as nat);
        }
    }
}

/// Following parent links in the arena is following them in its view.
pub proof fn lemma_ancestor_view(a: &FrameArena, frame: FrameId, level: nat)
    requires
        a.chain_active(frame, level),
    ensures
        view_ancestor(arena_view(a), frame, level) == a.ancestor(frame, level),
    decreases level,
{
    if level > 0 {
        a.lemma_active_bounded();
        assert(FrameId(frame.0 as int as usize) == frame);
        assert(arena_view(a)[frame.0 as int].0 == a.frame(frame).parent);
        if let Some(parent) = a.frame(frame).parent {
            lemma_ancestor_view(a, parent, (level - 1) as nat);
        }
    }
}

/// Frames that keep their parents keep the frames their links lead to.
pub proof fn lemma_shape_ancestor(before: &FrameArena, after: &FrameArena, frame: FrameId, level: nat)
    requires
        shape_kept(before, after),
        before.chain_active(frame, level),
    ensures
        after.chain_active(frame, level),
        after.ancestor(frame, level) == before.ancestor(frame, level),
    decreases level,
{
    assert(after.frame(frame).parent == before.frame(frame).parent);
    if level > 0 {
        if let Some(parent) = before.frame(frame).parent {
            lemma_shape_ancestor(before, after, parent, (level - 1) as nat);
        }
    }
}

/// Keeping every frame's parent and registers keeps the fit of scopes.
pub proof fn lemma_fits_kept(before: &FrameArena, after: &FrameArena, frame: FrameId, scopes: Seq<usize>)
    requires
        frames_fit(before, frame, scopes),
        shape_kept(before, after),
    ensures
        frames_fit(after, frame, scopes),
{
    assert forall|k: nat| k < scopes.len() implies #[trigger] ancestor_fits(after, frame, scopes, k) by {
        assert(ancestor_fits(before, frame, scopes, k));
        lemma_shape_ancestor(before, after, frame, k);
        let id = before.ancestor(frame, k).unwrap();
        assert(after.frame(id).registers@.len() == before.frame(id).registers@.len());
    }
}

/// The running frame holds the registers of the innermost scope.
pub proof fn lemma_fits_limit(a: &FrameArena, frame: FrameId, scopes: Seq<usize>)
    requires
        frames_fit(a, frame, scopes),
    ensures
        frame.0 <= a.active(),
        scopes.last() <= a.frame(frame).registers@.len(),
{
    assert(ancestor_fits(a, frame, scopes, 0));
}

/// An operation within its scopes names registers in range.
pub proof fn lemma_fits_operation(a: &FrameArena, frame: FrameId, scopes: Seq<usize>, op: Operation)
    requires
        frames_fit(a, frame, scopes),
        registers_within(op, scopes.last() as nat),
        upvalue_fits(op, scopes),
    ensures
        registers_within(op, a.frame(frame).registers@.len()),
        upvalue_in_range(a, frame, op),
{
    lemma_fits_limit(a, frame, scopes);
    let regs = operation_registers(op);
    assert forall|i: int| 0 <= i < regs.len() implies #[trigger] regs[i].0 <= a.frame(frame).registers@.len() by {
        assert(regs[i].0 <= scopes.last());
    }
    if let Operation::Upvalue { level, .. } = op {
        assert(ancestor_fits(a, frame, scopes, level as nat));
    }
}

/// A loop frame whose parent holds the enclosing scopes holds them with
/// the loop's own scope innermost.
pub proof fn lemma_fits_loop(a: &FrameArena, parent: FrameId, frame: FrameId, scopes: Seq<usize>, count: usize)
    requires
        frames_fit(a, parent, scopes),
        a.frame(frame).parent == Some(parent),
        frame.0 <= a.active(),
        count <= a.frame(frame).registers@.len(),
    ensures
        frames_fit(a, frame, scopes.push(count)),
{
    let inner = scopes.push(count);
    assert forall|k: nat| k < inner.len() implies #[trigger] ancestor_fits(a, frame, inner, k) by {
        if k > 0 {
            let j = (k - 1) as nat;
            assert(ancestor_fits(a, parent, scopes, j));
            assert(inner[inner.len() - 1 - k] == scopes[scopes.len() - 1 - j]);
        }
    }
}

/// A state keeps its own shape.
pub proof fn lemma_shape_refl(a: &FrameArena)
    ensures
        shape_kept(a, a),
{
}

/// Keeping shapes is transitive.
pub proof fn lemma_shape_trans(a: &FrameArena, b: &FrameArena, c: &FrameArena)
    requires
        shape_kept(a, b),
        shape_kept(b, c),
    ensures
        shape_kept(a, c),
{
    assert forall|id: FrameId| id.0 <= a.active() implies (#[trigger] c.frame(id)).parent == a.frame(id).parent
        && c.frame(id).registers@.len() == a.frame(id).registers@.len() by {
        assert(b.frame(id).parent == a.frame(id).parent);
    }
}

/// The registers of a valid instruction fit the scopes it is valid in.
pub proof fn lemma_valid_instruction_fits(
    t: Tables,
    ins: Instruction,
    scopes: Seq<usize>,
    loops: nat,
    bound: nat,
    constants: Seq<Constant>,
)
    requires
        scopes.len() > 0,
        instruction_ok(t, ins, scopes, loops, bound),
    ensures
        scalar_instruction(ins, constants, scopes),
    decreases bound, ins,
{
    match ins.kind {
        InstructionKind::Op(op) => {
            let regs = operation_registers(op);
            assert forall|i: int| 0 <= i < regs.len() implies #[trigger] regs[i].0 <= scopes.last() by {
                assert(regs.len() <= 3);
            }
        },
        InstructionKind::If { then_body, else_body, .. } => {
            lemma_valid_block_fits(t, then_body@, scopes, loops, bound, constants);
            lemma_valid_block_fits(t, else_body@, scopes, loops, bound, constants);
        },
        InstructionKind::Loop { register_count, body, .. } => {
            lemma_valid_block_fits(t, body@, scopes.push(register_count), loops + 1, bound, constants);
        },
        _ => {},
    }
}

/// The registers of every instruction of a valid block fit the scopes it
/// is valid in.
pub proof fn lemma_valid_block_fits(
    t: Tables,
    body: Seq<Instruction>,
    scopes: Seq<usize>,
    loops: nat,
    bound: nat,
    constants: Seq<Constant>,
)
    requires
        scopes.len() > 0,
        block_ok(t, body, scopes, loops, bound),
    ensures
        scalar_body(body, constants, scopes),
    decreases bound, body,
{
    assert forall|i: int| 0 <= i < body.len() implies scalar_instruction(#[trigger] body[i], constants, scopes) by {
        lemma_block_index(t, body, scopes, loops, bound, i);
        lemma_valid_instruction_fits(t, body[i], scopes, loops, bound, constants);
    }
}

/// A program decoded from its code is one the runtime takes: the registers
/// of its root body fit the root frame.
pub proof fn lemma_valid_program_runs<F: Fn(u64, bool) -> String>(program: Program, code: Seq<u8>, std: &Globals, render: F)
    requires
        program.valid(code, std, render),
    ensures
        scalar_body(program.root.body@, program.constants@, seq![program.root.register_count]),
{
    lemma_valid_block_fits(
        program.tables(code),
        program.root.body@,
        seq![program.root.register_count],
        0,
        program.functions@.len(),
        program.constants@,
    );
}

/// Orderings compare the numbers the operands convert to: `<` and `<=` are
/// the caller's `Less` and `LessEqual`, and `a > b` and `a >= b` are
/// `b < a` and `b <= a`.
pub proof fn lemma_order_comparisons<N: Fn(NumOp, u64, u64) -> u64>(a: MiraValue, b: MiraValue, num: N)
    requires
        number_of(a) is Some,
        number_of(b) is Some,
    ensures
        binary_result(BinaryOperation::Lt, a, b, num) == Ok::<MiraValue, RuntimeErrorKind>(
            MiraValue::Boolean(num_value(num, NumOp::Less, number_of(a).unwrap(), number_of(b).unwrap()) != 0),
        ),
        binary_result(BinaryOperation::Lte, a, b, num) == Ok::<MiraValue, RuntimeErrorKind>(
            MiraValue::Boolean(num_value(num, NumOp::LessEqual, number_of(a).unwrap(), number_of(b).unwrap()) != 0),
        ),
        binary_result(BinaryOperation::Gt, a, b, num) == binary_result(BinaryOperation::Lt, b, a, num),
        binary_result(BinaryOperation::Gte, a, b, num) == binary_result(BinaryOperation::Lte, b, a, num),
{
}

/// A numeric-range loop runs an iteration only while its test holds: an
/// exclusive range tests `Less` (so never runs the body at the end value)
/// and an inclusive one `LessEqual`; when the test fails, the loop goes on
/// after itself with the view and fuel unchanged.
pub proof fn lemma_range_stops<N: Fn(NumOp, u64, u64) -> u64>(
    v: Seq<(Option<FrameId>, Seq<MiraAny>)>,
    parent: FrameId,
    register_count: usize,
    body: Seq<Instruction>,
    reuse: bool,
    reusable: Option<FrameId>,
    value: u64,
    end: u64,
    exclusive: bool,
    constants: Seq<Constant>,
    env: Seq<(String, Option<MiraValue>)>,
    num: N,
    fuel: nat,
)
    ensures
        range_test(true) == NumOp::Less,
        range_test(false) == NumOp::LessEqual,
        num_value(num, if exclusive {
            NumOp::Less
        } else {
            NumOp::LessEqual
        }, value, end) == 0 ==> loop_run(
            v,
            parent,
            register_count,
            body,
            reuse,
            reusable,
            Some((value, end, exclusive)),
            constants,
            env,
            num,
            fuel,
        ) == (v, fuel, Some(Ok::<Flow, RuntimeErrorKind>(Flow::Continue))),
{
}

/// Equalities: `!=`, `!==` and `!~=` are the negations of `==`, `===` and
/// `~=`; two numbers are equal and same-valued by the caller's `Equal` and
/// `SameValue`, and other values by identity.
pub proof fn lemma_equalities<N: Fn(NumOp, u64, u64) -> u64>(a: MiraValue, b: MiraValue, num: N)
    requires
        is_scalar(a),
        is_scalar(b),
    ensures
        binary_result(BinaryOperation::Eq, a, b, num) matches Ok(MiraValue::Boolean(x)) && binary_result(
            BinaryOperation::Neq,
            a,
            b,
            num,
        ) == Ok::<MiraValue, RuntimeErrorKind>(MiraValue::Boolean(!x)),
        binary_result(BinaryOperation::Same, a, b, num) matches Ok(MiraValue::Boolean(x)) && binary_result(
            BinaryOperation::Nsame,
            a,
            b,
            num,
        ) == Ok::<MiraValue, RuntimeErrorKind>(MiraValue::Boolean(!x)),
        number_of(a) is Some && number_of(b) is Some ==> (binary_result(BinaryOperation::Aeq, a, b, num) matches Ok(
            MiraValue::Boolean(x),
        ) && binary_result(BinaryOperation::Naeq, a, b, num) == Ok::<MiraValue, RuntimeErrorKind>(
            MiraValue::Boolean(!x),
        )),
        (a matches MiraValue::Number(x) && b matches MiraValue::Number(y)) ==> binary_result(
            BinaryOperation::Eq,
            a,
            b,
            num,
        ) == Ok::<MiraValue, RuntimeErrorKind>(MiraValue::Boolean(num_value(num, NumOp::Equal, a->Number_0, b->Number_0) != 0))
            && binary_result(BinaryOperation::Same, a, b, num) == Ok::<MiraValue, RuntimeErrorKind>(
            MiraValue::Boolean(num_value(num, NumOp::SameValue, a->Number_0, b->Number_0) != 0),
        ),
        !(a is Number && b is Number) ==> binary_result(BinaryOperation::Eq, a, b, num) == Ok::<MiraValue, RuntimeErrorKind>(
            MiraValue::Boolean(a == b),
        ),
{
}

} // verus!

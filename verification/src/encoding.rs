//! When code is well formed: the conditions under which each instruction,
//! and each block of instructions, decodes, and where it ends.
use vstd::prelude::*;

use crate::constants::ConstantView;
use crate::opcode::{OPCODE_COUNT, OpCode, opcode_byte, param_width};
use crate::model::{ArrayElement, Instruction, RangeEndpoint, RecordElement, RecordKey};
use crate::register::RegisterId;
use crate::validity::{operand, scope_limit, signed_operand};

verus! {

/// The width of the parameters of the instruction whose opcode is at `at`.
pub open spec fn width_at(code: Seq<u8>, at: int) -> nat {
    param_width(opcode_byte(code, at).1)
}

/// The offset just past the first `n` parameters of the instruction at `at`.
pub open spec fn params_end(code: Seq<u8>, at: int, n: int) -> int {
    at + 1 + n * width_at(code, at)
}

/// Whether the `k`-th parameter of the instruction at `at` lies within the
/// code.
pub open spec fn has_param(code: Seq<u8>, at: int, k: int) -> bool {
    params_end(code, at, k + 1) <= code.len()
}

/// Whether the `k`-th parameter is a register of the innermost scope.
pub open spec fn register_param(code: Seq<u8>, at: int, k: int, scopes: Seq<usize>) -> bool {
    has_param(code, at, k) && operand(code, at, k) <= scope_limit(scopes)
}

/// Whether the `k`-th parameter is below `count`.
pub open spec fn index_param(code: Seq<u8>, at: int, k: int, count: nat) -> bool {
    has_param(code, at, k) && operand(code, at, k) < count
}

/// Whether the `(k + i)`-th parameter is a register of the innermost scope.
pub open spec fn register_param_from(code: Seq<u8>, at: int, k: int, i: int, scopes: Seq<usize>) -> bool {
    register_param(code, at, k + i, scopes)
}

/// Whether the `n` parameters from the `k`-th on are registers of the
/// innermost scope.
pub open spec fn register_params(code: Seq<u8>, at: int, k: int, n: int, scopes: Seq<usize>) -> bool {
    forall|i: int| 0 <= i < n ==> #[trigger] register_param_from(code, at, k, i, scopes)
}

/// Whether the `(k + i)`-th parameter is below `count`.
pub open spec fn index_param_from(code: Seq<u8>, at: int, k: int, i: int, count: nat) -> bool {
    index_param(code, at, k + i, count)
}

/// Whether the `n` parameters from the `k`-th on are below `count`.
pub open spec fn index_params(code: Seq<u8>, at: int, k: int, n: int, count: nat) -> bool {
    forall|i: int| 0 <= i < n ==> #[trigger] index_param_from(code, at, k, i, count)
}

/// Whether a constant may be a format: a string or nil.
pub open spec fn is_format_constant(constant: ConstantView) -> bool {
    constant is String || constant is Nil
}

/// Whether the parameters of an arithmetic, comparison or logical operation
/// are well formed: three registers.
pub open spec fn binary_ok(code: Seq<u8>, at: int, scopes: Seq<usize>) -> bool {
    &&& register_param(code, at, 0, scopes)
    &&& register_param(code, at, 1, scopes)
    &&& register_param(code, at, 2, scopes)
}

/// Whether the parameters of an operation with a few fixed operands are
/// well formed.
pub open spec fn short_ok(code: Seq<u8>, constants: Seq<ConstantView>, at: int, op: OpCode, scopes: Seq<usize>) -> bool {
    match op {
        OpCode::AssertInit | OpCode::AssertNonNil | OpCode::Uninit | OpCode::Return => register_param(
            code,
            at,
            0,
            scopes,
        ),
        OpCode::Constant | OpCode::GetGlobal => register_param(code, at, 0, scopes) && index_param(
            code,
            at,
            1,
            constants.len(),
        ),
        OpCode::Format => {
            &&& register_param(code, at, 0, scopes)
            &&& register_param(code, at, 1, scopes)
            &&& index_param(code, at, 2, constants.len())
            &&& is_format_constant(constants[operand(code, at, 2) as int])
        },
        _ => register_param(code, at, 0, scopes) && register_param(code, at, 1, scopes),
    }
}

/// The number of parameters of an operation with a few fixed operands.
pub open spec fn short_count(op: OpCode) -> int {
    match op {
        OpCode::AssertInit | OpCode::AssertNonNil | OpCode::Uninit | OpCode::Return => 1,
        OpCode::Format => 3,
        _ => 2,
    }
}

/// Whether the parameters of an upvalue access are well formed: a register,
/// a level naming an enclosing scope, and a register of that scope.
pub open spec fn upvalue_ok(code: Seq<u8>, at: int, scopes: Seq<usize>) -> bool {
    &&& register_param(code, at, 0, scopes)
    &&& has_param(code, at, 1)
    &&& 1 <= operand(code, at, 1) < scopes.len()
    &&& has_param(code, at, 2)
    &&& operand(code, at, 2) <= scopes[scopes.len() - 1 - operand(code, at, 1)]
}

/// Whether the parameters of a concatenation, pick or omit are well formed:
/// the registers, a count, and that many registers or constant indexes.
pub open spec fn list_ok(code: Seq<u8>, constants: Seq<ConstantView>, at: int, op: OpCode, scopes: Seq<usize>) -> bool {
    if op == OpCode::Concat {
        &&& register_param(code, at, 0, scopes)
        &&& has_param(code, at, 1)
        &&& register_params(code, at, 2, operand(code, at, 1) as int, scopes)
    } else {
        &&& register_param(code, at, 0, scopes)
        &&& register_param(code, at, 1, scopes)
        &&& has_param(code, at, 2)
        &&& index_params(code, at, 3, operand(code, at, 2) as int, constants.len())
    }
}

/// The number of parameters of a concatenation, pick or omit.
pub open spec fn list_count(code: Seq<u8>, at: int, op: OpCode) -> int {
    if op == OpCode::Concat {
        2 + operand(code, at, 1) as int
    } else {
        3 + operand(code, at, 2) as int
    }
}

/// Whether the parameters of a call are well formed: the destination, the
/// callee (a constant naming a global, or a register), the argument count
/// and registers, and the spread count and argument positions.
pub open spec fn call_ok(code: Seq<u8>, constants: Seq<ConstantView>, at: int, op: OpCode, scopes: Seq<usize>) -> bool {
    let n = operand(code, at, 2) as int;
    &&& register_param(code, at, 0, scopes)
    &&& if op == OpCode::Call {
        index_param(code, at, 1, constants.len())
    } else {
        register_param(code, at, 1, scopes)
    }
    &&& has_param(code, at, 2)
    &&& register_params(code, at, 3, n, scopes)
    &&& has_param(code, at, 3 + n)
    &&& index_params(code, at, 4 + n, operand(code, at, 3 + n) as int, n as nat)
}

/// The number of parameters of a call.
pub open spec fn call_count(code: Seq<u8>, at: int) -> int {
    let n = operand(code, at, 2) as int;
    4 + n + operand(code, at, 3 + n) as int
}

/// Whether the parameters of a key access or slice are well formed.
pub open spec fn access_ok(code: Seq<u8>, constants: Seq<ConstantView>, at: int, op: OpCode, scopes: Seq<usize>) -> bool {
    &&& register_param(code, at, 0, scopes)
    &&& register_param(code, at, 1, scopes)
    &&& match op {
        OpCode::Has | OpCode::Get | OpCode::SetKey => index_param(code, at, 2, constants.len()),
        OpCode::HasDyn | OpCode::GetDyn | OpCode::SetDyn => register_param(code, at, 2, scopes),
        OpCode::HasIndex | OpCode::GetIndex | OpCode::SetIndex | OpCode::SliceStart
        | OpCode::SliceEnd => has_param(code, at, 2),
        OpCode::Slice => has_param(code, at, 2) && has_param(code, at, 3),
        _ => register_param(code, at, 2, scopes) && register_param(code, at, 3, scopes),
    }
}

/// The number of parameters of a key access or slice.
pub open spec fn access_count(op: OpCode) -> int {
    match op {
        OpCode::Slice | OpCode::SliceDyn | OpCode::SliceExclusiveDyn => 4,
        _ => 3,
    }
}

/// Whether a simple operation, whose opcode is at `at`, is well formed in
/// a scope nested `loops` loops deep: `Break` and `Continue` only inside a
/// loop, and each other operation with well-formed parameters.
#[verifier::opaque]
pub open spec fn simple_ok(
    code: Seq<u8>,
    constants: Seq<ConstantView>,
    at: int,
    op: OpCode,
    scopes: Seq<usize>,
    loops: nat,
) -> bool {
    match op {
        OpCode::Noop => true,
        OpCode::Break | OpCode::Continue => loops > 0,
        OpCode::Add | OpCode::Sub | OpCode::Mul | OpCode::Div | OpCode::Mod | OpCode::Pow
        | OpCode::Eq | OpCode::Neq | OpCode::Lt | OpCode::Lte | OpCode::Gt | OpCode::Gte
        | OpCode::Aeq | OpCode::Naeq | OpCode::Same | OpCode::Nsame | OpCode::In | OpCode::And
        | OpCode::Or => binary_ok(code, at, scopes),
        OpCode::Pos | OpCode::Neg | OpCode::Not | OpCode::Plus | OpCode::Type
        | OpCode::ToBoolean | OpCode::ToNumber | OpCode::ToString | OpCode::IsBoolean
        | OpCode::IsNumber | OpCode::IsString | OpCode::IsRecord | OpCode::IsArray
        | OpCode::Assign | OpCode::Length | OpCode::AssertInit | OpCode::AssertNonNil
        | OpCode::Uninit | OpCode::Return | OpCode::Swap | OpCode::GetGlobalDyn
        | OpCode::InGlobal | OpCode::Constant | OpCode::GetGlobal | OpCode::Format => short_ok(
            code,
            constants,
            at,
            op,
            scopes,
        ),
        OpCode::GetUpvalue | OpCode::SetUpvalue => upvalue_ok(code, at, scopes),
        OpCode::Concat | OpCode::Pick | OpCode::Omit => list_ok(code, constants, at, op, scopes),
        OpCode::Call | OpCode::CallDyn => call_ok(code, constants, at, op, scopes),
        OpCode::Has | OpCode::Get | OpCode::SetKey | OpCode::HasDyn | OpCode::GetDyn
        | OpCode::SetDyn | OpCode::HasIndex | OpCode::GetIndex | OpCode::SetIndex
        | OpCode::Slice | OpCode::SliceStart | OpCode::SliceEnd | OpCode::SliceDyn
        | OpCode::SliceExclusiveDyn => access_ok(code, constants, at, op, scopes),
        _ => false,
    }
}

/// The number of parameters of a simple operation.
pub open spec fn simple_count(code: Seq<u8>, at: int, op: OpCode) -> int {
    match op {
        OpCode::Add | OpCode::Sub | OpCode::Mul | OpCode::Div | OpCode::Mod | OpCode::Pow
        | OpCode::Eq | OpCode::Neq | OpCode::Lt | OpCode::Lte | OpCode::Gt | OpCode::Gte
        | OpCode::Aeq | OpCode::Naeq | OpCode::Same | OpCode::Nsame | OpCode::In | OpCode::And
        | OpCode::Or | OpCode::GetUpvalue | OpCode::SetUpvalue => 3,
        OpCode::Pos | OpCode::Neg | OpCode::Not | OpCode::Plus | OpCode::Type
        | OpCode::ToBoolean | OpCode::ToNumber | OpCode::ToString | OpCode::IsBoolean
        | OpCode::IsNumber | OpCode::IsString | OpCode::IsRecord | OpCode::IsArray
        | OpCode::Assign | OpCode::Length | OpCode::AssertInit | OpCode::AssertNonNil
        | OpCode::Uninit | OpCode::Return | OpCode::Swap | OpCode::GetGlobalDyn
        | OpCode::InGlobal | OpCode::Constant | OpCode::GetGlobal | OpCode::Format => short_count(op),
        OpCode::Concat | OpCode::Pick | OpCode::Omit => list_count(code, at, op),
        OpCode::Call | OpCode::CallDyn => call_count(code, at),
        OpCode::Has | OpCode::Get | OpCode::SetKey | OpCode::HasDyn | OpCode::GetDyn
        | OpCode::SetDyn | OpCode::HasIndex | OpCode::GetIndex | OpCode::SetIndex
        | OpCode::Slice | OpCode::SliceStart | OpCode::SliceEnd | OpCode::SliceDyn
        | OpCode::SliceExclusiveDyn => access_count(op),
        _ => 0,
    }
}

/// The opcode at `at`, if its byte names one.
pub open spec fn opcode_at(code: Seq<u8>, at: int) -> Option<OpCode> {
    OpCode::spec_from_code(opcode_byte(code, at).0)
}

/// Whether a record element, whose opcode `op` is at `at`, is well formed:
/// a key (a string constant, a register or an integer) and a value
/// register, or a register to spread.
pub open spec fn record_element_ok(code: Seq<u8>, constants: Seq<ConstantView>, at: int, op: OpCode, scopes: Seq<usize>) -> bool {
    match op {
        OpCode::Field | OpCode::FieldOpt => {
            &&& index_param(code, at, 0, constants.len())
            &&& constants[operand(code, at, 0) as int] is String
            &&& register_param(code, at, 1, scopes)
        },
        OpCode::FieldDyn | OpCode::FieldOptDyn => register_param(code, at, 0, scopes) && register_param(
            code,
            at,
            1,
            scopes,
        ),
        OpCode::FieldIndex | OpCode::FieldOptIndex => has_param(code, at, 0) && register_param(
            code,
            at,
            1,
            scopes,
        ),
        OpCode::Spread => register_param(code, at, 0, scopes),
        _ => false,
    }
}

/// Whether an array element, whose opcode `op` is at `at`, is well formed:
/// an item or spread register, or the two ends of a range.
pub open spec fn array_element_ok(code: Seq<u8>, at: int, op: OpCode, scopes: Seq<usize>) -> bool {
    match op {
        OpCode::Item | OpCode::Spread => register_param(code, at, 0, scopes),
        OpCode::ItemRange => has_param(code, at, 0) && has_param(code, at, 1),
        OpCode::ItemRangeDyn | OpCode::ItemRangeExclusiveDyn => register_param(code, at, 0, scopes)
            && register_param(code, at, 1, scopes),
        _ => false,
    }
}

/// The number of parameters of a record or array element.
pub open spec fn element_count(op: OpCode) -> int {
    match op {
        OpCode::Item | OpCode::Spread => 1,
        _ => 2,
    }
}

/// Where the elements of a record, from `offset` up to and including
/// `Freeze`, end, if they are well formed.
#[verifier::opaque]
pub open spec fn record_elements_end(code: Seq<u8>, constants: Seq<ConstantView>, scopes: Seq<usize>, offset: int) -> Option<int>
    decreases code.len() - offset,
{
    if offset < 0 || offset >= code.len() {
        None
    } else {
        match opcode_at(code, offset) {
            None => None,
            Some(op) => if op == OpCode::Freeze {
                if opcode_byte(code, offset).1 {
                    None
                } else {
                    Some(offset + 1)
                }
            } else if record_element_ok(code, constants, offset, op, scopes) {
                let next = params_end(code, offset, element_count(op));
                if offset < next <= code.len() {
                    record_elements_end(code, constants, scopes, next)
                } else {
                    None
                }
            } else {
                None
            },
        }
    }
}

/// Where the elements of an array, from `offset` up to and including
/// `Freeze`, end, if they are well formed.
#[verifier::opaque]
pub open spec fn array_elements_end(code: Seq<u8>, scopes: Seq<usize>, offset: int) -> Option<int>
    decreases code.len() - offset,
{
    if offset < 0 || offset >= code.len() {
        None
    } else {
        match opcode_at(code, offset) {
            None => None,
            Some(op) => if op == OpCode::Freeze {
                if opcode_byte(code, offset).1 {
                    None
                } else {
                    Some(offset + 1)
                }
            } else if array_element_ok(code, offset, op, scopes) {
                let next = params_end(code, offset, element_count(op));
                if offset < next <= code.len() {
                    array_elements_end(code, scopes, next)
                } else {
                    None
                }
            } else {
                None
            },
        }
    }
}

/// The text of the string constant named by the `k`-th parameter.
pub open spec fn string_param(code: Seq<u8>, constants: Seq<ConstantView>, at: int, k: int) -> Seq<char> {
    constants[operand(code, at, k) as int]->String_0
}

/// Whether an exported field, whose opcode `op` is at `at`, is well formed
/// after the keys `keys` were exported: a string constant not exported
/// before, and a value register.
pub open spec fn module_field_ok(
    code: Seq<u8>,
    constants: Seq<ConstantView>,
    at: int,
    op: OpCode,
    scopes: Seq<usize>,
    keys: Seq<Seq<char>>,
) -> bool {
    &&& op == OpCode::Field
    &&& index_param(code, at, 0, constants.len())
    &&& constants[operand(code, at, 0) as int] is String
    &&& register_param(code, at, 1, scopes)
    &&& !keys.contains(string_param(code, constants, at, 0))
}

/// Where the exported fields of a module, from `offset` up to and
/// including `Freeze`, end, if they are well formed after the keys `keys`.
#[verifier::opaque]
pub open spec fn module_fields_end(
    code: Seq<u8>,
    constants: Seq<ConstantView>,
    scopes: Seq<usize>,
    offset: int,
    keys: Seq<Seq<char>>,
) -> Option<int>
    decreases code.len() - offset,
{
    if offset < 0 || offset >= code.len() {
        None
    } else {
        match opcode_at(code, offset) {
            None => None,
            Some(op) => if op == OpCode::Freeze {
                if opcode_byte(code, offset).1 {
                    None
                } else {
                    Some(offset + 1)
                }
            } else if module_field_ok(code, constants, offset, op, scopes, keys) {
                let next = params_end(code, offset, 2);
                if offset < next <= code.len() {
                    module_fields_end(
                        code,
                        constants,
                        scopes,
                        next,
                        keys.push(string_param(code, constants, offset, 0)),
                    )
                } else {
                    None
                }
            } else {
                None
            },
        }
    }
}

/// Whether an opcode only ends or continues an enclosing construct.
pub open spec fn is_structural_opcode(op: OpCode) -> bool {
    match op {
        OpCode::Else | OpCode::IfEnd | OpCode::LoopEnd | OpCode::FuncEnd | OpCode::Field
        | OpCode::FieldDyn | OpCode::FieldIndex | OpCode::FieldOpt | OpCode::FieldOptDyn
        | OpCode::FieldOptIndex | OpCode::Item | OpCode::ItemRange | OpCode::ItemRangeDyn
        | OpCode::ItemRangeExclusiveDyn | OpCode::Spread | OpCode::Freeze => true,
        _ => false,
    }
}

/// Where a block from `offset` ends, after the terminal among `terminals`
/// that closes it, and that terminal, if every instruction before it is
/// well formed in a scope nested `loops` loops deep.
pub open spec fn block_end(
    code: Seq<u8>,
    constants: Seq<ConstantView>,
    scopes: Seq<usize>,
    loops: nat,
    offset: int,
    terminals: Seq<OpCode>,
) -> Option<(int, OpCode)>
    decreases code.len() - offset, 2int,
{
    if offset < 0 || offset >= code.len() {
        None
    } else {
        match opcode_at(code, offset) {
            None => None,
            Some(op) => if terminals.contains(op) {
                if opcode_byte(code, offset).1 {
                    None
                } else {
                    Some((offset + 1, op))
                }
            } else {
                match instruction_end(code, constants, scopes, loops, offset) {
                    Some(next) => if offset < next <= code.len() {
                        block_end(code, constants, scopes, loops, next, terminals)
                    } else {
                        None
                    },
                    None => None,
                }
            },
        }
    }
}

/// Where the instruction at `at` ends, if it is well formed.
#[verifier::opaque]
pub open spec fn instruction_end(code: Seq<u8>, constants: Seq<ConstantView>, scopes: Seq<usize>, loops: nat, at: int) -> Option<int>
    decreases code.len() - at, 1int,
{
    if at < 0 || at >= code.len() {
        None
    } else {
        match opcode_at(code, at) {
            None => None,
            Some(op) => match op {
                OpCode::Func | OpCode::FuncVarg => function_end(code, constants, scopes, loops, at, false),
                OpCode::If | OpCode::IfNot | OpCode::IfInit | OpCode::IfNotInit | OpCode::IfNil
                | OpCode::IfNotNil => if_end(code, constants, scopes, loops, at),
                OpCode::Loop | OpCode::LoopFor | OpCode::LoopRange | OpCode::LoopRangeExclusive => {
                    loop_end(code, constants, scopes, loops, at, op)
                },
                OpCode::Record => if register_param(code, at, 0, scopes) {
                    record_elements_end(code, constants, scopes, params_end(code, at, 1))
                } else {
                    None
                },
                OpCode::Array => if register_param(code, at, 0, scopes) {
                    array_elements_end(code, scopes, params_end(code, at, 1))
                } else {
                    None
                },
                OpCode::Module => if register_param(code, at, 0, scopes) && index_param(
                    code,
                    at,
                    1,
                    constants.len(),
                ) && constants[operand(code, at, 1) as int] is String {
                    module_fields_end(code, constants, scopes, params_end(code, at, 2), Seq::empty())
                } else {
                    None
                },
                _ => if is_structural_opcode(op) || !simple_ok(code, constants, at, op, scopes, loops) {
                    None
                } else {
                    Some(params_end(code, at, simple_count(code, at, op)))
                },
            },
        }
    }
}

/// Where the function definition at `at` ends, if it is well formed: the
/// destination (register 0 for the root function), an argument count no
/// greater than the register count, and a body up to `FuncEnd` in a scope
/// of that many registers.
#[verifier::opaque]
pub open spec fn function_end(
    code: Seq<u8>,
    constants: Seq<ConstantView>,
    scopes: Seq<usize>,
    loops: nat,
    at: int,
    root: bool,
) -> Option<int>
    decreases code.len() - at, 0int,
{
    if 0 <= at && has_param(code, at, 0) && (if root {
        operand(code, at, 0) == 0
    } else {
        operand(code, at, 0) <= scope_limit(scopes)
    }) && has_param(code, at, 1) && has_param(code, at, 2) && operand(code, at, 1) <= operand(
        code,
        at,
        2,
    ) {
        match block_end(
            code,
            constants,
            scopes.push(operand(code, at, 2) as usize),
            loops,
            params_end(code, at, 3),
            seq![OpCode::FuncEnd],
        ) {
            Some((end, _)) => Some(end),
            None => None,
        }
    } else {
        None
    }
}

/// Where the conditional at `at` ends, if it is well formed: the tested
/// register, a block up to `Else` or `IfEnd`, and after `Else` a block up
/// to `IfEnd`.
#[verifier::opaque]
pub open spec fn if_end(code: Seq<u8>, constants: Seq<ConstantView>, scopes: Seq<usize>, loops: nat, at: int) -> Option<int>
    decreases code.len() - at, 0int,
{
    if 0 <= at && register_param(code, at, 0, scopes) {
        match block_end(
            code,
            constants,
            scopes,
            loops,
            params_end(code, at, 1),
            seq![OpCode::Else, OpCode::IfEnd],
        ) {
            Some((middle, terminal)) => if terminal == OpCode::Else {
                if at < middle <= code.len() {
                    match block_end(code, constants, scopes, loops, middle, seq![OpCode::IfEnd]) {
                        Some((end, _)) => Some(end),
                        None => None,
                    }
                } else {
                    None
                }
            } else {
                Some(middle)
            },
            None => None,
        }
    } else {
        None
    }
}

/// The number of registers a loop of opcode `op` reads before its body.
pub open spec fn loop_reads(op: OpCode) -> int {
    match op {
        OpCode::Loop => 0,
        OpCode::LoopFor => 1,
        _ => 2,
    }
}

/// Where the loop at `at` ends, if it is well formed: the register count of
/// its frame, the registers it reads, and a body up to `LoopEnd` in a scope
/// of its own, one loop deeper.
#[verifier::opaque]
pub open spec fn loop_end(
    code: Seq<u8>,
    constants: Seq<ConstantView>,
    scopes: Seq<usize>,
    loops: nat,
    at: int,
    op: OpCode,
) -> Option<int>
    decreases code.len() - at, 0int,
{
    if 0 <= at && has_param(code, at, 0) && register_params(code, at, 1, loop_reads(op), scopes) && has_param(
        code,
        at,
        loop_reads(op),
    ) {
        match block_end(
            code,
            constants,
            scopes.push(operand(code, at, 0) as usize),
            loops + 1,
            params_end(code, at, 1 + loop_reads(op)),
            seq![OpCode::LoopEnd],
        ) {
            Some((end, _)) => Some(end),
            None => None,
        }
    } else {
        None
    }
}

/// A byte names an opcode exactly when it is below the opcode count, and
/// then the opcode's own byte is that byte.
pub proof fn lemma_opcode_at(code: Seq<u8>, at: int)
    requires
        0 <= at < code.len(),
    ensures
        opcode_byte(code, at).0 >= OPCODE_COUNT ==> opcode_at(code, at) is None,
{
}

/// What the instruction at `at` decodes to, by the kind of its opcode.
pub proof fn lemma_instruction_end(
    code: Seq<u8>,
    constants: Seq<ConstantView>,
    scopes: Seq<usize>,
    loops: nat,
    at: int,
    op: OpCode,
)
    requires
        0 <= at < code.len(),
        opcode_at(code, at) == Some(op),
    ensures
        op == OpCode::Func || op == OpCode::FuncVarg ==> instruction_end(code, constants, scopes, loops, at)
            == function_end(code, constants, scopes, loops, at, false),
        op == OpCode::If || op == OpCode::IfNot || op == OpCode::IfInit || op == OpCode::IfNotInit
            || op == OpCode::IfNil || op == OpCode::IfNotNil ==> instruction_end(code, constants, scopes, loops, at)
            == if_end(code, constants, scopes, loops, at),
        op == OpCode::Loop || op == OpCode::LoopFor || op == OpCode::LoopRange || op
            == OpCode::LoopRangeExclusive ==> instruction_end(code, constants, scopes, loops, at) == loop_end(
            code,
            constants,
            scopes,
            loops,
            at,
            op,
        ),
        op == OpCode::Record ==> instruction_end(code, constants, scopes, loops, at) == if register_param(
            code,
            at,
            0,
            scopes,
        ) {
            record_elements_end(code, constants, scopes, params_end(code, at, 1))
        } else {
            None
        },
        op == OpCode::Array ==> instruction_end(code, constants, scopes, loops, at) == if register_param(
            code,
            at,
            0,
            scopes,
        ) {
            array_elements_end(code, scopes, params_end(code, at, 1))
        } else {
            None
        },
        op == OpCode::Module ==> instruction_end(code, constants, scopes, loops, at) == if register_param(
            code,
            at,
            0,
            scopes,
        ) && index_param(code, at, 1, constants.len()) && constants[operand(code, at, 1) as int] is String {
            module_fields_end(code, constants, scopes, params_end(code, at, 2), Seq::empty())
        } else {
            None
        },
        is_structural_opcode(op) ==> instruction_end(code, constants, scopes, loops, at) is None,
        !is_structural_opcode(op) && !(op == OpCode::Func || op == OpCode::FuncVarg || op == OpCode::If
            || op == OpCode::IfNot || op == OpCode::IfInit || op == OpCode::IfNotInit || op == OpCode::IfNil
            || op == OpCode::IfNotNil || op == OpCode::Loop || op == OpCode::LoopFor || op == OpCode::LoopRange
            || op == OpCode::LoopRangeExclusive || op == OpCode::Record || op == OpCode::Array || op
            == OpCode::Module) ==> instruction_end(code, constants, scopes, loops, at) == if simple_ok(
            code,
            constants,
            at,
            op,
            scopes,
            loops,
        ) {
            Some(params_end(code, at, simple_count(code, at, op)))
        } else {
            None
        },
{
    reveal(instruction_end);
    reveal(function_end);
    reveal(if_end);
    reveal(loop_end);
    match op {
        OpCode::Func | OpCode::FuncVarg => {
            assert(instruction_end(code, constants, scopes, loops, at) == function_end(code, constants, scopes, loops, at, false));
        },
        OpCode::If | OpCode::IfNot | OpCode::IfInit | OpCode::IfNotInit | OpCode::IfNil | OpCode::IfNotNil => {
            assert(instruction_end(code, constants, scopes, loops, at) == if_end(code, constants, scopes, loops, at));
        },
        OpCode::Loop | OpCode::LoopFor | OpCode::LoopRange | OpCode::LoopRangeExclusive => {
            assert(instruction_end(code, constants, scopes, loops, at) == loop_end(code, constants, scopes, loops, at, op));
        },
        _ => {},
    }
}

/// Where a sequence of instructions that starts at `start` ends, when each
/// instruction starts where the one before it ends: the offset after the
/// last one, or `start` for none.
pub open spec fn chain_end(
    code: Seq<u8>,
    constants: Seq<ConstantView>,
    scopes: Seq<usize>,
    loops: nat,
    body: Seq<Instruction>,
    start: int,
) -> Option<int>
    decreases body.len(),
{
    if body.len() == 0 {
        Some(start)
    } else {
        match chain_end(code, constants, scopes, loops, body.drop_last(), start) {
            Some(offset) => if body.last().offset == offset {
                instruction_end(code, constants, scopes, loops, offset)
            } else {
                None
            },
            None => None,
        }
    }
}

/// Whether `body` is every instruction from `start` up to a terminal among
/// `terminals`, in code order, each starting where the one before it ends.
pub open spec fn spans(
    code: Seq<u8>,
    constants: Seq<ConstantView>,
    scopes: Seq<usize>,
    loops: nat,
    body: Seq<Instruction>,
    start: int,
    terminals: Seq<OpCode>,
) -> bool {
    match chain_end(code, constants, scopes, loops, body, start) {
        Some(end) => 0 <= end < code.len() && match opcode_at(code, end) {
            Some(op) => terminals.contains(op),
            None => false,
        },
        None => false,
    }
}

/// Whether a record element is the one encoded at `at` with opcode `op`.
pub open spec fn record_element_at(code: Seq<u8>, constants: Seq<ConstantView>, at: int, op: OpCode, element: RecordElement) -> bool {
    match element {
        RecordElement::Field { key, value, optional } => {
            &&& value.0 == operand(code, at, 1)
            &&& match key {
                RecordKey::Constant(text) => {
                    &&& (op == OpCode::Field || op == OpCode::FieldOpt)
                    &&& optional == (op == OpCode::FieldOpt)
                    &&& operand(code, at, 0) < constants.len()
                    &&& constants[operand(code, at, 0) as int] == ConstantView::String(text@)
                },
                RecordKey::Dynamic(register) => {
                    &&& (op == OpCode::FieldDyn || op == OpCode::FieldOptDyn)
                    &&& optional == (op == OpCode::FieldOptDyn)
                    &&& register.0 == operand(code, at, 0)
                },
                RecordKey::Index(index) => {
                    &&& (op == OpCode::FieldIndex || op == OpCode::FieldOptIndex)
                    &&& optional == (op == OpCode::FieldOptIndex)
                    &&& index == signed_operand(code, at, 0)
                },
            }
        },
        RecordElement::Spread(register) => op == OpCode::Spread && register.0 == operand(code, at, 0),
    }
}

/// Where the encodings of `elements`, one after another from `start`, end.
pub open spec fn record_elements_span(code: Seq<u8>, constants: Seq<ConstantView>, elements: Seq<RecordElement>, start: int) -> Option<int>
    decreases elements.len(),
{
    if elements.len() == 0 {
        Some(start)
    } else {
        match record_elements_span(code, constants, elements.drop_last(), start) {
            Some(offset) => match opcode_at(code, offset) {
                Some(op) => if 0 <= offset < code.len() && record_element_at(code, constants, offset, op, elements.last()) {
                    Some(params_end(code, offset, element_count(op)))
                } else {
                    None
                },
                None => None,
            },
            None => None,
        }
    }
}

/// Whether an array element is the one encoded at `at` with opcode `op`.
pub open spec fn array_element_at(code: Seq<u8>, at: int, op: OpCode, element: ArrayElement) -> bool {
    match element {
        ArrayElement::Item(register) => op == OpCode::Item && register.0 == operand(code, at, 0),
        ArrayElement::Spread(register) => op == OpCode::Spread && register.0 == operand(code, at, 0),
        ArrayElement::Range { start, end, exclusive } => match (start, end) {
            (RangeEndpoint::Constant(first), RangeEndpoint::Constant(last)) => {
                &&& op == OpCode::ItemRange
                &&& !exclusive
                &&& first == signed_operand(code, at, 0)
                &&& last == signed_operand(code, at, 1)
            },
            (RangeEndpoint::Dynamic(first), RangeEndpoint::Dynamic(last)) => {
                &&& (op == OpCode::ItemRangeDyn || op == OpCode::ItemRangeExclusiveDyn)
                &&& exclusive == (op == OpCode::ItemRangeExclusiveDyn)
                &&& first.0 == operand(code, at, 0)
                &&& last.0 == operand(code, at, 1)
            },
            _ => false,
        },
    }
}

/// Where the encodings of array `elements`, one after another from
/// `start`, end.
pub open spec fn array_elements_span(code: Seq<u8>, elements: Seq<ArrayElement>, start: int) -> Option<int>
    decreases elements.len(),
{
    if elements.len() == 0 {
        Some(start)
    } else {
        match array_elements_span(code, elements.drop_last(), start) {
            Some(offset) => match opcode_at(code, offset) {
                Some(op) => if 0 <= offset < code.len() && array_element_at(code, offset, op, elements.last()) {
                    Some(params_end(code, offset, element_count(op)))
                } else {
                    None
                },
                None => None,
            },
            None => None,
        }
    }
}

/// Where the encodings of exported `fields` (key and value register), one
/// after another from `start`, end.
pub open spec fn module_fields_span(
    code: Seq<u8>,
    constants: Seq<ConstantView>,
    fields: Seq<(String, RegisterId)>,
    start: int,
) -> Option<int>
    decreases fields.len(),
{
    if fields.len() == 0 {
        Some(start)
    } else {
        match module_fields_span(code, constants, fields.drop_last(), start) {
            Some(offset) => if 0 <= offset < code.len() && opcode_at(code, offset) == Some(OpCode::Field)
                && operand(code, offset, 0) < constants.len() && constants[operand(code, offset, 0) as int]
                == ConstantView::String(fields.last().0@) && fields.last().1.0 == operand(code, offset, 1) {
                Some(params_end(code, offset, 2))
            } else {
                None
            },
            None => None,
        }
    }
}

/// Whether a list of elements runs from `start` up to a `Freeze`.
pub open spec fn ends_at_freeze(code: Seq<u8>, span: Option<int>) -> bool {
    match span {
        Some(end) => 0 <= end < code.len() && opcode_at(code, end) == Some(OpCode::Freeze),
        None => false,
    }
}

/// Whether an opcode is that of a simple operation.
pub open spec fn is_simple_opcode(op: OpCode) -> bool {
    match op {
        OpCode::Noop | OpCode::Break | OpCode::Continue | OpCode::Add | OpCode::Sub | OpCode::Mul
        | OpCode::Div | OpCode::Mod | OpCode::Pow | OpCode::Eq | OpCode::Neq | OpCode::Lt | OpCode::Lte
        | OpCode::Gt | OpCode::Gte | OpCode::Aeq | OpCode::Naeq | OpCode::Same | OpCode::Nsame
        | OpCode::In | OpCode::And | OpCode::Or | OpCode::Pos | OpCode::Neg | OpCode::Not | OpCode::Plus
        | OpCode::Type | OpCode::ToBoolean | OpCode::ToNumber | OpCode::ToString | OpCode::IsBoolean
        | OpCode::IsNumber | OpCode::IsString | OpCode::IsRecord | OpCode::IsArray | OpCode::Assign
        | OpCode::Length | OpCode::AssertInit | OpCode::AssertNonNil | OpCode::Uninit | OpCode::Return
        | OpCode::Swap | OpCode::GetGlobalDyn | OpCode::InGlobal | OpCode::Constant | OpCode::GetGlobal
        | OpCode::Format | OpCode::GetUpvalue | OpCode::SetUpvalue | OpCode::Concat | OpCode::Pick
        | OpCode::Omit | OpCode::Call | OpCode::CallDyn | OpCode::Has | OpCode::Get | OpCode::SetKey
        | OpCode::HasDyn | OpCode::GetDyn | OpCode::SetDyn | OpCode::HasIndex | OpCode::GetIndex
        | OpCode::SetIndex | OpCode::Slice | OpCode::SliceStart | OpCode::SliceEnd | OpCode::SliceDyn
        | OpCode::SliceExclusiveDyn => true,
        _ => false,
    }
}

/// Whether the upvalue level, the second parameter of the instruction at
/// `at`, names no enclosing scope, the tested register being well formed.
pub open spec fn bad_upvalue_level(code: Seq<u8>, at: int, scopes: Seq<usize>) -> bool {
    &&& register_param(code, at, 0, scopes)
    &&& has_param(code, at, 1)
    &&& !(1 <= operand(code, at, 1) < scopes.len())
}

/// Whether the exported field at `at` is well formed apart from its key
/// having been exported before.
pub open spec fn module_field_shape_ok(code: Seq<u8>, constants: Seq<ConstantView>, at: int, op: OpCode, scopes: Seq<usize>) -> bool {
    &&& op == OpCode::Field
    &&& index_param(code, at, 0, constants.len())
    &&& constants[operand(code, at, 0) as int] is String
    &&& register_param(code, at, 1, scopes)
}

/// The offset and key of the first exported field, from `offset` on, whose
/// key was exported before (after the keys `keys`), if the fields before
/// it are well formed.
pub open spec fn module_duplicate(
    code: Seq<u8>,
    constants: Seq<ConstantView>,
    scopes: Seq<usize>,
    offset: int,
    keys: Seq<Seq<char>>,
) -> Option<(int, Seq<char>)>
    decreases code.len() - offset,
{
    if offset < 0 || offset >= code.len() {
        None
    } else {
        match opcode_at(code, offset) {
            None => None,
            Some(op) => if module_field_shape_ok(code, constants, offset, op, scopes) {
                let key = string_param(code, constants, offset, 0);
                if keys.contains(key) {
                    Some((offset, key))
                } else {
                    let next = params_end(code, offset, 2);
                    if offset < next <= code.len() {
                        module_duplicate(code, constants, scopes, next, keys.push(key))
                    } else {
                        None
                    }
                }
            } else {
                None
            },
        }
    }
}

} // verus!

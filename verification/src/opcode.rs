//! Operation codes of the MiraScript bytecode.
use vstd::prelude::*;

use crate::constants::{as_i32, le_value};

verus! {

/// The operation codes of MiraScript bytecode, in the order in which
/// `mirascript-core` numbers them: an opcode's byte is its position here.
#[derive(Clone, Copy, Debug, PartialEq, Eq, Structural)]
pub enum OpCode {
    /// `NOOP`
    Noop,
    /// `ADD %ret %1 %2`
    Add,
    /// `SUB %ret %1 %2`
    Sub,
    /// `MUL %ret %1 %2`
    Mul,
    /// `DIV %ret %1 %2`
    Div,
    /// `MOD %ret %1 %2`
    Mod,
    /// `EXP %ret %1 %2`
    Pow,
    /// `POS %ret %1`
    Pos,
    /// `NEG %ret %1`
    Neg,
    /// `NOT %ret %1`
    Not,
    /// `PLUS %ret %1`
    Plus,
    /// `EQ %ret %1 %2`
    Eq,
    /// `NEQ %ret %1 %2`
    Neq,
    /// `LT %ret %1 %2`
    Lt,
    /// `LTE %ret %1 %2`
    Lte,
    /// `GT %ret %1 %2`
    Gt,
    /// `GTE %ret %1 %2`
    Gte,
    /// `AEQ %ret %1 %2`
    Aeq,
    /// `NAEQ %ret %1 %2`
    Naeq,
    /// `SAME %ret %1 %2`
    Same,
    /// `Nsame %ret %1 %2`
    Nsame,
    /// `IN %ret %1 %2`
    In,
    /// `IN_GLOBAL %ret %1 %2`
    InGlobal,
    /// `CONCAT %ret `n` %1 %2 ... %n`
    Concat,
    /// `FORMAT %ret %1 `index``
    Format,
    /// `AND %ret %1 %2`
    And,
    /// `OR %ret %1 %2`
    Or,
    /// `ASSERT_INIT %v`
    AssertInit,
    /// `ASSERT_NON_NIL %v`
    AssertNonNil,
    /// `TYPE %ret %1`
    Type,
    /// `TO_BOOLEAN %ret %1`
    ToBoolean,
    /// `TO_NUMBER %ret %1`
    ToNumber,
    /// `TO_STRING %ret %1`
    ToString,
    /// `IS_BOOLEAN %ret %1`
    IsBoolean,
    /// `IS_NUMBER %ret %1`
    IsNumber,
    /// `IS_STRING %ret %1`
    IsString,
    /// `IS_RECORD %ret %1`
    IsRecord,
    /// `IS_ARRAY %ret %1`
    IsArray,
    /// `CONSTANT %reg `index``
    Constant,
    /// `UNINIT %reg`
    Uninit,
    /// `ASSIGN %ret %1`
    Assign,
    /// `SWAP %1 %2`
    Swap,
    /// `GET_UPVALUE %ret `level` %%up`
    GetUpvalue,
    /// `SET_UPVALUE %value `level` %%up`
    SetUpvalue,
    /// `GET_GLOBAL %ret `name``
    GetGlobal,
    /// `GET_GLOBAL_DYN %ret %name`
    GetGlobalDyn,
    /// `RECORD %ret`
    Record,
    /// `MODULE %ret `name``
    Module,
    /// `FIELD `name` %field`
    Field,
    /// `FIELD_DYN %name %field`
    FieldDyn,
    /// `FIELD_INDEX `index` %field`
    FieldIndex,
    /// `FIELD_OPT `name` %field`
    FieldOpt,
    /// `FIELD_OPT_DYN %name %field`
    FieldOptDyn,
    /// `FIELD_OPT_INDEX `index` %field`
    FieldOptIndex,
    /// `PICK %ret %var `n` `key_1` `key_2` ... `key_n``
    Pick,
    /// `OMIT %ret %var `n` `key_1` `key_2` ... `key_n``
    Omit,
    /// `ARRAY %ret`
    Array,
    /// `ITEM %item`
    Item,
    /// `ITEM_RANGE `start` `end``
    ItemRange,
    /// `ITEM_RANGE_DYN %start %end`
    ItemRangeDyn,
    /// `ITEM_RANGE_EXCLUSIVE_DYN %start %end`
    ItemRangeExclusiveDyn,
    /// `SPREAD %var`
    Spread,
    /// `FREEZE`
    Freeze,
    /// `HAS %ret %var `key``
    Has,
    /// `HAS_DYN %ret %var %key`
    HasDyn,
    /// `HAS_INDEX %ret %var `index``
    HasIndex,
    /// `GET %ret %var `key``
    Get,
    /// `GET_DYN %ret %var %key`
    GetDyn,
    /// `GET_INDEX %ret %var `index``
    GetIndex,
    /// `SET %value %var `key``
    SetKey,
    /// `SET_DYN %value %var %key`
    SetDyn,
    /// `SET_INDEX %value %var `index``
    SetIndex,
    /// `SLICE %ret %var `start` `end``
    Slice,
    /// `SLICE_START %ret %var `end``
    SliceStart,
    /// `SLICE_END %ret %var `start``
    SliceEnd,
    /// `SLICE_DYN %ret %var %start %end`
    SliceDyn,
    /// `SLICE_EXCLUSIVE_DYN %ret %var %start %end`
    SliceExclusiveDyn,
    /// `LENGTH %ret %var`
    Length,
    /// `LOOP `regn``
    Loop,
    /// `LOOP_FOR `regn` %iterable`
    LoopFor,
    /// `LOOP_RANGE `regn` %start %end`
    LoopRange,
    /// `LOOP_RANGE_EXCLUSIVE `regn` %start %end`
    LoopRangeExclusive,
    /// `LOOP_END`
    LoopEnd,
    /// `BREAK`
    Break,
    /// `CONTINUE`
    Continue,
    /// `IF %cond`
    If,
    /// `IF_NOT %cond`
    IfNot,
    /// `IF_INIT %var`
    IfInit,
    /// `IF_NOT_INIT %var`
    IfNotInit,
    /// `IF_NIL %var`
    IfNil,
    /// `IF_NOT_NIL %var`
    IfNotNil,
    /// `ELSE`
    Else,
    /// `IF_END`
    IfEnd,
    /// `FUNC %f `argn` `regn``
    Func,
    /// `FUNC_VARG %f `argn` `regn``
    FuncVarg,
    /// `FUNC_END`
    FuncEnd,
    /// `RETURN %value`
    Return,
    /// `CALL %ret `f` `argn` %1 %2 ... %argn `spread_n` `spread_arg_a` ...`
    Call,
    /// `CALL_DYN %ret %f `argn` %1 %2 ... %argn `spread_n` `spread_arg_a` ...`
    CallDyn,
}

/// Number of defined operation codes; valid opcode bytes are `0..OPCODE_COUNT`.
pub const OPCODE_COUNT: u8 = 99;

/// The bit that marks an instruction whose parameters are four bytes wide.
pub const WIDE_MASK: u8 = 0x80;

impl OpCode {
    /// The byte that encodes this opcode (without the wide bit).
    pub open spec fn spec_code(self) -> u8 {
        match self {
            OpCode::Noop => 0,
            OpCode::Add => 1,
            OpCode::Sub => 2,
            OpCode::Mul => 3,
            OpCode::Div => 4,
            OpCode::Mod => 5,
            OpCode::Pow => 6,
            OpCode::Pos => 7,
            OpCode::Neg => 8,
            OpCode::Not => 9,
            OpCode::Plus => 10,
            OpCode::Eq => 11,
            OpCode::Neq => 12,
            OpCode::Lt => 13,
            OpCode::Lte => 14,
            OpCode::Gt => 15,
            OpCode::Gte => 16,
            OpCode::Aeq => 17,
            OpCode::Naeq => 18,
            OpCode::Same => 19,
            OpCode::Nsame => 20,
            OpCode::In => 21,
            OpCode::InGlobal => 22,
            OpCode::Concat => 23,
            OpCode::Format => 24,
            OpCode::And => 25,
            OpCode::Or => 26,
            OpCode::AssertInit => 27,
            OpCode::AssertNonNil => 28,
            OpCode::Type => 29,
            OpCode::ToBoolean => 30,
            OpCode::ToNumber => 31,
            OpCode::ToString => 32,
            OpCode::IsBoolean => 33,
            OpCode::IsNumber => 34,
            OpCode::IsString => 35,
            OpCode::IsRecord => 36,
            OpCode::IsArray => 37,
            OpCode::Constant => 38,
            OpCode::Uninit => 39,
            OpCode::Assign => 40,
            OpCode::Swap => 41,
            OpCode::GetUpvalue => 42,
            OpCode::SetUpvalue => 43,
            OpCode::GetGlobal => 44,
            OpCode::GetGlobalDyn => 45,
            OpCode::Record => 46,
            OpCode::Module => 47,
            OpCode::Field => 48,
            OpCode::FieldDyn => 49,
            OpCode::FieldIndex => 50,
            OpCode::FieldOpt => 51,
            OpCode::FieldOptDyn => 52,
            OpCode::FieldOptIndex => 53,
            OpCode::Pick => 54,
            OpCode::Omit => 55,
            OpCode::Array => 56,
            OpCode::Item => 57,
            OpCode::ItemRange => 58,
            OpCode::ItemRangeDyn => 59,
            OpCode::ItemRangeExclusiveDyn => 60,
            OpCode::Spread => 61,
            OpCode::Freeze => 62,
            OpCode::Has => 63,
            OpCode::HasDyn => 64,
            OpCode::HasIndex => 65,
            OpCode::Get => 66,
            OpCode::GetDyn => 67,
            OpCode::GetIndex => 68,
            OpCode::SetKey => 69,
            OpCode::SetDyn => 70,
            OpCode::SetIndex => 71,
            OpCode::Slice => 72,
            OpCode::SliceStart => 73,
            OpCode::SliceEnd => 74,
            OpCode::SliceDyn => 75,
            OpCode::SliceExclusiveDyn => 76,
            OpCode::Length => 77,
            OpCode::Loop => 78,
            OpCode::LoopFor => 79,
            OpCode::LoopRange => 80,
            OpCode::LoopRangeExclusive => 81,
            OpCode::LoopEnd => 82,
            OpCode::Break => 83,
            OpCode::Continue => 84,
            OpCode::If => 85,
            OpCode::IfNot => 86,
            OpCode::IfInit => 87,
            OpCode::IfNotInit => 88,
            OpCode::IfNil => 89,
            OpCode::IfNotNil => 90,
            OpCode::Else => 91,
            OpCode::IfEnd => 92,
            OpCode::Func => 93,
            OpCode::FuncVarg => 94,
            OpCode::FuncEnd => 95,
            OpCode::Return => 96,
            OpCode::Call => 97,
            OpCode::CallDyn => 98,
        }
    }

    /// The byte that encodes this opcode (without the wide bit).
    #[verifier::when_used_as_spec(spec_code)]
    pub fn code(self) -> (r: u8)
        ensures
            r == self.spec_code(),
    {
        match self {
            OpCode::Noop => 0,
            OpCode::Add => 1,
            OpCode::Sub => 2,
            OpCode::Mul => 3,
            OpCode::Div => 4,
            OpCode::Mod => 5,
            OpCode::Pow => 6,
            OpCode::Pos => 7,
            OpCode::Neg => 8,
            OpCode::Not => 9,
            OpCode::Plus => 10,
            OpCode::Eq => 11,
            OpCode::Neq => 12,
            OpCode::Lt => 13,
            OpCode::Lte => 14,
            OpCode::Gt => 15,
            OpCode::Gte => 16,
            OpCode::Aeq => 17,
            OpCode::Naeq => 18,
            OpCode::Same => 19,
            OpCode::Nsame => 20,
            OpCode::In => 21,
            OpCode::InGlobal => 22,
            OpCode::Concat => 23,
            OpCode::Format => 24,
            OpCode::And => 25,
            OpCode::Or => 26,
            OpCode::AssertInit => 27,
            OpCode::AssertNonNil => 28,
            OpCode::Type => 29,
            OpCode::ToBoolean => 30,
            OpCode::ToNumber => 31,
            OpCode::ToString => 32,
            OpCode::IsBoolean => 33,
            OpCode::IsNumber => 34,
            OpCode::IsString => 35,
            OpCode::IsRecord => 36,
            OpCode::IsArray => 37,
            OpCode::Constant => 38,
            OpCode::Uninit => 39,
            OpCode::Assign => 40,
            OpCode::Swap => 41,
            OpCode::GetUpvalue => 42,
            OpCode::SetUpvalue => 43,
            OpCode::GetGlobal => 44,
            OpCode::GetGlobalDyn => 45,
            OpCode::Record => 46,
            OpCode::Module => 47,
            OpCode::Field => 48,
            OpCode::FieldDyn => 49,
            OpCode::FieldIndex => 50,
            OpCode::FieldOpt => 51,
            OpCode::FieldOptDyn => 52,
            OpCode::FieldOptIndex => 53,
            OpCode::Pick => 54,
            OpCode::Omit => 55,
            OpCode::Array => 56,
            OpCode::Item => 57,
            OpCode::ItemRange => 58,
            OpCode::ItemRangeDyn => 59,
            OpCode::ItemRangeExclusiveDyn => 60,
            OpCode::Spread => 61,
            OpCode::Freeze => 62,
            OpCode::Has => 63,
            OpCode::HasDyn => 64,
            OpCode::HasIndex => 65,
            OpCode::Get => 66,
            OpCode::GetDyn => 67,
            OpCode::GetIndex => 68,
            OpCode::SetKey => 69,
            OpCode::SetDyn => 70,
            OpCode::SetIndex => 71,
            OpCode::Slice => 72,
            OpCode::SliceStart => 73,
            OpCode::SliceEnd => 74,
            OpCode::SliceDyn => 75,
            OpCode::SliceExclusiveDyn => 76,
            OpCode::Length => 77,
            OpCode::Loop => 78,
            OpCode::LoopFor => 79,
            OpCode::LoopRange => 80,
            OpCode::LoopRangeExclusive => 81,
            OpCode::LoopEnd => 82,
            OpCode::Break => 83,
            OpCode::Continue => 84,
            OpCode::If => 85,
            OpCode::IfNot => 86,
            OpCode::IfInit => 87,
            OpCode::IfNotInit => 88,
            OpCode::IfNil => 89,
            OpCode::IfNotNil => 90,
            OpCode::Else => 91,
            OpCode::IfEnd => 92,
            OpCode::Func => 93,
            OpCode::FuncVarg => 94,
            OpCode::FuncEnd => 95,
            OpCode::Return => 96,
            OpCode::Call => 97,
            OpCode::CallDyn => 98,
        }
    }

    /// The opcode that a byte (without the wide bit) encodes, if any.
    pub open spec fn spec_from_code(code: u8) -> Option<OpCode> {
        match code {
            0 => Some(OpCode::Noop),
            1 => Some(OpCode::Add),
            2 => Some(OpCode::Sub),
            3 => Some(OpCode::Mul),
            4 => Some(OpCode::Div),
            5 => Some(OpCode::Mod),
            6 => Some(OpCode::Pow),
            7 => Some(OpCode::Pos),
            8 => Some(OpCode::Neg),
            9 => Some(OpCode::Not),
            10 => Some(OpCode::Plus),
            11 => Some(OpCode::Eq),
            12 => Some(OpCode::Neq),
            13 => Some(OpCode::Lt),
            14 => Some(OpCode::Lte),
            15 => Some(OpCode::Gt),
            16 => Some(OpCode::Gte),
            17 => Some(OpCode::Aeq),
            18 => Some(OpCode::Naeq),
            19 => Some(OpCode::Same),
            20 => Some(OpCode::Nsame),
            21 => Some(OpCode::In),
            22 => Some(OpCode::InGlobal),
            23 => Some(OpCode::Concat),
            24 => Some(OpCode::Format),
            25 => Some(OpCode::And),
            26 => Some(OpCode::Or),
            27 => Some(OpCode::AssertInit),
            28 => Some(OpCode::AssertNonNil),
            29 => Some(OpCode::Type),
            30 => Some(OpCode::ToBoolean),
            31 => Some(OpCode::ToNumber),
            32 => Some(OpCode::ToString),
            33 => Some(OpCode::IsBoolean),
            34 => Some(OpCode::IsNumber),
            35 => Some(OpCode::IsString),
            36 => Some(OpCode::IsRecord),
            37 => Some(OpCode::IsArray),
            38 => Some(OpCode::Constant),
            39 => Some(OpCode::Uninit),
            40 => Some(OpCode::Assign),
            41 => Some(OpCode::Swap),
            42 => Some(OpCode::GetUpvalue),
            43 => Some(OpCode::SetUpvalue),
            44 => Some(OpCode::GetGlobal),
            45 => Some(OpCode::GetGlobalDyn),
            46 => Some(OpCode::Record),
            47 => Some(OpCode::Module),
            48 => Some(OpCode::Field),
            49 => Some(OpCode::FieldDyn),
            50 => Some(OpCode::FieldIndex),
            51 => Some(OpCode::FieldOpt),
            52 => Some(OpCode::FieldOptDyn),
            53 => Some(OpCode::FieldOptIndex),
            54 => Some(OpCode::Pick),
            55 => Some(OpCode::Omit),
            56 => Some(OpCode::Array),
            57 => Some(OpCode::Item),
            58 => Some(OpCode::ItemRange),
            59 => Some(OpCode::ItemRangeDyn),
            60 => Some(OpCode::ItemRangeExclusiveDyn),
            61 => Some(OpCode::Spread),
            62 => Some(OpCode::Freeze),
            63 => Some(OpCode::Has),
            64 => Some(OpCode::HasDyn),
            65 => Some(OpCode::HasIndex),
            66 => Some(OpCode::Get),
            67 => Some(OpCode::GetDyn),
            68 => Some(OpCode::GetIndex),
            69 => Some(OpCode::SetKey),
            70 => Some(OpCode::SetDyn),
            71 => Some(OpCode::SetIndex),
            72 => Some(OpCode::Slice),
            73 => Some(OpCode::SliceStart),
            74 => Some(OpCode::SliceEnd),
            75 => Some(OpCode::SliceDyn),
            76 => Some(OpCode::SliceExclusiveDyn),
            77 => Some(OpCode::Length),
            78 => Some(OpCode::Loop),
            79 => Some(OpCode::LoopFor),
            80 => Some(OpCode::LoopRange),
            81 => Some(OpCode::LoopRangeExclusive),
            82 => Some(OpCode::LoopEnd),
            83 => Some(OpCode::Break),
            84 => Some(OpCode::Continue),
            85 => Some(OpCode::If),
            86 => Some(OpCode::IfNot),
            87 => Some(OpCode::IfInit),
            88 => Some(OpCode::IfNotInit),
            89 => Some(OpCode::IfNil),
            90 => Some(OpCode::IfNotNil),
            91 => Some(OpCode::Else),
            92 => Some(OpCode::IfEnd),
            93 => Some(OpCode::Func),
            94 => Some(OpCode::FuncVarg),
            95 => Some(OpCode::FuncEnd),
            96 => Some(OpCode::Return),
            97 => Some(OpCode::Call),
            98 => Some(OpCode::CallDyn),
            _ => None,
        }
    }

    /// The opcode that a byte (without the wide bit) encodes, if any.
    pub fn from_code(code: u8) -> (r: Option<OpCode>)
        ensures
            r == Self::spec_from_code(code),
            r is Some <==> code < OPCODE_COUNT,
            r matches Some(op) ==> op.spec_code() == code,
    {
        match code {
            0 => Some(OpCode::Noop),
            1 => Some(OpCode::Add),
            2 => Some(OpCode::Sub),
            3 => Some(OpCode::Mul),
            4 => Some(OpCode::Div),
            5 => Some(OpCode::Mod),
            6 => Some(OpCode::Pow),
            7 => Some(OpCode::Pos),
            8 => Some(OpCode::Neg),
            9 => Some(OpCode::Not),
            10 => Some(OpCode::Plus),
            11 => Some(OpCode::Eq),
            12 => Some(OpCode::Neq),
            13 => Some(OpCode::Lt),
            14 => Some(OpCode::Lte),
            15 => Some(OpCode::Gt),
            16 => Some(OpCode::Gte),
            17 => Some(OpCode::Aeq),
            18 => Some(OpCode::Naeq),
            19 => Some(OpCode::Same),
            20 => Some(OpCode::Nsame),
            21 => Some(OpCode::In),
            22 => Some(OpCode::InGlobal),
            23 => Some(OpCode::Concat),
            24 => Some(OpCode::Format),
            25 => Some(OpCode::And),
            26 => Some(OpCode::Or),
            27 => Some(OpCode::AssertInit),
            28 => Some(OpCode::AssertNonNil),
            29 => Some(OpCode::Type),
            30 => Some(OpCode::ToBoolean),
            31 => Some(OpCode::ToNumber),
            32 => Some(OpCode::ToString),
            33 => Some(OpCode::IsBoolean),
            34 => Some(OpCode::IsNumber),
            35 => Some(OpCode::IsString),
            36 => Some(OpCode::IsRecord),
            37 => Some(OpCode::IsArray),
            38 => Some(OpCode::Constant),
            39 => Some(OpCode::Uninit),
            40 => Some(OpCode::Assign),
            41 => Some(OpCode::Swap),
            42 => Some(OpCode::GetUpvalue),
            43 => Some(OpCode::SetUpvalue),
            44 => Some(OpCode::GetGlobal),
            45 => Some(OpCode::GetGlobalDyn),
            46 => Some(OpCode::Record),
            47 => Some(OpCode::Module),
            48 => Some(OpCode::Field),
            49 => Some(OpCode::FieldDyn),
            50 => Some(OpCode::FieldIndex),
            51 => Some(OpCode::FieldOpt),
            52 => Some(OpCode::FieldOptDyn),
            53 => Some(OpCode::FieldOptIndex),
            54 => Some(OpCode::Pick),
            55 => Some(OpCode::Omit),
            56 => Some(OpCode::Array),
            57 => Some(OpCode::Item),
            58 => Some(OpCode::ItemRange),
            59 => Some(OpCode::ItemRangeDyn),
            60 => Some(OpCode::ItemRangeExclusiveDyn),
            61 => Some(OpCode::Spread),
            62 => Some(OpCode::Freeze),
            63 => Some(OpCode::Has),
            64 => Some(OpCode::HasDyn),
            65 => Some(OpCode::HasIndex),
            66 => Some(OpCode::Get),
            67 => Some(OpCode::GetDyn),
            68 => Some(OpCode::GetIndex),
            69 => Some(OpCode::SetKey),
            70 => Some(OpCode::SetDyn),
            71 => Some(OpCode::SetIndex),
            72 => Some(OpCode::Slice),
            73 => Some(OpCode::SliceStart),
            74 => Some(OpCode::SliceEnd),
            75 => Some(OpCode::SliceDyn),
            76 => Some(OpCode::SliceExclusiveDyn),
            77 => Some(OpCode::Length),
            78 => Some(OpCode::Loop),
            79 => Some(OpCode::LoopFor),
            80 => Some(OpCode::LoopRange),
            81 => Some(OpCode::LoopRangeExclusive),
            82 => Some(OpCode::LoopEnd),
            83 => Some(OpCode::Break),
            84 => Some(OpCode::Continue),
            85 => Some(OpCode::If),
            86 => Some(OpCode::IfNot),
            87 => Some(OpCode::IfInit),
            88 => Some(OpCode::IfNotInit),
            89 => Some(OpCode::IfNil),
            90 => Some(OpCode::IfNotNil),
            91 => Some(OpCode::Else),
            92 => Some(OpCode::IfEnd),
            93 => Some(OpCode::Func),
            94 => Some(OpCode::FuncVarg),
            95 => Some(OpCode::FuncEnd),
            96 => Some(OpCode::Return),
            97 => Some(OpCode::Call),
            98 => Some(OpCode::CallDyn),
            _ => None,
        }
    }
}

/// Asks `mirascript-core` whether a byte, with the wide bit cleared, names
/// one of its opcodes (`OpCode::try_from`). That crate declares its opcodes
/// with consecutive discriminants from zero, so the answer is exactly
/// `code < OPCODE_COUNT`.
#[verifier::external_body]
pub(crate) fn core_defines_opcode(code: u8) -> (r: bool)
    ensures
        r == (code < OPCODE_COUNT),
{
    mirascript_core::OpCode::try_from(code).is_ok()
}

/// The opcode byte at `at` without its wide bit, and whether the bit is set.
pub open spec fn opcode_byte(code: Seq<u8>, at: int) -> (u8, bool) {
    if code[at] >= 128 {
        ((code[at] - 128) as u8, true)
    } else {
        (code[at], false)
    }
}

/// The number of bytes of a parameter: four when wide, else one.
pub open spec fn param_width(wide: bool) -> nat {
    if wide {
        4
    } else {
        1
    }
}

/// The unsigned parameter at `at`.
pub open spec fn param_at(code: Seq<u8>, at: int, wide: bool) -> nat {
    le_value(code, at, param_width(wide))
}

/// The 8-bit two's-complement integer with the given unsigned encoding.
pub open spec fn as_i8(value: u8) -> int {
    if value < 128 {
        value as int
    } else {
        value - 256
    }
}

/// The signed integer parameter at `at`: a wide one is a little-endian
/// `i32`, a narrow one an `i8`.
pub open spec fn index_at(code: Seq<u8>, at: int, wide: bool) -> int {
    if wide {
        as_i32(le_value(code, at, 4))
    } else {
        as_i8(code[at])
    }
}

/// Every opcode round-trips through its byte.
pub proof fn lemma_code_roundtrip(op: OpCode)
    ensures
        op.spec_code() < OPCODE_COUNT,
        OpCode::spec_from_code(op.spec_code()) == Some(op),
{
}

} // verus!

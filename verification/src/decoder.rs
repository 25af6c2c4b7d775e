//! Decoding of bytecode chunks into programs.
//!
//! A chunk is a little-endian `u32` holding the length of the rest of the
//! chunk, a `u32` code length and that many code bytes, a `u32` constant
//! section length, and the constant section.
use vstd::prelude::*;

use crate::constants::{
    Constant, ConstantView, constant_views, decode_constants, is_source_text, le_value, read_u32,
    source_texts, spec_decode_constants,
};
use crate::error::{InvalidBytecodeReason, MiraError, Result};
use crate::globals::{Globals, str_eq};
use crate::model::{
    Program, AccessKey, AccessOperation, ArrayElement, AssertOperation, BinaryOperation, CallTarget,
    Condition, FunctionDef, Instruction, InstructionKind, LoopKind, Operation, PickOmitOperation,
    RangeEndpoint, RecordElement, RecordKey, SliceBound, UnaryOperation, UpvalueOperation,
    block_may_capture_frame,
};
use crate::encoding::{
    access_count, access_ok, binary_ok, call_count, call_ok, has_param, index_param, index_param_from,
    index_params, list_count, list_ok, params_end, register_param, register_param_from, register_params,
    short_count, short_ok, simple_count, simple_ok, upvalue_ok, width_at, array_elements_end, block_end,
    lemma_instruction_end,
    element_count, function_end, if_end, instruction_end, is_structural_opcode, lemma_opcode_at, loop_end,
    loop_reads, module_fields_end, opcode_at, record_elements_end, string_param, chain_end, spans,
    record_elements_span, array_elements_span, module_fields_span, ends_at_freeze, is_simple_opcode,
    bad_upvalue_level, module_duplicate,
};
use crate::tables::{SlotTable, entry_names};
use crate::opcode::{
    OPCODE_COUNT, OpCode, core_defines_opcode, index_at, lemma_code_roundtrip, opcode_byte, param_at,
    param_width,
};
use crate::register::RegisterId;
use crate::validity::{
    Tables, names_constant, slot_named, operation_layout, operand, params_at, registers_at, access_opcode, binary_opcode, decoded_from, kind_matches, operation_matches,
    unary_opcode, array_element_ok, block_ok, fusable, instruction_ok, is_string_constant,
    lemma_block_extend, lemma_block_push, loop_kind_ok, module_fields_ok, operation_ok,
    record_element_ok, register_ok, scope_limit, tables_extend,
};

verus! {

/// Where the sections of a chunk lie: the code length and the offset of the
/// constant section, or the offset and reason of a malformed header.
pub open spec fn chunk_sections(chunk: Seq<u8>) -> core::result::Result<
    (nat, nat),
    (int, InvalidBytecodeReason),
> {
    let len = chunk.len();
    if len < 12 {
        Err((len as int, InvalidBytecodeReason::BadChunkHeader))
    } else if le_value(chunk, 0, 4) != len - 4 {
        Err((0, InvalidBytecodeReason::ChunkLengthMismatch(le_value(chunk, 0, 4) as usize, (len - 4) as usize)))
    } else {
        let code_len = le_value(chunk, 4, 4);
        if code_len + 12 > len {
            Err((4, InvalidBytecodeReason::CodeSectionExceedsChunk))
        } else {
            let length_offset = 8 + code_len;
            if length_offset + 4 + le_value(chunk, length_offset as int, 4) > len {
                Err((length_offset as int, InvalidBytecodeReason::ConstantSectionExceedsChunk))
            } else {
                Ok((code_len, length_offset + 4))
            }
        }
    }
}

/// Split a chunk into its code and its decoded constants. The constants are
/// read from the start of the constant section to the end of the chunk.
pub fn decode_chunk(chunk: &[u8]) -> (r: Result<(&[u8], Vec<Constant>)>)
    ensures
        match chunk_sections(chunk@) {
            Err((at, reason)) => fails_at(r, at as usize, reason),
            Ok((code_len, start)) => match spec_decode_constants(
                chunk@.subrange(start as int, chunk@.len() as int),
            ) {
                Ok(constants) => r matches Ok((code, values)) && code@ == chunk@.subrange(
                    8,
                    8 + code_len as int,
                ) && constant_views(values@) == constants,
                Err((at, reason)) => fails_at(r, (start + at) as usize, reason),
            },
        },
{
    let len = chunk.len();
    if len < 12 {
        return Err(MiraError::invalid_bytecode(len, InvalidBytecodeReason::BadChunkHeader));
    }
    let chunk_len = read_u32(chunk, 0) as usize;
    if chunk_len != len - 4 {
        return Err(MiraError::invalid_bytecode(0, InvalidBytecodeReason::ChunkLengthMismatch(chunk_len, len - 4)));
    }
    let code_len = read_u32(chunk, 4) as usize;
    if code_len > len - 12 {
        return Err(MiraError::invalid_bytecode(4, InvalidBytecodeReason::CodeSectionExceedsChunk));
    }
    let length_offset = 8 + code_len;
    let constants_len = read_u32(chunk, length_offset) as usize;
    let start = length_offset + 4;
    if constants_len > len - start {
        return Err(MiraError::invalid_bytecode(length_offset, InvalidBytecodeReason::ConstantSectionExceedsChunk));
    }
    let constants = decode_constants(&chunk[start..len], start);
    match constants {
        Ok(values) => Ok((&chunk[8..8 + code_len], values)),
        Err(e) => Err(e),
    }
}

/// Whether `r` is the structural validation failure at `offset` for `reason`.
pub open spec fn fails_at<T>(r: Result<T>, offset: usize, reason: InvalidBytecodeReason) -> bool {
    match r {
        Err(e) => *e == (MiraError::InvalidBytecode { offset, reason }),
        Ok(_) => false,
    }
}

/// Whether a decoding step that failed failed on invalid bytecode.
pub open spec fn rejects_as_invalid<T>(r: Result<T>) -> bool {
    match r {
        Err(e) => *e is InvalidBytecode,
        Ok(_) => true,
    }
}

/// Whether a standard-library slot hint is right for a name: the name's
/// standard-library slot, or `None` when it names no standard global.
pub open spec fn hint_ok(std: &Globals, name: Seq<char>, hint: Option<usize>) -> bool {
    match hint {
        Some(slot) => slot < std.std_names().len() && std.std_names()[slot as int] == name,
        None => !std.std_names().contains(name),
    }
}

/// Whether a name is the text of one of the constants.
pub open spec fn named_by_constant(constant_names: Seq<String>, name: Seq<char>) -> bool {
    exists|c: int| 0 <= c < constant_names.len() && #[trigger] constant_names[c]@ == name
}

/// Whether a name is the text of one of the constants where a name is
/// expected.
pub open spec fn names_a_constant<F: Fn(u64, bool) -> String>(constants: Seq<Constant>, name: Seq<char>, render: F) -> bool {
    exists|c: int, text: String|
        0 <= c < constants.len() && #[trigger] is_source_text(constants[c], text, render) && text@ == name
}

/// What decoding a chunk gives: the exact failure for a malformed header,
/// constant section or first opcode, and otherwise, on success, the
/// decoded constants and a program valid for the chunk's code.
pub open spec fn decode_result_ok<F: Fn(u64, bool) -> String>(chunk: Seq<u8>, r: Result<Program>, std: &Globals, render: F) -> bool {
    match chunk_sections(chunk) {
        Err((at, reason)) => fails_at(r, at as usize, reason),
        Ok((code_len, start)) => match spec_decode_constants(
            chunk.subrange(start as int, chunk.len() as int),
        ) {
            Err((at, reason)) => fails_at(r, (start + at) as usize, reason),
            Ok(constants) => {
                let code = chunk.subrange(8, 8 + code_len as int);
                let (first, wide) = opcode_byte(code, 0);
                &&& code.len() == 0 ==> fails_at(r, 0, InvalidBytecodeReason::TruncatedOpCode)
                &&& code.len() > 0 && first >= OPCODE_COUNT ==> fails_at(
                    r,
                    0,
                    InvalidBytecodeReason::InvalidOpCode(first),
                )
                &&& code.len() > 0 && first < OPCODE_COUNT && first != OpCode::Func.spec_code()
                    && first != OpCode::FuncVarg.spec_code() ==> fails_at(
                    r,
                    0,
                    InvalidBytecodeReason::BadRootStart,
                )
                &&& code.len() > 0 && (first == OpCode::Func.spec_code() || first == OpCode::FuncVarg.spec_code())
                    ==> match function_end(code, constants, Seq::empty(), 0, 0, true) {
                    Some(end) => if end == code.len() {
                        r is Ok
                    } else {
                        fails_at(r, end as usize, InvalidBytecodeReason::BadRootEnd)
                    },
                    None => r is Err && rejects_as_invalid(r),
                }
                &&& r is Ok ==> {
                    let program = r.unwrap();
                    &&& code.len() > 0
                    &&& constant_views(program.constants@) == constants
                    &&& program.valid(code, std, render)
                    &&& program.root.offset == 0
                    &&& program.root.variadic == (first == OpCode::FuncVarg.spec_code())
                    &&& program.root.arg_count == param_at(code, 1 + param_width(wide) as int, wide)
                    &&& program.root.register_count == param_at(code, 1 + 2 * param_width(wide) as int, wide)
                }
            },
        },
    }
}

impl Program {
    /// The tables that the program's instructions refer to, with the code
    /// that it was decoded from.
    pub open spec fn tables(&self, code: Seq<u8>) -> Tables {
        Tables {
            code,
            constants: constant_views(self.constants@),
            global_names: self.global_names@.map_values(|entry: (String, Option<usize>)| entry.0@),
            functions: self.functions@,
        }
    }

    /// Whether the program is structurally valid for the code it was decoded
    /// from: the root function holds its arguments, its body is every
    /// instruction between its header and the `FuncEnd` that ends the code,
    /// in code order (nested bodies and literal elements likewise), and is
    /// valid in the root scope outside any loop,
    /// each global name appears once with its standard-library hint, and
    /// each names a constant.
    pub open spec fn valid<F: Fn(u64, bool) -> String>(&self, code: Seq<u8>, std: &Globals, render: F) -> bool {
        &&& self.root.arg_count <= self.root.register_count
        &&& chain_end(
            code,
            constant_views(self.constants@),
            seq![self.root.register_count],
            0,
            self.root.body@,
            params_end(code, 0, 3),
        ) == Some(code.len() - 1)
        &&& opcode_at(code, code.len() - 1) == Some(OpCode::FuncEnd)
        &&& block_ok(self.tables(code), self.root.body@, seq![self.root.register_count], 0, self.functions@.len())
        &&& forall|i: int|
            0 <= i < self.global_names@.len() ==> #[trigger] hint_ok(
                std,
                self.global_names@[i].0@,
                self.global_names@[i].1,
            )
        &&& forall|i: int, j: int|
            0 <= i < j < self.global_names@.len() ==> self.global_names@[i].0@ != self.global_names@[j].0@
        &&& forall|i: int|
            0 <= i < self.global_names@.len() ==> #[trigger] names_a_constant(
                self.constants@,
                self.global_names@[i].0@,
                render,
            )
    }

    /// Decode and validate a bytecode chunk. The global names are resolved
    /// against the standard library `std`; `render` gives the digits of
    /// number constants used as global names.
    pub fn decode<F: Fn(u64, bool) -> String>(chunk: &[u8], std: &Globals, render: &F) -> (r: Result<Program>)
        requires
            std.wf(),
            forall|b: u64, exponent: bool| render.requires((b, exponent)),
        ensures
            decode_result_ok(chunk@, r, std, *render),
    {
        let (code, constants) = decode_chunk(chunk)?;
        let constant_names = source_texts(&constants, render);
        let mut decoder = Decoder {
            code,
            offset: 0,
            constants,
            constant_names,
            functions: Vec::new(),
            global_names: SlotTable::new(),
            std,
            scopes: Vec::new(),
            loop_depth: 0,
        };
        proof {
            assert forall|i: int| 0 <= i < decoder.constants@.len() implies #[trigger] string_text_kept(
                decoder.constants@[i],
                decoder.constant_names@[i],
            ) by {
                assert(is_source_text(decoder.constants@[i], decoder.constant_names@[i], *render));
            }
        }
        let (opcode, wide, offset) = decoder.read_opcode()?;
        if opcode != OpCode::Func && opcode != OpCode::FuncVarg {
            return Err(MiraError::invalid_bytecode(offset, InvalidBytecodeReason::BadRootStart));
        }
        let (_, root) = decoder.read_function(opcode, wide, true, offset)?;
        if decoder.offset != decoder.code.len() {
            return Err(MiraError::invalid_bytecode(decoder.offset, InvalidBytecodeReason::BadRootEnd));
        }
        let count = decoder.global_names.len();
        let mut global_names: Vec<(String, Option<usize>)> = Vec::new();
        let mut index: usize = 0;
        while index < count
            invariant
                decoder.wf(),
                decoder.std == std,
                count == decoder.global_names@.len(),
                index <= count,
                global_names@.len() == index,
                forall|i: int| 0 <= i < index ==> #[trigger] global_names@[i].0@ == decoder.global_names@[i].0,
                forall|i: int| 0 <= i < index ==> #[trigger] global_names@[i].1 == decoder.global_names@[i].1,
            decreases count - index,
        {
            let ghost previous = global_names@;
            match decoder.global_names.entry(index) {
                Some(entry) => {
                    global_names.push(entry);
                },
                None => {},
            }
            proof {
                assert forall|i: int| 0 <= i < index + 1 implies #[trigger] global_names@[i].0@ == decoder.global_names@[i].0
                    && global_names@[i].1 == decoder.global_names@[i].1 by {
                    if i < index {
                        assert(global_names@[i] == previous[i]);
                    }
                }
            }
            index = index + 1;
        }
        proof {
            assert(decoder.scopes@ =~= Seq::<usize>::empty());
            assert(Seq::<usize>::empty().push(root.register_count) =~= seq![root.register_count]);
            assert forall|i: int| 0 <= i < global_names@.len() implies #[trigger] hint_ok(
                std,
                global_names@[i].0@,
                global_names@[i].1,
            ) by {
                assert(hint_ok(decoder.std, decoder.global_names@[i].0, decoder.global_names@[i].1));
            }
            assert forall|i: int| 0 <= i < global_names@.len() implies #[trigger] names_a_constant(
                decoder.constants@,
                global_names@[i].0@,
                *render,
            ) by {
                assert(named_by_constant(decoder.constant_names@, decoder.global_names.names()[i]));
                let c = choose|c: int| 0 <= c < decoder.constant_names@.len() && #[trigger] decoder.constant_names@[c]@ == decoder.global_names.names()[i];
                assert(is_source_text(decoder.constants@[c], decoder.constant_names@[c], *render));
            }
            assert(global_names@.map_values(|entry: (String, Option<usize>)| entry.0@) =~= decoder.global_names.names());
            assert forall|i: int, j: int| 0 <= i < j < global_names@.len() implies global_names@[i].0@ != global_names@[j].0@ by {
                assert(global_names@[i].0@ == decoder.global_names.names()[i]);
                assert(global_names@[j].0@ == decoder.global_names.names()[j]);
            }
        }
        let Decoder { constants, functions, .. } = decoder;
        Ok(Program { constants, global_names, root, functions })
    }
}

/// Whether a constant's text is the constant itself, when it is a string.
spec fn string_text_kept(constant: Constant, text: String) -> bool {
    match constant {
        Constant::String(s) => text@ == s@,
        _ => true,
    }
}

/// The names of a prefix of global entries are a prefix of the names.
proof fn lemma_names_prefix(earlier: Seq<(Seq<char>, Option<usize>)>, later: Seq<(Seq<char>, Option<usize>)>)
    requires
        earlier.len() <= later.len(),
        later.take(earlier.len() as int) == earlier,
    ensures
        entry_names(later).take(earlier.len() as int) == entry_names(earlier),
{
    assert forall|i: int| 0 <= i < earlier.len() implies #[trigger] entry_names(later)[i] == entry_names(earlier)[i] by {
        assert(later.take(earlier.len() as int)[i] == later[i]);
    }
    assert(entry_names(later).take(earlier.len() as int) =~= entry_names(earlier));
}

/// The state of a decoding pass over the code of one chunk.
struct Decoder<'a> {
    code: &'a [u8],
    offset: usize,
    constants: Vec<Constant>,
    constant_names: Vec<String>,
    functions: Vec<FunctionDef>,
    global_names: SlotTable,
    std: &'a Globals,
    scopes: Vec<usize>,
    loop_depth: usize,
}

impl<'a> Decoder<'a> {
    /// The tables that instructions decoded so far may refer to.
    spec fn tables(&self) -> Tables {
        Tables {
            code: self.code@,
            constants: constant_views(self.constants@),
            global_names: self.global_names.names(),
            functions: self.functions@,
        }
    }

    spec fn wf(&self) -> bool {
        &&& self.offset <= self.code@.len()
        &&& self.loop_depth <= self.offset
        &&& self.global_names.wf()
        &&& self.std.wf()
        &&& forall|i: int|
            0 <= i < self.global_names@.len() ==> #[trigger] hint_ok(
                self.std,
                self.global_names@[i].0,
                self.global_names@[i].1,
            )
        &&& self.constant_names@.len() == self.constants@.len()
        &&& forall|i: int| 0 <= i < self.constants@.len() ==> #[trigger] string_text_kept(self.constants@[i], self.constant_names@[i])
        &&& forall|i: int|
            0 <= i < self.global_names@.len() ==> #[trigger] named_by_constant(
                self.constant_names@,
                self.global_names.names()[i],
            )
    }

    /// The input of the pass is the same.
    spec fn same_input(&self, other: &Self) -> bool {
        &&& self.code@ == other.code@
        &&& self.constants@ == other.constants@
        &&& self.constant_names@ == other.constant_names@
        &&& self.std == other.std
    }

    /// The scopes and loop depth are as in `earlier`.
    spec fn keeps_scopes(&self, earlier: &Self) -> bool {
        &&& self.scopes@ == earlier.scopes@
        &&& self.loop_depth == earlier.loop_depth
    }

    /// The text of the constant that the second parameter of the instruction
    /// at `at` names: the global that it reads or calls.
    spec fn global_name_at(&self, at: int) -> Seq<char> {
        self.constant_names@[operand(self.code@, at, 1) as int]@
    }

    /// The global names are those of `earlier`, with `name` added at the end
    /// when it was not among them.
    spec fn names_after(&self, earlier: &Self, name: Seq<char>) -> bool {
        if earlier.global_names.names().contains(name) {
            self.global_names@ == earlier.global_names@
        } else {
            self.global_names.names() == earlier.global_names.names().push(name)
        }
    }

    /// Only the offset moved.
    spec fn moved(&self, other: &Self) -> bool {
        &&& self.same_input(other)
        &&& self.functions@ == other.functions@
        &&& self.global_names@ == other.global_names@
        &&& self.scopes@ == other.scopes@
        &&& self.loop_depth == other.loop_depth
    }

    /// What `earlier` decoded is kept: the tables only grew, and the scopes
    /// and loop depth are back to what they were.
    spec fn extends(&self, earlier: &Self) -> bool {
        &&& self.same_input(earlier)
        &&& tables_extend(earlier.tables(), self.tables())
        &&& self.global_names@.take(earlier.global_names@.len() as int) == earlier.global_names@
        &&& self.scopes@ == earlier.scopes@
        &&& self.loop_depth == earlier.loop_depth
        &&& earlier.offset <= self.offset
    }

    /// Whether the opcode of the instruction at `at`, with its wide bit,
    /// was just read.
    spec fn after_opcode(&self, at: usize, opcode: OpCode, wide: bool) -> bool {
        &&& at < self.code@.len()
        &&& self.offset == at + 1
        &&& opcode_byte(self.code@, at as int) == (opcode.spec_code(), wide)
    }

    /// Whether a parameter fits before the end of the code.
    spec fn param_fits(&self, wide: bool) -> bool {
        self.code@.len() - self.offset >= param_width(wide)
    }

    /// The unsigned parameter at the current offset.
    spec fn next_param(&self, wide: bool) -> nat {
        param_at(self.code@, self.offset as int, wide)
    }

    /// At the start of the `k`-th parameter of the instruction at `at`, the
    /// next parameter is that operand, and it fits exactly when the
    /// instruction has it.
    proof fn lemma_param(d: &Self, at: int, k: int, wide: bool)
        requires
            0 <= at < d.code@.len(),
            0 <= k,
            opcode_byte(d.code@, at).1 == wide,
            d.offset == params_end(d.code@, at, k),
        ensures
            d.next_param(wide) == operand(d.code@, at, k),
            d.param_fits(wide) <==> has_param(d.code@, at, k),
            params_end(d.code@, at, k + 1) == d.offset + param_width(wide),
    {
        lemma_operand_step(at, k, param_width(wide));
    }

    /// A state extends itself.
    proof fn lemma_extends_refl(d: &Self)
        ensures
            d.extends(d),
    {
        assert(d.functions@.take(d.functions@.len() as int) =~= d.functions@);
        assert(d.global_names@.take(d.global_names@.len() as int) =~= d.global_names@);
        lemma_names_prefix(d.global_names@, d.global_names@);
    }

    /// Moving forward extends a state.
    proof fn lemma_moved_extends(earlier: &Self, later: &Self)
        requires
            later.moved(earlier),
            earlier.offset <= later.offset,
        ensures
            later.extends(earlier),
    {
        Self::lemma_extends_refl(earlier);
    }

    /// Extending is transitive.
    proof fn lemma_extends_trans(a: &Self, b: &Self, c: &Self)
        requires
            b.extends(a),
            c.extends(b),
        ensures
            c.extends(a),
    {
        let fa = a.functions@.len() as int;
        let fb = b.functions@.len() as int;
        assert(c.functions@.take(fa) =~= c.functions@.take(fb).take(fa));
        let na = a.global_names@.len() as int;
        let nb = b.global_names@.len() as int;
        assert(c.global_names@.take(na) =~= c.global_names@.take(nb).take(na));
        lemma_names_prefix(a.global_names@, c.global_names@);
    }

    /// Read one opcode byte.
    fn read_opcode(&mut self) -> (r: Result<(OpCode, bool, usize)>)
        requires
            old(self).wf(),
        ensures
            rejects_as_invalid(r),
            final(self).wf(),
            final(self).moved(old(self)),
            old(self).offset >= old(self).code@.len() ==> fails_at(
                r,
                old(self).offset,
                InvalidBytecodeReason::TruncatedOpCode,
            ),
            old(self).offset < old(self).code@.len() ==> {
                let (code, wide) = opcode_byte(old(self).code@, old(self).offset as int);
                &&& final(self).offset == old(self).offset + 1
                &&& code < OPCODE_COUNT ==> (r matches Ok((op, w, at)) && op.spec_code() == code
                    && w == wide && at == old(self).offset)
                &&& code >= OPCODE_COUNT ==> fails_at(r, old(self).offset, InvalidBytecodeReason::InvalidOpCode(code))
            },
    {
        let offset = self.offset;
        if offset >= self.code.len() {
            return Err(MiraError::invalid_bytecode(offset, InvalidBytecodeReason::TruncatedOpCode));
        }
        let raw = self.code[offset];
        self.offset = offset + 1;
        let wide = raw >= 128;
        let code: u8 = if wide {
            raw - 128
        } else {
            raw
        };
        if !core_defines_opcode(code) {
            return Err(MiraError::invalid_bytecode(offset, InvalidBytecodeReason::InvalidOpCode(code)));
        }
        match OpCode::from_code(code) {
            Some(opcode) => Ok((opcode, wide, offset)),
            None => Err(MiraError::invalid_bytecode(offset, InvalidBytecodeReason::InvalidOpCode(code))),
        }
    }

    /// Read an unsigned parameter of the instruction at `at`.
    fn read_param(&mut self, wide: bool, at: usize) -> (r: Result<usize>)
        requires
            old(self).wf(),
        ensures
            rejects_as_invalid(r),
            final(self).wf(),
            final(self).moved(old(self)),
            old(self).param_fits(wide) ==> (r matches Ok(v) && v == old(self).next_param(wide)
                && final(self).offset == old(self).offset + param_width(wide)),
            !old(self).param_fits(wide) ==> fails_at(r, at, InvalidBytecodeReason::TruncatedParameter(old(self).offset)),
    {
        let width: usize = if wide {
            4
        } else {
            1
        };
        if self.code.len() - self.offset < width {
            return Err(MiraError::invalid_bytecode(at, InvalidBytecodeReason::TruncatedParameter(self.offset)));
        }
        let offset = self.offset;
        self.offset = offset + width;
        if wide {
            Ok(read_u32(self.code, offset) as usize)
        } else {
            proof {
                reveal_with_fuel(le_value, 2);
            }
            Ok(self.code[offset] as usize)
        }
    }

    /// Read a signed integer parameter of the instruction at `at`.
    fn read_index(&mut self, wide: bool, at: usize) -> (r: Result<i64>)
        requires
            old(self).wf(),
        ensures
            rejects_as_invalid(r),
            final(self).wf(),
            final(self).moved(old(self)),
            old(self).param_fits(wide) ==> (r matches Ok(v) && v == index_at(
                old(self).code@,
                old(self).offset as int,
                wide,
            ) && final(self).offset == old(self).offset + param_width(wide)),
            !old(self).param_fits(wide) ==> fails_at(r, at, InvalidBytecodeReason::TruncatedParameter(old(self).offset)),
    {
        let width: usize = if wide {
            4
        } else {
            1
        };
        if self.code.len() - self.offset < width {
            return Err(MiraError::invalid_bytecode(at, InvalidBytecodeReason::TruncatedParameter(self.offset)));
        }
        let offset = self.offset;
        self.offset = offset + width;
        if wide {
            let raw = read_u32(self.code, offset) as i64;
            if raw < 0x8000_0000 {
                Ok(raw)
            } else {
                Ok(raw - 0x1_0000_0000)
            }
        } else {
            let raw = self.code[offset] as i64;
            if raw < 128 {
                Ok(raw)
            } else {
                Ok(raw - 256)
            }
        }
    }

    /// Check that a register exists in the innermost scope.
    fn validate_register(&self, register: usize, at: usize) -> (r: Result<()>)
        ensures
            rejects_as_invalid(r),
            register <= scope_limit(self.scopes@) ==> r is Ok,
            register > scope_limit(self.scopes@) ==> fails_at(r, at, InvalidBytecodeReason::RegisterIndexOutOfRange(register, scope_limit(self.scopes@))),
    {
        let max = if self.scopes.len() == 0 {
            0
        } else {
            self.scopes[self.scopes.len() - 1]
        };
        if register > max {
            return Err(MiraError::invalid_bytecode(at, InvalidBytecodeReason::RegisterIndexOutOfRange(register, max)));
        }
        Ok(())
    }

    /// Read a register parameter of the instruction at `at`, which must
    /// exist in the innermost scope.
    fn read_register(&mut self, wide: bool, at: usize) -> (r: Result<RegisterId>)
        requires
            old(self).wf(),
        ensures
            rejects_as_invalid(r),
            final(self).wf(),
            final(self).moved(old(self)),
            old(self).param_fits(wide) && old(self).next_param(wide) <= scope_limit(old(self).scopes@)
                ==> (r matches Ok(v) && v.0 == old(self).next_param(wide) && final(self).offset
                == old(self).offset + param_width(wide)),
            old(self).param_fits(wide) && old(self).next_param(wide) > scope_limit(old(self).scopes@)
                ==> fails_at(r, at, InvalidBytecodeReason::RegisterIndexOutOfRange(old(self).next_param(wide) as usize, scope_limit(old(self).scopes@))),
            !old(self).param_fits(wide) ==> fails_at(r, at, InvalidBytecodeReason::TruncatedParameter(old(self).offset)),
    {
        let register = self.read_param(wide, at)?;
        self.validate_register(register, at)?;
        Ok(RegisterId(register))
    }

    /// Read a constant index of the instruction at `at`, which must be in
    /// range.
    fn read_constant(&mut self, wide: bool, at: usize) -> (r: Result<usize>)
        requires
            old(self).wf(),
        ensures
            rejects_as_invalid(r),
            final(self).wf(),
            final(self).moved(old(self)),
            old(self).param_fits(wide) && old(self).next_param(wide) < old(self).constants@.len()
                ==> (r matches Ok(v) && v == old(self).next_param(wide) && final(self).offset
                == old(self).offset + param_width(wide)),
            old(self).param_fits(wide) && old(self).next_param(wide) >= old(self).constants@.len()
                ==> fails_at(r, at, InvalidBytecodeReason::ConstantIndexOutOfRange(old(self).next_param(wide) as usize, old(self).constants@.len() as usize)),
            !old(self).param_fits(wide) ==> fails_at(r, at, InvalidBytecodeReason::TruncatedParameter(old(self).offset)),
    {
        let index = self.read_param(wide, at)?;
        if index >= self.constants.len() {
            return Err(MiraError::invalid_bytecode(at, InvalidBytecodeReason::ConstantIndexOutOfRange(index, self.constants.len())));
        }
        Ok(index)
    }

    /// Read a constant index of the instruction at `at` that must name a
    /// string constant, and give the string.
    fn read_string_constant(&mut self, wide: bool, at: usize) -> (r: Result<String>)
        requires
            old(self).wf(),
        ensures
            rejects_as_invalid(r),
            final(self).wf(),
            final(self).moved(old(self)),
            old(self).param_fits(wide) && old(self).next_param(wide) < old(self).constants@.len()
                ==> match old(self).constants@[old(self).next_param(wide) as int] {
                Constant::String(text) => (r matches Ok(v) && v@ == text@ && final(self).offset
                    == old(self).offset + param_width(wide)),
                _ => fails_at(r, at, InvalidBytecodeReason::InvalidConstantType),
            },
            old(self).param_fits(wide) && old(self).next_param(wide) >= old(self).constants@.len()
                ==> fails_at(r, at, InvalidBytecodeReason::ConstantIndexOutOfRange(old(self).next_param(wide) as usize, old(self).constants@.len() as usize)),
            !old(self).param_fits(wide) ==> fails_at(r, at, InvalidBytecodeReason::TruncatedParameter(old(self).offset)),
    {
        let index = self.read_constant(wide, at)?;
        match &self.constants[index] {
            Constant::String(value) => Ok(value.clone()),
            _ => Err(MiraError::invalid_bytecode(at, InvalidBytecodeReason::InvalidConstantType)),
        }
    }

    /// Read a constant index of the instruction at `at` whose text names a
    /// global, and give the global's slot, assigning the next slot to a name
    /// not seen before.
    fn read_global_slot(&mut self, wide: bool, at: usize) -> (r: Result<usize>)
        requires
            old(self).wf(),
        ensures
            rejects_as_invalid(r),
            final(self).wf(),
            final(self).same_input(old(self)),
            final(self).functions@ == old(self).functions@,
            final(self).scopes@ == old(self).scopes@,
            final(self).loop_depth == old(self).loop_depth,
            old(self).param_fits(wide) && old(self).next_param(wide) < old(self).constants@.len()
                ==> {
                let name = old(self).constant_names@[old(self).next_param(wide) as int]@;
                &&& r matches Ok(slot) && slot < final(self).global_names@.len()
                    && final(self).global_names.names()[slot as int] == name
                &&& final(self).offset == old(self).offset + param_width(wide)
                &&& old(self).global_names.names().contains(name) ==> final(self).global_names@
                    == old(self).global_names@
                &&& !old(self).global_names.names().contains(name) ==> final(self).global_names.names()
                    == old(self).global_names.names().push(name)
            },
            r is Ok ==> old(self).global_names@.len() <= final(self).global_names@.len(),
            r is Ok ==> final(self).global_names@.take(old(self).global_names@.len() as int)
                == old(self).global_names@,
            r is Ok ==> final(self).global_names.names().take(old(self).global_names@.len() as int)
                == old(self).global_names.names(),
            old(self).param_fits(wide) && old(self).next_param(wide) < old(self).constants@.len()
                ==> (r matches Ok(slot) && names_constant(
                final(self).global_names.names(),
                constant_views(old(self).constants@)[old(self).next_param(wide) as int],
                slot,
            )),
            r is Ok ==> final(self).offset >= old(self).offset,
            old(self).param_fits(wide) && old(self).next_param(wide) >= old(self).constants@.len()
                ==> fails_at(r, at, InvalidBytecodeReason::ConstantIndexOutOfRange(old(self).next_param(wide) as usize, old(self).constants@.len() as usize)),
            !old(self).param_fits(wide) ==> fails_at(r, at, InvalidBytecodeReason::TruncatedParameter(old(self).offset)),
    {
        let ghost entry = self.global_names@;
        proof {
            assert(entry.take(entry.len() as int) =~= entry);
        }
        let index = self.read_constant(wide, at)?;
        let name = self.constant_names[index].clone();
        proof {
            lemma_names_prefix(entry, entry);
            assert(string_text_kept(self.constants@[index as int], self.constant_names@[index as int]));
        }
        match self.global_names.index_of(name.as_str()) {
            Some(slot) => Ok(slot),
            None => {
                let ghost before_names = self.global_names@;
                let hint = self.std.std_slot(name.as_str());
                let slot = self.global_names.push(name, hint);
                proof {
                    assert(self.global_names@.take(before_names.len() as int) =~= before_names);
                    lemma_names_prefix(before_names, self.global_names@);
                    assert(self.global_names.names() =~= entry_names(before_names).push(self.constant_names@[index as int]@));
                    assert forall|i: int| 0 <= i < self.global_names@.len() implies #[trigger] hint_ok(
                        self.std,
                        self.global_names@[i].0,
                        self.global_names@[i].1,
                    ) by {
                        if i < before_names.len() {
                            assert(hint_ok(self.std, before_names[i].0, before_names[i].1));
                        }
                    }
                    assert forall|i: int| 0 <= i < self.global_names@.len() implies #[trigger] named_by_constant(
                        self.constant_names@,
                        self.global_names.names()[i],
                    ) by {
                        if i < before_names.len() {
                            assert(named_by_constant(self.constant_names@, entry_names(before_names)[i]));
                        } else {
                            assert(self.constant_names@[index as int]@ == self.global_names.names()[i]);
                        }
                    }
                }
                Ok(slot)
            },
        }
    }

    /// Read instructions up to one of `terminals`, which is consumed and
    /// returned with the instructions. A global read whose result is the
    /// single argument of the call of a global that follows it is fused
    /// into that call.
    fn read_block(&mut self, terminals: &[OpCode]) -> (r: Result<(Vec<Instruction>, OpCode)>)
        requires
            old(self).wf(),
        ensures
            rejects_as_invalid(r),
            final(self).keeps_scopes(old(self)),
            r is Ok <==> block_end(
                old(self).code@,
                constant_views(old(self).constants@),
                old(self).scopes@,
                old(self).loop_depth as nat,
                old(self).offset as int,
                terminals@,
            ) is Some,
            r is Ok ==> block_end(
                old(self).code@,
                constant_views(old(self).constants@),
                old(self).scopes@,
                old(self).loop_depth as nat,
                old(self).offset as int,
                terminals@,
            ) == Some((final(self).offset as int, r.unwrap().1)),
            r is Ok ==> chain_end(
                old(self).code@,
                constant_views(old(self).constants@),
                old(self).scopes@,
                old(self).loop_depth as nat,
                r.unwrap().0@,
                old(self).offset as int,
            ) == Some(final(self).offset - 1),
            r is Ok ==> 0 < final(self).offset <= old(self).code@.len() && opcode_at(
                old(self).code@,
                final(self).offset - 1,
            ) == Some(r.unwrap().1),
            r is Ok ==> {
                let (body, terminal) = r.unwrap();
                &&& final(self).wf()
                &&& final(self).extends(old(self))
                &&& final(self).offset > old(self).offset
                &&& terminals@.contains(terminal)
                &&& block_ok(
                    final(self).tables(),
                    body@,
                    old(self).scopes@,
                    old(self).loop_depth as nat,
                    final(self).functions@.len(),
                )
            },
        decreases old(self).code@.len() - old(self).offset, 0int,
    {
        let ghost start = *self;
        proof {
            Self::lemma_extends_refl(&start);
        }
        let mut body: Vec<Instruction> = Vec::new();
        loop
            invariant
                start == *old(self),
                self.wf(),
                self.extends(&start),
                start.wf(),
                block_ok(
                    self.tables(),
                    body@,
                    start.scopes@,
                    start.loop_depth as nat,
                    self.functions@.len(),
                ),
                body@.len() > 0 ==> body@.last().offset < self.offset,
                block_end(
                    start.code@,
                    constant_views(start.constants@),
                    start.scopes@,
                    start.loop_depth as nat,
                    self.offset as int,
                    terminals@,
                ) == block_end(
                    start.code@,
                    constant_views(start.constants@),
                    start.scopes@,
                    start.loop_depth as nat,
                    start.offset as int,
                    terminals@,
                ),
                chain_end(
                    start.code@,
                    constant_views(start.constants@),
                    start.scopes@,
                    start.loop_depth as nat,
                    body@,
                    start.offset as int,
                ) == Some(self.offset as int),
            decreases self.code@.len() - self.offset,
        {
            if self.offset >= self.code.len() {
                return Err(MiraError::invalid_bytecode(self.offset, InvalidBytecodeReason::UnterminatedBlock));
            }
            let ghost before = *self;
            proof {
                lemma_opcode_at(self.code@, self.offset as int);
            }
            let (opcode, wide, at) = self.read_opcode()?;
            proof {
                lemma_code_roundtrip(opcode);
                assert(opcode_at(self.code@, at as int) == Some(opcode));
                Self::lemma_moved_extends(&before, self);
                Self::lemma_extends_trans(&start, &before, self);
            }
            if is_terminal(terminals, opcode) {
                if wide {
                    return Err(MiraError::invalid_bytecode(at, InvalidBytecodeReason::UnsupportedWide));
                }
                return Ok((body, opcode));
            }
            let ghost middle = *self;
            let instruction = self.read_instruction_after(opcode, wide, at)?;
            let ghost decoded = instruction;
            let fused = fused_call(&body, &instruction);
            let instruction = match fused {
                Some(operation) => Instruction { offset: instruction.offset, kind: InstructionKind::Op(operation) },
                None => instruction,
            };
            proof {
                Self::lemma_extends_trans(&start, &middle, self);
                let t1 = middle.tables();
                let t2 = self.tables();
                lemma_block_extend(
                    t1,
                    t2,
                    body@,
                    start.scopes@,
                    start.loop_depth as nat,
                    t1.functions.len(),
                    t2.functions.len(),
                );
                if body@.len() > 0 {
                    assert(instruction_ok(t2, body@.last(), start.scopes@, start.loop_depth as nat, t2.functions.len()));
                    assert(body@.push(instruction)[body@.len() - 1] == body@.last());
                }
                lemma_block_push(t2, body@, instruction, start.scopes@, start.loop_depth as nat, t2.functions.len());
            }
            let ghost previous = body@;
            body.push(instruction);
            proof {
                assert(body@.drop_last() =~= previous);
            }
        }
    }

    /// Read the rest of an instruction whose opcode, at `at`, was read.
    #[verifier::rlimit(80)]
    fn read_instruction_after(&mut self, opcode: OpCode, wide: bool, at: usize) -> (r: Result<Instruction>)
        requires
            old(self).wf(),
            old(self).after_opcode(at, opcode, wide),
        ensures
            rejects_as_invalid(r),
            final(self).keeps_scopes(old(self)),
            r is Ok <==> instruction_end(
                old(self).code@,
                constant_views(old(self).constants@),
                old(self).scopes@,
                old(self).loop_depth as nat,
                at as int,
            ) is Some,
            r is Ok ==> instruction_end(
                old(self).code@,
                constant_views(old(self).constants@),
                old(self).scopes@,
                old(self).loop_depth as nat,
                at as int,
            ) == Some(final(self).offset as int),
            r is Ok ==> {
                let instruction = r.unwrap();
                &&& final(self).wf()
                &&& final(self).extends(old(self))
                &&& instruction.offset == at
                &&& !(instruction.kind is Op && instruction.kind->Op_0 is CallGlobal1FromGlobal)
                &&& instruction_ok(
                    final(self).tables(),
                    instruction,
                    old(self).scopes@,
                    old(self).loop_depth as nat,
                    final(self).functions@.len(),
                )
            },
        decreases old(self).code@.len() - old(self).offset, 1int,
    {
        let ghost entry = *self;
        proof {
            lemma_code_roundtrip(opcode);
            lemma_instruction_end(
                self.code@,
                constant_views(self.constants@),
                self.scopes@,
                self.loop_depth as nat,
                at as int,
                opcode,
            );
        }
        let kind = match opcode {
            OpCode::Func | OpCode::FuncVarg => {
                let ghost before = *self;
                let (destination, function) = self.read_function(opcode, wide, false, at)?;
                let ghost middle = *self;
                let ghost def = function;
                let function_id = self.functions.len();
                self.functions.push(function);
                proof {
                    assert(self.functions@.take(middle.functions@.len() as int) =~= middle.functions@);
                    assert(self.global_names@.take(middle.global_names@.len() as int) =~= middle.global_names@);
                    lemma_names_prefix(middle.global_names@, self.global_names@);
                    assert(tables_extend(middle.tables(), self.tables()));
                    lemma_block_extend(
                        middle.tables(),
                        self.tables(),
                        def.body@,
                        before.scopes@.push(def.register_count),
                        before.loop_depth as nat,
                        function_id as nat,
                        function_id as nat,
                    );
                    assert(self.functions@[function_id as int] == def);
                    assert(self.global_names@.take(middle.global_names@.len() as int) =~= middle.global_names@);
                    assert(self.extends(&middle));
                    Self::lemma_extends_trans(&entry, &middle, self);
                }
                InstructionKind::Function { destination, function: function_id }
            },
            OpCode::If | OpCode::IfNot | OpCode::IfInit | OpCode::IfNotInit | OpCode::IfNil
            | OpCode::IfNotNil => self.read_if(opcode, wide, at)?,
            OpCode::Loop | OpCode::LoopFor | OpCode::LoopRange | OpCode::LoopRangeExclusive => {
                self.read_loop(opcode, wide, at)?
            },
            OpCode::Record => {
                let kind = self.read_record(opcode, wide, at)?;
                proof {
                    Self::lemma_moved_extends(&entry, self);
                }
                kind
            },
            OpCode::Array => {
                let kind = self.read_array(opcode, wide, at)?;
                proof {
                    Self::lemma_moved_extends(&entry, self);
                }
                kind
            },
            OpCode::Module => {
                let kind = self.read_module(opcode, wide, at)?;
                proof {
                    Self::lemma_moved_extends(&entry, self);
                }
                kind
            },
            OpCode::Else | OpCode::IfEnd | OpCode::LoopEnd | OpCode::FuncEnd | OpCode::Field
            | OpCode::FieldDyn | OpCode::FieldIndex | OpCode::FieldOpt | OpCode::FieldOptDyn
            | OpCode::FieldOptIndex | OpCode::Item | OpCode::ItemRange | OpCode::ItemRangeDyn
            | OpCode::ItemRangeExclusiveDyn | OpCode::Spread | OpCode::Freeze => {
                return Err(MiraError::invalid_bytecode(at, InvalidBytecodeReason::UnexpectedOpCode(opcode)));
            },
            _ => self.read_simple(opcode, wide, at)?,
        };
        Ok(Instruction { offset: at, kind })
    }

    /// Read a function definition: destination, argument count, register
    /// count, then the body up to `FuncEnd` in a scope of its own. The root
    /// function must be stored in register 0.
    fn read_function(&mut self, opcode: OpCode, wide: bool, root: bool, at: usize) -> (r: Result<(RegisterId, FunctionDef)>)
        requires
            old(self).wf(),
        ensures
            rejects_as_invalid(r),
            final(self).keeps_scopes(old(self)),
            old(self).after_opcode(at, opcode, wide) ==> (r is Ok <==> function_end(
                old(self).code@,
                constant_views(old(self).constants@),
                old(self).scopes@,
                old(self).loop_depth as nat,
                at as int,
                root,
            ) is Some),
            old(self).after_opcode(at, opcode, wide) && r is Ok ==> spans(
                old(self).code@,
                constant_views(old(self).constants@),
                old(self).scopes@.push(r.unwrap().1.register_count),
                old(self).loop_depth as nat,
                r.unwrap().1.body@,
                params_end(old(self).code@, at as int, 3),
                seq![OpCode::FuncEnd],
            ),
            old(self).after_opcode(at, opcode, wide) && r is Ok ==> chain_end(
                old(self).code@,
                constant_views(old(self).constants@),
                old(self).scopes@.push(r.unwrap().1.register_count),
                old(self).loop_depth as nat,
                r.unwrap().1.body@,
                params_end(old(self).code@, at as int, 3),
            ) == Some(final(self).offset - 1),
            old(self).after_opcode(at, opcode, wide) && r is Ok ==> function_end(
                old(self).code@,
                constant_views(old(self).constants@),
                old(self).scopes@,
                old(self).loop_depth as nat,
                at as int,
                root,
            ) == Some(final(self).offset as int),
            r is Ok ==> {
                let (destination, function) = r.unwrap();
                &&& final(self).wf()
                &&& final(self).extends(old(self))
                &&& final(self).offset > old(self).offset
                &&& root ==> destination.0 == 0
                &&& !root ==> register_ok(destination, old(self).scopes@)
                &&& function.offset == at
                &&& function.variadic == (opcode == OpCode::FuncVarg)
                &&& destination.0 == param_at(old(self).code@, old(self).offset as int, wide)
                &&& function.arg_count == param_at(
                    old(self).code@,
                    old(self).offset + param_width(wide),
                    wide,
                )
                &&& function.register_count == param_at(
                    old(self).code@,
                    old(self).offset + 2 * param_width(wide),
                    wide,
                )
                &&& function.arg_count <= function.register_count
                &&& block_ok(
                    final(self).tables(),
                    function.body@,
                    old(self).scopes@.push(function.register_count),
                    old(self).loop_depth as nat,
                    final(self).functions@.len(),
                )
            },
        decreases old(self).code@.len() - old(self).offset, 0int,
    {
        reveal(function_end);
        let ghost entry = *self;
        proof {
            if entry.after_opcode(at, opcode, wide) {
                Self::lemma_param(self, at as int, 0, wide);
            }
        }
        let destination = self.read_param(wide, at)?;
        if root {
            if destination != 0 {
                return Err(MiraError::invalid_bytecode(at, InvalidBytecodeReason::BadRootDestination));
            }
        } else {
            self.validate_register(destination, at)?;
        }
        proof {
            if entry.after_opcode(at, opcode, wide) {
                Self::lemma_param(self, at as int, 1, wide);
            }
        }
        let arg_count = self.read_param(wide, at)?;
        proof {
            if entry.after_opcode(at, opcode, wide) {
                Self::lemma_param(self, at as int, 2, wide);
            }
        }
        let register_count = self.read_param(wide, at)?;
        if arg_count > register_count {
            return Err(MiraError::invalid_bytecode(at, InvalidBytecodeReason::FunctionArgCountMismatch(arg_count, register_count)));
        }
        let ghost outer = self.scopes@;
        self.scopes.push(register_count);
        let terminals = [OpCode::FuncEnd];
        proof {
            assert(terminals@ =~= seq![OpCode::FuncEnd]);
        }
        let block = self.read_block(&terminals);
        self.scopes.pop();
        proof {
            assert(self.scopes@ =~= outer);
        }
        let (body, _) = block?;
        Ok((RegisterId(destination), FunctionDef {
            offset: at,
            arg_count,
            register_count,
            variadic: opcode == OpCode::FuncVarg,
            body,
        }))
    }

    /// Read a conditional: the tested register, the then-block up to
    /// `Else` or `IfEnd`, and after `Else` the else-block up to `IfEnd`.
    fn read_if(&mut self, opcode: OpCode, wide: bool, at: usize) -> (r: Result<InstructionKind>)
        requires
            old(self).wf(),
            old(self).after_opcode(at, opcode, wide),
            opcode == OpCode::If || opcode == OpCode::IfNot || opcode == OpCode::IfInit
                || opcode == OpCode::IfNotInit || opcode == OpCode::IfNil || opcode == OpCode::IfNotNil,
        ensures
            rejects_as_invalid(r),
            final(self).keeps_scopes(old(self)),
            r is Ok <==> if_end(
                old(self).code@,
                constant_views(old(self).constants@),
                old(self).scopes@,
                old(self).loop_depth as nat,
                at as int,
            ) is Some,
            r is Ok ==> if_end(
                old(self).code@,
                constant_views(old(self).constants@),
                old(self).scopes@,
                old(self).loop_depth as nat,
                at as int,
            ) == Some(final(self).offset as int),
            r is Ok ==> {
                &&& final(self).wf()
                &&& final(self).extends(old(self))
                &&& final(self).offset > old(self).offset
                &&& r.unwrap() is If
                &&& kind_matches(opcode, r.unwrap())
                &&& instruction_ok(
                    final(self).tables(),
                    Instruction { offset: at, kind: r.unwrap() },
                    old(self).scopes@,
                    old(self).loop_depth as nat,
                    final(self).functions@.len(),
                )
            },
        decreases old(self).code@.len() - old(self).offset, 0int,
    {
        reveal(if_end);
        proof {
            lemma_code_roundtrip(opcode);
        }
        let ghost entry = *self;
        proof {
            Self::lemma_param(self, at as int, 0, wide);
        }
        let register = self.read_register(wide, at)?;
        let condition = match opcode {
            OpCode::If => Condition::Truthy,
            OpCode::IfNot => Condition::Falsy,
            OpCode::IfInit => Condition::Initialized,
            OpCode::IfNotInit => Condition::Uninitialized,
            OpCode::IfNil => Condition::Nil,
            _ => Condition::NonNil,
        };
        let ghost first = *self;
        let then_terminals = [OpCode::Else, OpCode::IfEnd];
        proof {
            assert(then_terminals@ =~= seq![OpCode::Else, OpCode::IfEnd]);
        }
        let (then_body, terminal) = self.read_block(&then_terminals)?;
        let ghost second = *self;
        let else_body = if terminal == OpCode::Else {
            let else_terminals = [OpCode::IfEnd];
            proof {
                assert(else_terminals@ =~= seq![OpCode::IfEnd]);
            }
            self.read_block(&else_terminals)?.0
        } else {
            proof {
                Self::lemma_extends_refl(self);
            }
            Vec::new()
        };
        proof {
            Self::lemma_extends_trans(&first, &second, self);
            lemma_block_extend(
                second.tables(),
                self.tables(),
                then_body@,
                first.scopes@,
                first.loop_depth as nat,
                second.functions@.len(),
                self.functions@.len(),
            );
        }
        proof {
            Self::lemma_moved_extends(&entry, &first);
            Self::lemma_extends_trans(&entry, &first, self);
        }
        Ok(InstructionKind::If { condition, register, then_body, else_body })
    }

    /// Read a loop: the register count of the body's frame, the registers
    /// the loop kind reads, then the body up to `LoopEnd` in a scope of its
    /// own, one loop deeper.
    fn read_loop(&mut self, opcode: OpCode, wide: bool, at: usize) -> (r: Result<InstructionKind>)
        requires
            old(self).wf(),
            old(self).after_opcode(at, opcode, wide),
            opcode == OpCode::Loop || opcode == OpCode::LoopFor || opcode == OpCode::LoopRange
                || opcode == OpCode::LoopRangeExclusive,
        ensures
            rejects_as_invalid(r),
            final(self).keeps_scopes(old(self)),
            r is Ok <==> loop_end(
                old(self).code@,
                constant_views(old(self).constants@),
                old(self).scopes@,
                old(self).loop_depth as nat,
                at as int,
                opcode,
            ) is Some,
            r is Ok ==> loop_end(
                old(self).code@,
                constant_views(old(self).constants@),
                old(self).scopes@,
                old(self).loop_depth as nat,
                at as int,
                opcode,
            ) == Some(final(self).offset as int),
            r is Ok ==> {
                &&& final(self).wf()
                &&& final(self).extends(old(self))
                &&& final(self).offset > old(self).offset
                &&& r.unwrap() is Loop
                &&& kind_matches(opcode, r.unwrap())
                &&& instruction_ok(
                    final(self).tables(),
                    Instruction { offset: at, kind: r.unwrap() },
                    old(self).scopes@,
                    old(self).loop_depth as nat,
                    final(self).functions@.len(),
                )
            },
        decreases old(self).code@.len() - old(self).offset, 0int,
    {
        reveal(loop_end);
        proof {
            lemma_code_roundtrip(opcode);
        }
        let ghost entry = *self;
        proof {
            Self::lemma_param(self, at as int, 0, wide);
        }
        let register_count = self.read_param(wide, at)?;
        proof {
            Self::lemma_param(self, at as int, 1, wide);
        }
        let kind = match opcode {
            OpCode::Loop => LoopKind::Infinite,
            OpCode::LoopFor => {
                let value = match self.read_register(wide, at) {
                    Ok(value) => value,
                    Err(e) => {
                        proof {
                            assert(!register_param_from(entry.code@, at as int, 1, 0, entry.scopes@));
                        }
                        return Err(e);
                    },
                };
                proof {
                    assert forall|i: int| 0 <= i < 1 implies #[trigger] register_param_from(entry.code@, at as int, 1, i, entry.scopes@) by {
                        assert(i == 0);
                    }
                }
                LoopKind::Iterable { value }
            },
            _ => {
                let start = match self.read_register(wide, at) {
                    Ok(start) => start,
                    Err(e) => {
                        proof {
                            assert(!register_param_from(entry.code@, at as int, 1, 0, entry.scopes@));
                        }
                        return Err(e);
                    },
                };
                proof {
                    Self::lemma_param(self, at as int, 2, wide);
                }
                let end = match self.read_register(wide, at) {
                    Ok(end) => end,
                    Err(e) => {
                        proof {
                            assert(!register_param_from(entry.code@, at as int, 1, 1, entry.scopes@));
                        }
                        return Err(e);
                    },
                };
                proof {
                    assert(register_param_from(entry.code@, at as int, 1, 0, entry.scopes@));
                    assert(register_param_from(entry.code@, at as int, 1, 1, entry.scopes@));
                    assert forall|i: int| 0 <= i < 2 implies #[trigger] register_param_from(entry.code@, at as int, 1, i, entry.scopes@) by {
                        assert(i == 0 || i == 1);
                    }
                }
                LoopKind::Range { start, end, exclusive: opcode == OpCode::LoopRangeExclusive }
            },
        };
        let ghost outer = self.scopes@;
        self.scopes.push(register_count);
        self.loop_depth = self.loop_depth + 1;
        let terminals = [OpCode::LoopEnd];
        proof {
            assert(terminals@ =~= seq![OpCode::LoopEnd]);
        }
        let block = self.read_block(&terminals);
        self.loop_depth = self.loop_depth - 1;
        self.scopes.pop();
        proof {
            assert(self.scopes@ =~= outer);
        }
        let (body, _) = block?;
        let reuse_frame = !block_may_capture_frame(&body);
        Ok(InstructionKind::Loop { register_count, kind, body, reuse_frame })
    }

    /// Read a record literal: the destination, then fields and spreads up
    /// to `Freeze`.
    #[verifier::rlimit(40)]
    fn read_record(&mut self, opcode: OpCode, wide: bool, at: usize) -> (r: Result<InstructionKind>)
        requires
            old(self).wf(),
            old(self).after_opcode(at, opcode, wide),
            opcode == OpCode::Record,
        ensures
            rejects_as_invalid(r),
            final(self).keeps_scopes(old(self)),
            r is Ok <==> register_param(old(self).code@, at as int, 0, old(self).scopes@) && record_elements_end(
                old(self).code@,
                constant_views(old(self).constants@),
                old(self).scopes@,
                params_end(old(self).code@, at as int, 1),
            ) is Some,
            r is Ok ==> final(self).offset == record_elements_end(
                old(self).code@,
                constant_views(old(self).constants@),
                old(self).scopes@,
                params_end(old(self).code@, at as int, 1),
            ).unwrap(),
            r is Ok ==> {
                &&& final(self).wf()
                &&& final(self).moved(old(self))
                &&& final(self).offset > old(self).offset
                &&& r.unwrap() is Record
                &&& kind_matches(opcode, r.unwrap())
                &&& instruction_ok(
                    final(self).tables(),
                    Instruction { offset: at, kind: r.unwrap() },
                    old(self).scopes@,
                    old(self).loop_depth as nat,
                    final(self).functions@.len(),
                )
            },
    {
        reveal(record_elements_end);
        proof {
            lemma_code_roundtrip(opcode);
        }
        let ghost start = *self;
        proof {
            Self::lemma_param(self, at as int, 0, wide);
        }
        let destination = self.read_register(wide, at)?;
        let ghost elements_start = self.offset as int;
        let mut elements: Vec<RecordElement> = Vec::new();
        loop
            invariant_except_break
                record_elements_span(start.code@, constant_views(start.constants@), elements@, elements_start) == Some(self.offset as int),
                record_elements_end(start.code@, constant_views(start.constants@), start.scopes@, self.offset as int)
                    == record_elements_end(start.code@, constant_views(start.constants@), start.scopes@, elements_start),
            invariant
                self.wf(),
                self.moved(&start),
                self.offset > start.offset,
                start == *old(self),
                register_ok(destination, start.scopes@),
                register_param(start.code@, at as int, 0, start.scopes@),
                elements_start == params_end(start.code@, at as int, 1),
                forall|i: int|
                    0 <= i < elements@.len() ==> #[trigger] record_element_ok(
                        elements@[i],
                        start.tables(),
                        start.scopes@,
                    ),
            ensures
                record_elements_span(start.code@, constant_views(start.constants@), elements@, elements_start) == Some(self.offset - 1),
                0 < self.offset <= self.code@.len(),
                opcode_at(self.code@, self.offset - 1) == Some(OpCode::Freeze),
                record_elements_end(start.code@, constant_views(start.constants@), start.scopes@, elements_start) == Some(
                    self.offset as int,
                ),
            decreases self.code@.len() - self.offset,
        {
            let ghost o = self.offset as int;
            reveal(record_elements_end);
            proof {
                if o < self.code@.len() {
                    lemma_opcode_at(self.code@, o);
                }
            }
            let (opcode, element_wide, element_at) = self.read_opcode()?;
            proof {
                lemma_code_roundtrip(opcode);
                assert(opcode_at(self.code@, o) == Some(opcode));
                Self::lemma_param(self, o, 0, element_wide);
            }
            let ghost before = elements@;
            match opcode {
                OpCode::Field | OpCode::FieldOpt => {
                    let ghost index = self.next_param(element_wide);
                    let key = self.read_string_constant(element_wide, element_at)?;
                    proof {
                        Self::lemma_param(self, o, 1, element_wide);
                    }
                    let value = self.read_register(element_wide, element_at)?;
                    proof {
                        assert(constant_views(self.constants@)[index as int] == ConstantView::String(key@));
                    }
                    elements.push(RecordElement::Field {
                        key: RecordKey::Constant(key),
                        value,
                        optional: opcode == OpCode::FieldOpt,
                    });
                },
                OpCode::FieldDyn | OpCode::FieldOptDyn => {
                    let key = self.read_register(element_wide, element_at)?;
                    proof {
                        Self::lemma_param(self, o, 1, element_wide);
                    }
                    let value = self.read_register(element_wide, element_at)?;
                    elements.push(RecordElement::Field {
                        key: RecordKey::Dynamic(key),
                        value,
                        optional: opcode == OpCode::FieldOptDyn,
                    });
                },
                OpCode::FieldIndex | OpCode::FieldOptIndex => {
                    let key = self.read_index(element_wide, element_at)?;
                    proof {
                        Self::lemma_param(self, o, 1, element_wide);
                    }
                    let value = self.read_register(element_wide, element_at)?;
                    elements.push(RecordElement::Field {
                        key: RecordKey::Index(key),
                        value,
                        optional: opcode == OpCode::FieldOptIndex,
                    });
                },
                OpCode::Spread => {
                    let value = self.read_register(element_wide, element_at)?;
                    elements.push(RecordElement::Spread(value));
                },
                OpCode::Freeze => {
                    if element_wide {
                        return Err(MiraError::invalid_bytecode(element_at, InvalidBytecodeReason::UnsupportedWide));
                    }
                    break;
                },
                _ => {
                    return Err(MiraError::invalid_bytecode(element_at, InvalidBytecodeReason::UnexpectedOpCode(opcode)));
                },
            }
            proof {
                assert(elements@.drop_last() =~= before);
                assert forall|i: int| 0 <= i < elements@.len() implies #[trigger] record_element_ok(
                    elements@[i],
                    start.tables(),
                    start.scopes@,
                ) by {
                    if i < before.len() {
                        assert(elements@[i] == before[i]);
                    }
                }
            }
        }
        assert(self.tables() == start.tables());
        Ok(InstructionKind::Record { destination, elements })
    }

    /// Read an array literal: the destination, then items, ranges and
    /// spreads up to `Freeze`.
    #[verifier::rlimit(40)]
    fn read_array(&mut self, opcode: OpCode, wide: bool, at: usize) -> (r: Result<InstructionKind>)
        requires
            old(self).wf(),
            old(self).after_opcode(at, opcode, wide),
            opcode == OpCode::Array,
        ensures
            rejects_as_invalid(r),
            final(self).keeps_scopes(old(self)),
            r is Ok <==> register_param(old(self).code@, at as int, 0, old(self).scopes@) && array_elements_end(
                old(self).code@,
                old(self).scopes@,
                params_end(old(self).code@, at as int, 1),
            ) is Some,
            r is Ok ==> final(self).offset == array_elements_end(
                old(self).code@,
                old(self).scopes@,
                params_end(old(self).code@, at as int, 1),
            ).unwrap(),
            r is Ok ==> {
                &&& final(self).wf()
                &&& final(self).moved(old(self))
                &&& final(self).offset > old(self).offset
                &&& r.unwrap() is Array
                &&& kind_matches(opcode, r.unwrap())
                &&& instruction_ok(
                    final(self).tables(),
                    Instruction { offset: at, kind: r.unwrap() },
                    old(self).scopes@,
                    old(self).loop_depth as nat,
                    final(self).functions@.len(),
                )
            },
    {
        reveal(array_elements_end);
        proof {
            lemma_code_roundtrip(opcode);
        }
        let ghost start = *self;
        proof {
            Self::lemma_param(self, at as int, 0, wide);
        }
        let destination = self.read_register(wide, at)?;
        let ghost elements_start = self.offset as int;
        let mut elements: Vec<ArrayElement> = Vec::new();
        loop
            invariant_except_break
                array_elements_span(start.code@, elements@, elements_start) == Some(self.offset as int),
                array_elements_end(start.code@, start.scopes@, self.offset as int)
                    == array_elements_end(start.code@, start.scopes@, elements_start),
            invariant
                self.wf(),
                self.moved(&start),
                self.offset > start.offset,
                start == *old(self),
                register_ok(destination, start.scopes@),
                register_param(start.code@, at as int, 0, start.scopes@),
                elements_start == params_end(start.code@, at as int, 1),
                forall|i: int|
                    0 <= i < elements@.len() ==> #[trigger] array_element_ok(elements@[i], start.scopes@),
            ensures
                array_elements_span(start.code@, elements@, elements_start) == Some(self.offset - 1),
                0 < self.offset <= self.code@.len(),
                opcode_at(self.code@, self.offset - 1) == Some(OpCode::Freeze),
                array_elements_end(start.code@, start.scopes@, elements_start) == Some(self.offset as int),
            decreases self.code@.len() - self.offset,
        {
            let ghost o = self.offset as int;
            reveal(array_elements_end);
            proof {
                if o < self.code@.len() {
                    lemma_opcode_at(self.code@, o);
                }
            }
            let (opcode, element_wide, element_at) = self.read_opcode()?;
            proof {
                lemma_code_roundtrip(opcode);
                assert(opcode_at(self.code@, o) == Some(opcode));
                Self::lemma_param(self, o, 0, element_wide);
            }
            let ghost before = elements@;
            match opcode {
                OpCode::Item => {
                    let value = self.read_register(element_wide, element_at)?;
                    elements.push(ArrayElement::Item(value));
                },
                OpCode::ItemRange => {
                    let start_index = self.read_index(element_wide, element_at)?;
                    proof {
                        Self::lemma_param(self, o, 1, element_wide);
                    }
                    let end_index = self.read_index(element_wide, element_at)?;
                    elements.push(ArrayElement::Range {
                        start: RangeEndpoint::Constant(start_index),
                        end: RangeEndpoint::Constant(end_index),
                        exclusive: false,
                    });
                },
                OpCode::ItemRangeDyn | OpCode::ItemRangeExclusiveDyn => {
                    let start_register = self.read_register(element_wide, element_at)?;
                    proof {
                        Self::lemma_param(self, o, 1, element_wide);
                    }
                    let end_register = self.read_register(element_wide, element_at)?;
                    elements.push(ArrayElement::Range {
                        start: RangeEndpoint::Dynamic(start_register),
                        end: RangeEndpoint::Dynamic(end_register),
                        exclusive: opcode == OpCode::ItemRangeExclusiveDyn,
                    });
                },
                OpCode::Spread => {
                    let value = self.read_register(element_wide, element_at)?;
                    elements.push(ArrayElement::Spread(value));
                },
                OpCode::Freeze => {
                    if element_wide {
                        return Err(MiraError::invalid_bytecode(element_at, InvalidBytecodeReason::UnsupportedWide));
                    }
                    break;
                },
                _ => {
                    return Err(MiraError::invalid_bytecode(element_at, InvalidBytecodeReason::UnexpectedOpCode(opcode)));
                },
            }
            proof {
                assert(elements@.drop_last() =~= before);
                assert forall|i: int| 0 <= i < elements@.len() implies #[trigger] array_element_ok(
                    elements@[i],
                    start.scopes@,
                ) by {
                    if i < before.len() {
                        assert(elements@[i] == before[i]);
                    }
                }
            }
        }
        assert(self.tables() == start.tables());
        Ok(InstructionKind::Array { destination, elements })
    }

    /// Read a module: the destination and name, then exported fields up to
    /// `Freeze`; no key may be exported twice.
    #[verifier::rlimit(40)]
    fn read_module(&mut self, opcode: OpCode, wide: bool, at: usize) -> (r: Result<InstructionKind>)
        requires
            old(self).wf(),
            old(self).after_opcode(at, opcode, wide),
            opcode == OpCode::Module,
        ensures
            rejects_as_invalid(r),
            final(self).keeps_scopes(old(self)),
            register_param(old(self).code@, at as int, 0, old(self).scopes@) && index_param(
                old(self).code@,
                at as int,
                1,
                old(self).constants@.len(),
            ) && constant_views(old(self).constants@)[operand(old(self).code@, at as int, 1) as int] is String
                ==> match module_duplicate(
                old(self).code@,
                constant_views(old(self).constants@),
                old(self).scopes@,
                params_end(old(self).code@, at as int, 2),
                Seq::empty(),
            ) {
                Some((offset, key)) => duplicate_key_error(r, offset, key),
                None => true,
            },
            r is Ok <==> {
                &&& register_param(old(self).code@, at as int, 0, old(self).scopes@)
                &&& index_param(old(self).code@, at as int, 1, old(self).constants@.len())
                &&& constant_views(old(self).constants@)[operand(old(self).code@, at as int, 1) as int] is String
                &&& module_fields_end(
                    old(self).code@,
                    constant_views(old(self).constants@),
                    old(self).scopes@,
                    params_end(old(self).code@, at as int, 2),
                    Seq::empty(),
                ) is Some
            },
            r is Ok ==> final(self).offset == module_fields_end(
                old(self).code@,
                constant_views(old(self).constants@),
                old(self).scopes@,
                params_end(old(self).code@, at as int, 2),
                Seq::empty(),
            ).unwrap(),
            r is Ok ==> {
                &&& final(self).wf()
                &&& final(self).moved(old(self))
                &&& final(self).offset > old(self).offset
                &&& r.unwrap() is Module
                &&& kind_matches(opcode, r.unwrap())
                &&& instruction_ok(
                    final(self).tables(),
                    Instruction { offset: at, kind: r.unwrap() },
                    old(self).scopes@,
                    old(self).loop_depth as nat,
                    final(self).functions@.len(),
                )
            },
    {
        reveal(module_fields_end);
        proof {
            lemma_code_roundtrip(opcode);
        }
        let ghost start = *self;
        proof {
            Self::lemma_param(self, at as int, 0, wide);
        }
        let destination = self.read_register(wide, at)?;
        proof {
            Self::lemma_param(self, at as int, 1, wide);
        }
        let ghost name_index = self.next_param(wide);
        let name = self.read_string_constant(wide, at)?;
        proof {
            assert(constant_views(self.constants@)[name_index as int] == ConstantView::String(name@));
        }
        let ghost fields_start = self.offset as int;
        let mut fields: Vec<(String, RegisterId)> = Vec::new();
        proof {
            assert(field_keys(fields@) =~= Seq::<Seq<char>>::empty());
        }
        loop
            invariant_except_break
                module_duplicate(start.code@, constant_views(start.constants@), start.scopes@, self.offset as int, field_keys(fields@))
                    == module_duplicate(start.code@, constant_views(start.constants@), start.scopes@, fields_start, Seq::empty()),
                module_fields_span(start.code@, constant_views(start.constants@), fields@, fields_start) == Some(self.offset as int),
                module_fields_end(start.code@, constant_views(start.constants@), start.scopes@, self.offset as int, field_keys(fields@))
                    == module_fields_end(start.code@, constant_views(start.constants@), start.scopes@, fields_start, Seq::empty()),
            invariant
                self.wf(),
                self.moved(&start),
                self.offset > start.offset,
                start == *old(self),
                register_ok(destination, start.scopes@),
                is_string_constant(start.tables().constants, name@),
                module_fields_ok(fields@, start.tables(), start.scopes@),
                register_param(start.code@, at as int, 0, start.scopes@),
                index_param(start.code@, at as int, 1, start.constants@.len()),
                constant_views(start.constants@)[operand(start.code@, at as int, 1) as int] is String,
                fields_start == params_end(start.code@, at as int, 2),
            ensures
                module_duplicate(start.code@, constant_views(start.constants@), start.scopes@, fields_start, Seq::empty()) is None,
                module_fields_span(start.code@, constant_views(start.constants@), fields@, fields_start) == Some(self.offset - 1),
                0 < self.offset <= self.code@.len(),
                opcode_at(self.code@, self.offset - 1) == Some(OpCode::Freeze),
                module_fields_end(start.code@, constant_views(start.constants@), start.scopes@, fields_start, Seq::empty())
                    == Some(self.offset as int),
            decreases self.code@.len() - self.offset,
        {
            let ghost o = self.offset as int;
            reveal(module_fields_end);
            proof {
                if o < self.code@.len() {
                    lemma_opcode_at(self.code@, o);
                }
            }
            let (opcode, field_wide, field_at) = self.read_opcode()?;
            proof {
                lemma_code_roundtrip(opcode);
                assert(opcode_at(self.code@, o) == Some(opcode));
                Self::lemma_param(self, o, 0, field_wide);
            }
            let ghost before = fields@;
            match opcode {
                OpCode::Field => {
                    let ghost key_index = self.next_param(field_wide);
                    let key = self.read_string_constant(field_wide, field_at)?;
                    proof {
                        Self::lemma_param(self, o, 1, field_wide);
                    }
                    let value = self.read_register(field_wide, field_at)?;
                    proof {
                        assert(string_param(self.code@, constant_views(self.constants@), o, 0) == key@);
                        lemma_field_keys_contains(fields@, key@);
                    }
                    if has_field(&fields, key.as_str()) {
                        return Err(MiraError::invalid_bytecode(field_at, InvalidBytecodeReason::DuplicateExportKey(key)));
                    }
                    proof {
                        assert(constant_views(self.constants@)[key_index as int] == ConstantView::String(key@));
                    }
                    fields.push((key, value));
                    proof {
                        assert(fields@.drop_last() =~= before);
                        assert(field_keys(fields@) =~= field_keys(before).push(string_param(self.code@, constant_views(self.constants@), o, 0)));
                        assert forall|i: int| 0 <= i < fields@.len() implies #[trigger] register_ok(fields@[i].1, start.scopes@) by {
                            if i < before.len() {
                                assert(fields@[i] == before[i]);
                            }
                        }
                        assert forall|i: int| 0 <= i < fields@.len() implies #[trigger] is_string_constant(start.tables().constants, fields@[i].0@) by {
                            if i < before.len() {
                                assert(fields@[i] == before[i]);
                            }
                        }
                        assert forall|i: int, j: int| 0 <= i < j < fields@.len() implies fields@[i].0@ != fields@[j].0@ by {
                            assert(fields@[i] == before[i]);
                            if j == before.len() {
                                assert(before[i].0@ != key@);
                            } else {
                                assert(fields@[j] == before[j]);
                            }
                        }
                    }
                },
                OpCode::Freeze => {
                    if field_wide {
                        return Err(MiraError::invalid_bytecode(field_at, InvalidBytecodeReason::UnsupportedWide));
                    }
                    break;
                },
                _ => {
                    return Err(MiraError::invalid_bytecode(field_at, InvalidBytecodeReason::UnexpectedOpCode(opcode)));
                },
            }
        }
        assert(self.tables() == start.tables());
        Ok(InstructionKind::Module { destination, name, fields })
    }

    /// What a reader of a simple operation promises: the state extends the
    /// earlier one, no function was added, and the operation is valid in
    /// the earlier scopes.
    spec fn decoded_operation(&self, earlier: &Self, op: Operation) -> bool {
        &&& self.wf()
        &&& self.extends(earlier)
        &&& self.functions@ == earlier.functions@
        &&& operation_ok(op, self.tables(), earlier.scopes@, earlier.loop_depth as nat)
    }

    /// Read a simple operation. A call of a global with at most four
    /// arguments and no spread becomes one of the fixed-arity calls.
    fn read_simple(&mut self, opcode: OpCode, wide: bool, at: usize) -> (r: Result<InstructionKind>)
        requires
            old(self).wf(),
            old(self).after_opcode(at, opcode, wide),
        ensures
            rejects_as_invalid(r),
            final(self).keeps_scopes(old(self)),
            (opcode == OpCode::GetUpvalue || opcode == OpCode::SetUpvalue) && bad_upvalue_level(
                old(self).code@,
                at as int,
                old(self).scopes@,
            ) ==> fails_at(
                r,
                at,
                InvalidBytecodeReason::InvalidUpvalueLevel(operand(old(self).code@, at as int, 1) as usize),
            ),
            (opcode == OpCode::Break || opcode == OpCode::Continue) && old(self).loop_depth == 0 ==> fails_at(
                r,
                at,
                InvalidBytecodeReason::UnexpectedOpCode(opcode),
            ) && final(self).offset == old(self).offset,
            !is_simple_opcode(opcode) ==> fails_at(r, at, InvalidBytecodeReason::UnexpectedOpCode(opcode))
                && final(self).offset == old(self).offset,
            r is Ok ==> if opcode == OpCode::GetGlobal || opcode == OpCode::Call {
                final(self).names_after(old(self), old(self).global_name_at(at as int))
            } else {
                final(self).global_names@ == old(self).global_names@
            },
            r is Ok ==> {
                &&& r.unwrap() is Op
                &&& final(self).decoded_operation(old(self), r.unwrap()->Op_0)
                &&& operation_matches(opcode, r.unwrap()->Op_0)
                &&& operation_layout(old(self).code@, at as int, r.unwrap()->Op_0)
                &&& slot_named(final(self).tables(), at as int, r.unwrap()->Op_0)
                &&& !(r.unwrap()->Op_0 is CallGlobal1FromGlobal)
            },
            r is Ok <==> simple_ok(
                old(self).code@,
                constant_views(old(self).constants@),
                at as int,
                opcode,
                old(self).scopes@,
                old(self).loop_depth as nat,
            ),
            r is Ok ==> final(self).offset == params_end(old(self).code@, at as int, simple_count(old(self).code@, at as int, opcode)),
    {
        reveal(simple_ok);
        let ghost entry = *self;
        let operation = match opcode {
            OpCode::Noop | OpCode::Break | OpCode::Continue => {
                if opcode != OpCode::Noop && self.loop_depth == 0 {
                    return Err(MiraError::invalid_bytecode(at, InvalidBytecodeReason::UnexpectedOpCode(opcode)));
                }
                proof {
                    Self::lemma_extends_refl(&entry);
                }
                if opcode == OpCode::Noop {
                    Operation::Noop
                } else if opcode == OpCode::Break {
                    Operation::Break
                } else {
                    Operation::Continue
                }
            },
            OpCode::Add | OpCode::Sub | OpCode::Mul | OpCode::Div | OpCode::Mod | OpCode::Pow
            | OpCode::Eq | OpCode::Neq | OpCode::Lt | OpCode::Lte | OpCode::Gt | OpCode::Gte
            | OpCode::Aeq | OpCode::Naeq | OpCode::Same | OpCode::Nsame | OpCode::In | OpCode::And
            | OpCode::Or => self.read_binary(opcode, wide, at)?,
            OpCode::Pos | OpCode::Neg | OpCode::Not | OpCode::Plus | OpCode::Type
            | OpCode::ToBoolean | OpCode::ToNumber | OpCode::ToString | OpCode::IsBoolean
            | OpCode::IsNumber | OpCode::IsString | OpCode::IsRecord | OpCode::IsArray
            | OpCode::Assign | OpCode::Length | OpCode::AssertInit | OpCode::AssertNonNil
            | OpCode::Uninit | OpCode::Return | OpCode::Swap | OpCode::GetGlobalDyn
            | OpCode::InGlobal | OpCode::Constant | OpCode::GetGlobal | OpCode::Format => {
                self.read_short(opcode, wide, at)?
            },
            OpCode::GetUpvalue | OpCode::SetUpvalue => self.read_upvalue(opcode, wide, at)?,
            OpCode::Concat | OpCode::Pick | OpCode::Omit => self.read_list(opcode, wide, at)?,
            OpCode::Call | OpCode::CallDyn => self.read_call(opcode, wide, at)?,
            OpCode::Has | OpCode::Get | OpCode::SetKey | OpCode::HasDyn | OpCode::GetDyn
            | OpCode::SetDyn | OpCode::HasIndex | OpCode::GetIndex | OpCode::SetIndex
            | OpCode::Slice | OpCode::SliceStart | OpCode::SliceEnd | OpCode::SliceDyn
            | OpCode::SliceExclusiveDyn => self.read_access(opcode, wide, at)?,
            _ => {
                return Err(MiraError::invalid_bytecode(at, InvalidBytecodeReason::UnexpectedOpCode(opcode)));
            },
        };
        Ok(InstructionKind::Op(operation))
    }

    /// Read an arithmetic, comparison or logical operation: destination,
    /// left and right registers.
    fn read_binary(&mut self, opcode: OpCode, wide: bool, at: usize) -> (r: Result<Operation>)
        requires
            old(self).wf(),
            old(self).after_opcode(at, opcode, wide),
            opcode == OpCode::Add || opcode == OpCode::Sub || opcode == OpCode::Mul || opcode
                == OpCode::Div || opcode == OpCode::Mod || opcode == OpCode::Pow || is_binary_opcode(opcode),
        ensures
            rejects_as_invalid(r),
            final(self).keeps_scopes(old(self)),
            r is Ok ==> final(self).global_names@ == old(self).global_names@,
            r is Ok ==> final(self).decoded_operation(old(self), r.unwrap()),
            r is Ok ==> operation_matches(opcode, r.unwrap()),
            r is Ok ==> operation_layout(old(self).code@, at as int, r.unwrap()),
            r is Ok <==> binary_ok(old(self).code@, at as int, old(self).scopes@),
            r is Ok ==> final(self).offset == params_end(old(self).code@, at as int, 3),
    {
        let ghost entry = *self;
        proof {
            Self::lemma_param(self, at as int, 0, wide);
        }
        let destination = self.read_register(wide, at)?;
        proof {
            Self::lemma_param(self, at as int, 1, wide);
        }
        let left = self.read_register(wide, at)?;
        proof {
            Self::lemma_param(self, at as int, 2, wide);
        }
        let right = self.read_register(wide, at)?;
        proof {
            Self::lemma_moved_extends(&entry, self);
        }
        Ok(match opcode {
            OpCode::Add => Operation::Add { destination, left, right },
            OpCode::Sub => Operation::Sub { destination, left, right },
            OpCode::Mul => Operation::Mul { destination, left, right },
            OpCode::Div => Operation::Div { destination, left, right },
            OpCode::Mod => Operation::Mod { destination, left, right },
            OpCode::Pow => Operation::Pow { destination, left, right },
            _ => Operation::Binary { kind: binary_kind(opcode), destination, left, right },
        })
    }

    /// Read an operation with a few register, constant or global operands.
    fn read_short(&mut self, opcode: OpCode, wide: bool, at: usize) -> (r: Result<Operation>)
        requires
            old(self).wf(),
            old(self).after_opcode(at, opcode, wide),
            is_unary_opcode(opcode) || opcode == OpCode::AssertInit || opcode == OpCode::AssertNonNil
                || opcode == OpCode::Uninit || opcode == OpCode::Return || opcode == OpCode::Swap
                || opcode == OpCode::GetGlobalDyn || opcode == OpCode::InGlobal || opcode == OpCode::Constant
                || opcode == OpCode::GetGlobal || opcode == OpCode::Format,
        ensures
            rejects_as_invalid(r),
            final(self).keeps_scopes(old(self)),
            r is Ok ==> if opcode == OpCode::GetGlobal {
                final(self).names_after(old(self), old(self).global_name_at(at as int))
            } else {
                final(self).global_names@ == old(self).global_names@
            },
            r is Ok ==> final(self).decoded_operation(old(self), r.unwrap()),
            r is Ok ==> operation_matches(opcode, r.unwrap()),
            r is Ok ==> operation_layout(old(self).code@, at as int, r.unwrap()),
            r is Ok ==> slot_named(final(self).tables(), at as int, r.unwrap()),
            r is Ok <==> short_ok(old(self).code@, constant_views(old(self).constants@), at as int, opcode, old(self).scopes@),
            r is Ok ==> final(self).offset == params_end(old(self).code@, at as int, short_count(opcode)),
    {
        let ghost entry = *self;
        proof {
            Self::lemma_param(self, at as int, 0, wide);
            Self::lemma_extends_refl(&entry);
        }
        let operation = match opcode {
            OpCode::AssertInit | OpCode::AssertNonNil => {
                let kind = if opcode == OpCode::AssertInit {
                    AssertOperation::Initialized
                } else {
                    AssertOperation::NonNil
                };
                proof {
                    Self::lemma_param(self, at as int, 0, wide);
                }
                let value = self.read_register(wide, at)?;
                Operation::Assert { kind, value }
            },
            OpCode::Uninit => Operation::Uninit { destination: self.read_register(wide, at)? },
            OpCode::Return => Operation::Return { value: self.read_register(wide, at)? },
            OpCode::Swap => {
                proof {
                    Self::lemma_param(self, at as int, 0, wide);
                }
                let left = self.read_register(wide, at)?;
                proof {
                    Self::lemma_param(self, at as int, 1, wide);
                }
                let right = self.read_register(wide, at)?;
                Operation::Swap { left, right }
            },
            OpCode::GetGlobalDyn => {
                proof {
                    Self::lemma_param(self, at as int, 0, wide);
                }
                let destination = self.read_register(wide, at)?;
                proof {
                    Self::lemma_param(self, at as int, 1, wide);
                }
                let key = self.read_register(wide, at)?;
                Operation::GetGlobalDyn { destination, key }
            },
            OpCode::InGlobal => {
                proof {
                    Self::lemma_param(self, at as int, 0, wide);
                }
                let destination = self.read_register(wide, at)?;
                proof {
                    Self::lemma_param(self, at as int, 1, wide);
                }
                let key = self.read_register(wide, at)?;
                Operation::InGlobal { destination, key }
            },
            OpCode::Constant => {
                proof {
                    Self::lemma_param(self, at as int, 0, wide);
                }
                let destination = self.read_register(wide, at)?;
                proof {
                    Self::lemma_param(self, at as int, 1, wide);
                }
                let constant = self.read_constant(wide, at)?;
                Operation::Constant { destination, constant }
            },
            OpCode::GetGlobal => {
                proof {
                    Self::lemma_param(self, at as int, 0, wide);
                }
                let destination = self.read_register(wide, at)?;
                proof {
                    Self::lemma_param(self, at as int, 1, wide);
                }
                let slot = self.read_global_slot(wide, at)?;
                proof {
                    assert(slot_named(self.tables(), at as int, Operation::GetGlobal { destination, slot }));
                }
                Operation::GetGlobal { destination, slot }
            },
            OpCode::Format => {
                proof {
                    Self::lemma_param(self, at as int, 0, wide);
                }
                let destination = self.read_register(wide, at)?;
                proof {
                    Self::lemma_param(self, at as int, 1, wide);
                }
                let value = self.read_register(wide, at)?;
                proof {
                    Self::lemma_param(self, at as int, 2, wide);
                }
                let format = self.read_constant(wide, at)?;
                match &self.constants[format] {
                    Constant::String(_) | Constant::Nil => {},
                    _ => {
                        return Err(MiraError::invalid_bytecode(at, InvalidBytecodeReason::InvalidConstantType));
                    },
                }
                Operation::Format { destination, value, format }
            },
            _ => {
                proof {
                    Self::lemma_param(self, at as int, 0, wide);
                }
                let destination = self.read_register(wide, at)?;
                proof {
                    Self::lemma_param(self, at as int, 1, wide);
                }
                let value = self.read_register(wide, at)?;
                Operation::Unary { kind: unary_kind(opcode), destination, value }
            },
        };
        proof {
            assert(self.functions@.take(entry.functions@.len() as int) == entry.functions@);
        }
        Ok(operation)
    }

    /// Read an upvalue access: the register of the current frame, the
    /// number of scopes up, and the register of that scope.
    fn read_upvalue(&mut self, opcode: OpCode, wide: bool, at: usize) -> (r: Result<Operation>)
        requires
            old(self).wf(),
            old(self).after_opcode(at, opcode, wide),
            opcode == OpCode::GetUpvalue || opcode == OpCode::SetUpvalue,
        ensures
            rejects_as_invalid(r),
            final(self).keeps_scopes(old(self)),
            bad_upvalue_level(old(self).code@, at as int, old(self).scopes@) ==> fails_at(
                r,
                at,
                InvalidBytecodeReason::InvalidUpvalueLevel(operand(old(self).code@, at as int, 1) as usize),
            ),
            r is Ok ==> final(self).global_names@ == old(self).global_names@,
            r is Ok ==> final(self).decoded_operation(old(self), r.unwrap()),
            r is Ok ==> operation_matches(opcode, r.unwrap()),
            r is Ok ==> operation_layout(old(self).code@, at as int, r.unwrap()),
            r is Ok <==> upvalue_ok(old(self).code@, at as int, old(self).scopes@),
            r is Ok ==> final(self).offset == params_end(old(self).code@, at as int, 3),
    {
        let ghost entry = *self;
        proof {
            Self::lemma_param(self, at as int, 0, wide);
        }
        let value = self.read_register(wide, at)?;
        proof {
            Self::lemma_param(self, at as int, 1, wide);
        }
        let level = self.read_param(wide, at)?;
        if level == 0 || level >= self.scopes.len() {
            return Err(MiraError::invalid_bytecode(at, InvalidBytecodeReason::InvalidUpvalueLevel(level)));
        }
        proof {
            Self::lemma_param(self, at as int, 2, wide);
        }
        let register = self.read_param(wide, at)?;
        let scope = self.scopes[self.scopes.len() - 1 - level];
        if register > scope {
            return Err(MiraError::invalid_bytecode(at, InvalidBytecodeReason::RegisterIndexOutOfRange(register, scope)));
        }
        let kind = if opcode == OpCode::GetUpvalue {
            UpvalueOperation::Get
        } else {
            UpvalueOperation::Put
        };
        proof {
            Self::lemma_moved_extends(&entry, self);
        }
        Ok(Operation::Upvalue { kind, value, level, register: RegisterId(register) })
    }

    /// Read an operation with a counted list: the registers to concatenate,
    /// or the key constants of a pick or omit.
    fn read_list(&mut self, opcode: OpCode, wide: bool, at: usize) -> (r: Result<Operation>)
        requires
            old(self).wf(),
            old(self).after_opcode(at, opcode, wide),
            opcode == OpCode::Concat || opcode == OpCode::Pick || opcode == OpCode::Omit,
        ensures
            rejects_as_invalid(r),
            final(self).keeps_scopes(old(self)),
            r is Ok ==> final(self).global_names@ == old(self).global_names@,
            r is Ok ==> final(self).decoded_operation(old(self), r.unwrap()),
            r is Ok ==> operation_matches(opcode, r.unwrap()),
            r is Ok ==> operation_layout(old(self).code@, at as int, r.unwrap()),
            r is Ok <==> list_ok(old(self).code@, constant_views(old(self).constants@), at as int, opcode, old(self).scopes@),
            r is Ok ==> final(self).offset == params_end(old(self).code@, at as int, list_count(old(self).code@, at as int, opcode)),
    {
        let ghost entry = *self;
        if opcode == OpCode::Concat {
            proof {
                Self::lemma_param(self, at as int, 0, wide);
            }
            let destination = self.read_register(wide, at)?;
            proof {
                Self::lemma_param(self, at as int, 1, wide);
            }
            let count = self.read_param(wide, at)?;
            let values = self.read_registers(count, wide, at, Ghost(2))?;
            proof {
                Self::lemma_moved_extends(&entry, self);
            }
            return Ok(Operation::Concat { destination, values });
        }
        proof {
            Self::lemma_param(self, at as int, 0, wide);
        }
        let destination = self.read_register(wide, at)?;
        proof {
            Self::lemma_param(self, at as int, 1, wide);
        }
        let value = self.read_register(wide, at)?;
        proof {
            Self::lemma_param(self, at as int, 2, wide);
        }
        let count = self.read_param(wide, at)?;
        let ghost before = *self;
        let mut keys: Vec<usize> = Vec::new();
        let mut index: usize = 0;
        while index < count
            invariant
                self.wf(),
                self.moved(&before),
                self.offset >= before.offset,
                at < before.code@.len(),
                opcode_byte(before.code@, at as int).1 == wide,
                self.offset == at + 1 + (3 + index) * param_width(wide),
                index <= count,
                keys@.len() == index,
                forall|i: int| 0 <= i < keys@.len() ==> #[trigger] keys@[i] < self.constants@.len(),
                params_at(before.code@, at as int, 3, keys@),
                index_params(before.code@, at as int, 3, index as int, before.constants@.len()),
                before.code@ == old(self).code@,
                before.constants@ == old(self).constants@,
                before.scopes@ == old(self).scopes@,
                before.loop_depth == old(self).loop_depth,
                opcode != OpCode::Concat,
                count == operand(before.code@, at as int, 2),
                register_param(before.code@, at as int, 0, before.scopes@),
                register_param(before.code@, at as int, 1, before.scopes@),
                has_param(before.code@, at as int, 2),
            decreases count - index,
        {
            proof {
                Self::lemma_param(self, at as int, 3 + index, wide);
            }
            let key = match self.read_constant(wide, at) {
                Ok(key) => key,
                Err(e) => {
                    proof {
                        assert(!index_param_from(before.code@, at as int, 3, index as int, before.constants@.len()));
                    }
                    return Err(e);
                },
            };
            proof {
                lemma_operand_step(at as int, 3 + index, param_width(wide));
                assert(index_param_from(before.code@, at as int, 3, index as int, before.constants@.len()));
                assert forall|i: int| 0 <= i < index + 1 implies #[trigger] index_param_from(before.code@, at as int, 3, i, before.constants@.len()) by {
                    if i < index {
                        assert(index_param_from(before.code@, at as int, 3, i, before.constants@.len()));
                    }
                }
            }
            let ghost previous = keys@;
            keys.push(key);
            proof {
                assert forall|i: int| 0 <= i < keys@.len() implies #[trigger] keys@[i]
                    == operand(before.code@, at as int, 3 + i) by {
                    if i < previous.len() {
                        assert(keys@[i] == previous[i]);
                    }
                }
            }
            index = index + 1;
        }
        let kind = if opcode == OpCode::Pick {
            PickOmitOperation::Pick
        } else {
            PickOmitOperation::Omit
        };
        proof {
            Self::lemma_moved_extends(&entry, self);
        }
        Ok(Operation::PickOmit { kind, destination, value, keys })
    }

    /// Read a call: destination, callee (a global or a register), the
    /// argument registers and the positions of the arguments to spread.
    fn read_call(&mut self, opcode: OpCode, wide: bool, at: usize) -> (r: Result<Operation>)
        requires
            old(self).wf(),
            old(self).after_opcode(at, opcode, wide),
            opcode == OpCode::Call || opcode == OpCode::CallDyn,
        ensures
            rejects_as_invalid(r),
            final(self).keeps_scopes(old(self)),
            r is Ok ==> if opcode == OpCode::Call {
                final(self).names_after(old(self), old(self).global_name_at(at as int))
            } else {
                final(self).global_names@ == old(self).global_names@
            },
            r is Ok ==> final(self).decoded_operation(old(self), r.unwrap()),
            r is Ok ==> operation_matches(opcode, r.unwrap()),
            r is Ok ==> operation_layout(old(self).code@, at as int, r.unwrap()),
            r is Ok ==> slot_named(final(self).tables(), at as int, r.unwrap()),
            r is Ok ==> !(r.unwrap() is CallGlobal1FromGlobal),
            r is Ok <==> call_ok(old(self).code@, constant_views(old(self).constants@), at as int, opcode, old(self).scopes@),
            r is Ok ==> final(self).offset == params_end(old(self).code@, at as int, call_count(old(self).code@, at as int)),
    {
        let ghost entry = *self;
        proof {
            Self::lemma_extends_refl(&entry);
        }
        proof {
            Self::lemma_param(self, at as int, 0, wide);
        }
        let destination = self.read_register(wide, at)?;
        proof {
            Self::lemma_param(self, at as int, 1, wide);
        }
        let target = if opcode == OpCode::Call {
            CallTarget::Global(self.read_global_slot(wide, at)?)
        } else {
            CallTarget::Register(self.read_register(wide, at)?)
        };
        proof {
            Self::lemma_param(self, at as int, 2, wide);
        }
        let arg_count = self.read_param(wide, at)?;
        let arguments = self.read_registers(arg_count, wide, at, Ghost(3))?;
        proof {
            Self::lemma_param(self, at as int, 3 + arg_count, wide);
        }
        let spread_count = self.read_param(wide, at)?;
        proof {
            lemma_operand_step(at as int, 3 + arg_count, param_width(wide));
        }
        let ghost before = *self;
        let mut spreads: Vec<usize> = Vec::new();
        let mut index: usize = 0;
        while index < spread_count
            invariant
                self.wf(),
                self.moved(&before),
                self.offset >= before.offset,
                at < before.code@.len(),
                opcode_byte(before.code@, at as int).1 == wide,
                self.offset == at + 1 + (4 + arg_count + index) * param_width(wide),
                index <= spread_count,
                spreads@.len() == index,
                forall|i: int| 0 <= i < spreads@.len() ==> #[trigger] spreads@[i] < arg_count,
                params_at(before.code@, at as int, 4 + arg_count, spreads@),
                before.code@ == old(self).code@,
                before.constants@ == old(self).constants@,
                before.scopes@ == old(self).scopes@,
                before.loop_depth == old(self).loop_depth,
                arg_count == operand(before.code@, at as int, 2),
                spread_count == operand(before.code@, at as int, 3 + arg_count),
                register_param(before.code@, at as int, 0, before.scopes@),
                if opcode == OpCode::Call {
                    index_param(before.code@, at as int, 1, before.constants@.len())
                } else {
                    register_param(before.code@, at as int, 1, before.scopes@)
                },
                has_param(before.code@, at as int, 2),
                register_params(before.code@, at as int, 3, arg_count as int, before.scopes@),
                has_param(before.code@, at as int, 3 + arg_count),
                index_params(before.code@, at as int, 4 + arg_count, index as int, arg_count as nat),
            decreases spread_count - index,
        {
            proof {
                Self::lemma_param(self, at as int, 4 + arg_count + index, wide);
            }
            let spread = match self.read_param(wide, at) {
                Ok(spread) => spread,
                Err(e) => {
                    proof {
                        assert(!index_param_from(before.code@, at as int, 4 + arg_count, index as int, arg_count as nat));
                    }
                    return Err(e);
                },
            };
            if spread >= arg_count {
                proof {
                    assert(!index_param_from(before.code@, at as int, 4 + arg_count, index as int, arg_count as nat));
                }
                return Err(MiraError::invalid_bytecode(at, InvalidBytecodeReason::SpreadArgumentIndexOutOfRange(spread, arg_count)));
            }
            proof {
                lemma_operand_step(at as int, 4 + arg_count + index, param_width(wide));
                assert(index_param_from(before.code@, at as int, 4 + arg_count, index as int, arg_count as nat));
                assert forall|i: int| 0 <= i < index + 1 implies #[trigger] index_param_from(before.code@, at as int, 4 + arg_count, i, arg_count as nat) by {
                    if i < index {
                        assert(index_param_from(before.code@, at as int, 4 + arg_count, i, arg_count as nat));
                    }
                }
            }
            let ghost previous = spreads@;
            spreads.push(spread);
            proof {
                assert forall|i: int| 0 <= i < spreads@.len() implies #[trigger] spreads@[i]
                    == operand(before.code@, at as int, 4 + arg_count + i) by {
                    if i < previous.len() {
                        assert(spreads@[i] == previous[i]);
                    }
                }
            }
            index = index + 1;
        }
        proof {
            assert(self.functions@.take(entry.functions@.len() as int) == entry.functions@);
        }
        Ok(quicken_call(destination, target, arguments, spreads))
    }

    /// Read a key access or a slice: destination, value, then the key or
    /// the bounds.
    fn read_access(&mut self, opcode: OpCode, wide: bool, at: usize) -> (r: Result<Operation>)
        requires
            old(self).wf(),
            old(self).after_opcode(at, opcode, wide),
            is_access_opcode(opcode) || opcode == OpCode::Slice || opcode == OpCode::SliceStart
                || opcode == OpCode::SliceEnd || opcode == OpCode::SliceDyn || opcode == OpCode::SliceExclusiveDyn,
        ensures
            rejects_as_invalid(r),
            final(self).keeps_scopes(old(self)),
            r is Ok ==> final(self).global_names@ == old(self).global_names@,
            r is Ok ==> final(self).decoded_operation(old(self), r.unwrap()),
            r is Ok ==> operation_matches(opcode, r.unwrap()),
            r is Ok ==> operation_layout(old(self).code@, at as int, r.unwrap()),
            r is Ok <==> access_ok(old(self).code@, constant_views(old(self).constants@), at as int, opcode, old(self).scopes@),
            r is Ok ==> final(self).offset == params_end(old(self).code@, at as int, access_count(opcode)),
    {
        let ghost entry = *self;
        proof {
            Self::lemma_param(self, at as int, 0, wide);
        }
        let destination = self.read_register(wide, at)?;
        proof {
            Self::lemma_param(self, at as int, 1, wide);
        }
        let value = self.read_register(wide, at)?;
        proof {
            Self::lemma_param(self, at as int, 2, wide);
        }
        let operation = match opcode {
            OpCode::Has | OpCode::Get | OpCode::SetKey => Operation::Access {
                kind: access_kind(opcode),
                destination,
                value,
                key: AccessKey::Constant(self.read_constant(wide, at)?),
            },
            OpCode::HasDyn | OpCode::GetDyn | OpCode::SetDyn => Operation::Access {
                kind: access_kind(opcode),
                destination,
                value,
                key: AccessKey::Register(self.read_register(wide, at)?),
            },
            OpCode::HasIndex | OpCode::GetIndex | OpCode::SetIndex => Operation::Access {
                kind: access_kind(opcode),
                destination,
                value,
                key: AccessKey::Index(self.read_index(wide, at)?),
            },
            OpCode::Slice => {
                let start = self.read_index(wide, at)?;
                proof {
                    Self::lemma_param(self, at as int, 3, wide);
                }
                let end = self.read_index(wide, at)?;
                Operation::Slice {
                    destination,
                    value,
                    start: Some(SliceBound::Constant(start)),
                    end: Some(SliceBound::Constant(end)),
                    exclusive: false,
                }
            },
            OpCode::SliceStart => {
                let end = self.read_index(wide, at)?;
                Operation::Slice { destination, value, start: None, end: Some(SliceBound::Constant(end)), exclusive: false }
            },
            OpCode::SliceEnd => {
                let start = self.read_index(wide, at)?;
                Operation::Slice { destination, value, start: Some(SliceBound::Constant(start)), end: None, exclusive: false }
            },
            _ => {
                let start = self.read_register(wide, at)?;
                proof {
                    Self::lemma_param(self, at as int, 3, wide);
                }
                let end = self.read_register(wide, at)?;
                Operation::Slice {
                    destination,
                    value,
                    start: Some(SliceBound::Register(start)),
                    end: Some(SliceBound::Register(end)),
                    exclusive: opcode == OpCode::SliceExclusiveDyn,
                }
            },
        };
        proof {
            Self::lemma_moved_extends(&entry, self);
        }
        Ok(operation)
    }

    /// Read `count` register parameters of the instruction at `at`, the
    /// first being its `k`-th parameter.
    fn read_registers(&mut self, count: usize, wide: bool, at: usize, k: Ghost<int>) -> (r: Result<Vec<RegisterId>>)
        requires
            old(self).wf(),
            at < old(self).code@.len(),
            opcode_byte(old(self).code@, at as int).1 == wide,
            old(self).offset == at + 1 + k@ * param_width(wide),
        ensures
            rejects_as_invalid(r),
            final(self).keeps_scopes(old(self)),
            r is Ok ==> {
                &&& final(self).wf()
                &&& final(self).moved(old(self))
                &&& final(self).offset >= old(self).offset
                &&& final(self).offset == at + 1 + (k@ + count) * param_width(wide)
                &&& r.unwrap()@.len() == count
                &&& forall|i: int| 0 <= i < count ==> #[trigger] register_ok(r.unwrap()@[i], old(self).scopes@)
                &&& registers_at(old(self).code@, at as int, k@, r.unwrap()@)
            },
            r is Ok <==> register_params(old(self).code@, at as int, k@, count as int, old(self).scopes@),
    {
        let ghost before = *self;
        let mut registers: Vec<RegisterId> = Vec::new();
        let mut index: usize = 0;
        while index < count
            invariant
                before == *old(self),
                self.wf(),
                self.moved(&before),
                self.offset >= before.offset,
                at < before.code@.len(),
                opcode_byte(before.code@, at as int).1 == wide,
                self.offset == at + 1 + (k@ + index) * param_width(wide),
                index <= count,
                registers@.len() == index,
                forall|i: int| 0 <= i < registers@.len() ==> #[trigger] register_ok(registers@[i], before.scopes@),
                registers_at(before.code@, at as int, k@, registers@),
                register_params(before.code@, at as int, k@, index as int, before.scopes@),
            decreases count - index,
        {
            proof {
                lemma_operand_step(at as int, k@ + index, param_width(wide));
            }
            let register = match self.read_register(wide, at) {
                Ok(register) => register,
                Err(e) => {
                    proof {
                        assert(!register_param_from(before.code@, at as int, k@, index as int, before.scopes@));
                    }
                    return Err(e);
                },
            };
            proof {
                assert(register_param_from(before.code@, at as int, k@, index as int, before.scopes@));
                assert forall|i: int| 0 <= i < index + 1 implies #[trigger] register_param_from(before.code@, at as int, k@, i, before.scopes@) by {
                    if i < index {
                        assert(register_param_from(before.code@, at as int, k@, i, before.scopes@));
                    }
                }
            }
            let ghost previous = registers@;
            registers.push(register);
            proof {
                assert forall|i: int| 0 <= i < registers@.len() implies #[trigger] registers@[i].0
                    == operand(before.code@, at as int, k@ + i) by {
                    if i < previous.len() {
                        assert(registers@[i] == previous[i]);
                    }
                }
            }
            index = index + 1;
        }
        Ok(registers)
    }
}

/// Whether `r` is the failure for the key `key`, exported a second time by
/// the field at `offset`.
pub open spec fn duplicate_key_error<T>(r: Result<T>, offset: int, key: Seq<char>) -> bool {
    match r {
        Err(e) => match *e {
            MiraError::InvalidBytecode { offset: at, reason: InvalidBytecodeReason::DuplicateExportKey(name) } => at
                == offset && name@ == key,
            _ => false,
        },
        Ok(_) => false,
    }
}

/// The keys of exported fields, in order.
pub open spec fn field_keys(fields: Seq<(String, RegisterId)>) -> Seq<Seq<char>> {
    fields.map_values(|field: (String, RegisterId)| field.0@)
}

/// A key is among the keys of the fields exactly when some field has it.
proof fn lemma_field_keys_contains(fields: Seq<(String, RegisterId)>, key: Seq<char>)
    ensures
        field_keys(fields).contains(key) <==> exists|i: int| 0 <= i < fields.len() && #[trigger] fields[i].0@ == key,
{
    if field_keys(fields).contains(key) {
        let i = field_keys(fields).index_of(key);
        assert(fields[i].0@ == key);
    }
    if exists|i: int| 0 <= i < fields.len() && #[trigger] fields[i].0@ == key {
        let i = choose|i: int| 0 <= i < fields.len() && #[trigger] fields[i].0@ == key;
        assert(field_keys(fields)[i] == key);
    }
}

/// Whether some exported field is named `key`.
fn has_field(fields: &Vec<(String, RegisterId)>, key: &str) -> (r: bool)
    ensures
        r == exists|i: int| 0 <= i < fields@.len() && #[trigger] fields@[i].0@ == key@,
{
    let mut index: usize = 0;
    while index < fields.len()
        invariant
            index <= fields@.len(),
            forall|j: int| 0 <= j < index ==> #[trigger] fields@[j].0@ != key@,
        decreases fields@.len() - index,
    {
        if str_eq(fields[index].0.as_str(), key) {
            return true;
        }
        index = index + 1;
    }
    false
}

/// Whether an opcode is a comparison or logical operation.
pub open spec fn is_binary_opcode(opcode: OpCode) -> bool {
    ||| opcode == OpCode::Eq
    ||| opcode == OpCode::Neq
    ||| opcode == OpCode::Lt
    ||| opcode == OpCode::Lte
    ||| opcode == OpCode::Gt
    ||| opcode == OpCode::Gte
    ||| opcode == OpCode::Aeq
    ||| opcode == OpCode::Naeq
    ||| opcode == OpCode::Same
    ||| opcode == OpCode::Nsame
    ||| opcode == OpCode::In
    ||| opcode == OpCode::And
    ||| opcode == OpCode::Or
}

/// Whether an opcode is a unary operation.
pub open spec fn is_unary_opcode(opcode: OpCode) -> bool {
    ||| opcode == OpCode::Pos
    ||| opcode == OpCode::Neg
    ||| opcode == OpCode::Not
    ||| opcode == OpCode::Plus
    ||| opcode == OpCode::Type
    ||| opcode == OpCode::ToBoolean
    ||| opcode == OpCode::ToNumber
    ||| opcode == OpCode::ToString
    ||| opcode == OpCode::IsBoolean
    ||| opcode == OpCode::IsNumber
    ||| opcode == OpCode::IsString
    ||| opcode == OpCode::IsRecord
    ||| opcode == OpCode::IsArray
    ||| opcode == OpCode::Assign
    ||| opcode == OpCode::Length
}

/// Whether an opcode is a key access.
pub open spec fn is_access_opcode(opcode: OpCode) -> bool {
    ||| opcode == OpCode::Has
    ||| opcode == OpCode::Get
    ||| opcode == OpCode::SetKey
    ||| opcode == OpCode::HasDyn
    ||| opcode == OpCode::GetDyn
    ||| opcode == OpCode::SetDyn
    ||| opcode == OpCode::HasIndex
    ||| opcode == OpCode::GetIndex
    ||| opcode == OpCode::SetIndex
}

/// The binary operation of an opcode of one.
fn binary_kind(opcode: OpCode) -> (r: BinaryOperation)
    requires
        is_binary_opcode(opcode),
    ensures
        binary_opcode(r) == opcode,
{
    match opcode {
        OpCode::Eq => BinaryOperation::Eq,
        OpCode::Neq => BinaryOperation::Neq,
        OpCode::Lt => BinaryOperation::Lt,
        OpCode::Lte => BinaryOperation::Lte,
        OpCode::Gt => BinaryOperation::Gt,
        OpCode::Gte => BinaryOperation::Gte,
        OpCode::Aeq => BinaryOperation::Aeq,
        OpCode::Naeq => BinaryOperation::Naeq,
        OpCode::Same => BinaryOperation::Same,
        OpCode::Nsame => BinaryOperation::Nsame,
        OpCode::In => BinaryOperation::In,
        OpCode::And => BinaryOperation::And,
        _ => BinaryOperation::Or,
    }
}

/// The kind of access of a key-access opcode.
fn access_kind(opcode: OpCode) -> (r: AccessOperation)
    requires
        is_access_opcode(opcode),
    ensures
        opcode == OpCode::Has || opcode == OpCode::HasDyn || opcode == OpCode::HasIndex ==> r
            == AccessOperation::Has,
        opcode == OpCode::Get || opcode == OpCode::GetDyn || opcode == OpCode::GetIndex ==> r
            == AccessOperation::Get,
        opcode == OpCode::SetKey || opcode == OpCode::SetDyn || opcode == OpCode::SetIndex ==> r
            == AccessOperation::Store,
{
    match opcode {
        OpCode::Has | OpCode::HasDyn | OpCode::HasIndex => AccessOperation::Has,
        OpCode::Get | OpCode::GetDyn | OpCode::GetIndex => AccessOperation::Get,
        _ => AccessOperation::Store,
    }
}

/// The unary operation of an opcode of one.
fn unary_kind(opcode: OpCode) -> (r: UnaryOperation)
    requires
        is_unary_opcode(opcode),
    ensures
        unary_opcode(r) == opcode,
{
    match opcode {
        OpCode::Pos => UnaryOperation::Pos,
        OpCode::Neg => UnaryOperation::Neg,
        OpCode::Not => UnaryOperation::Not,
        OpCode::Plus => UnaryOperation::Plus,
        OpCode::Type => UnaryOperation::Type,
        OpCode::ToBoolean => UnaryOperation::ToBoolean,
        OpCode::ToNumber => UnaryOperation::ToNumber,
        OpCode::ToString => UnaryOperation::ToString,
        OpCode::IsBoolean => UnaryOperation::IsBoolean,
        OpCode::IsNumber => UnaryOperation::IsNumber,
        OpCode::IsString => UnaryOperation::IsString,
        OpCode::IsRecord => UnaryOperation::IsRecord,
        OpCode::IsArray => UnaryOperation::IsArray,
        OpCode::Assign => UnaryOperation::Assign,
        _ => UnaryOperation::Length,
    }
}

/// The operation of a call: a call of a global with at most four
/// arguments and no spread is one of the fixed-arity calls, any other a
/// general call.
pub fn quicken_call(
    destination: RegisterId,
    target: CallTarget,
    arguments: Vec<RegisterId>,
    spreads: Vec<usize>,
) -> (r: Operation)
    ensures
        match target {
            CallTarget::Global(slot) => if spreads@.len() == 0 && arguments@.len() <= 4 {
                r == quickened_call(destination, slot, arguments@)
            } else {
                r == (Operation::Call { destination, target, arguments, spreads })
            },
            CallTarget::Register(_) => r == (Operation::Call { destination, target, arguments, spreads }),
        },
        r matches Operation::CallGlobal1 { argument, .. } ==> arguments@.len() == 1 && argument
            == arguments@[0],
        r matches Operation::CallGlobal2 { arguments: fixed, .. } ==> fixed@ == arguments@,
        r matches Operation::CallGlobal3 { arguments: fixed, .. } ==> fixed@ == arguments@,
        r matches Operation::CallGlobal4 { arguments: fixed, .. } ==> fixed@ == arguments@,
{
    broadcast use vstd::array::group_array_axioms;

    match target {
        CallTarget::Global(slot) => {
            if spreads.len() == 0 && arguments.len() <= 4 {
                let count = arguments.len();
                if count == 0 {
                    Operation::CallGlobal0 { destination, slot }
                } else if count == 1 {
                    Operation::CallGlobal1 { destination, slot, argument: arguments[0] }
                } else if count == 2 {
                    let fixed = [arguments[0], arguments[1]];
                    assert(fixed@ =~= arguments@);
                    Operation::CallGlobal2 { destination, slot, arguments: fixed }
                } else if count == 3 {
                    let fixed = [arguments[0], arguments[1], arguments[2]];
                    assert(fixed@ =~= arguments@);
                    Operation::CallGlobal3 { destination, slot, arguments: fixed }
                } else {
                    let fixed = [arguments[0], arguments[1], arguments[2], arguments[3]];
                    assert(fixed@ =~= arguments@);
                    Operation::CallGlobal4 { destination, slot, arguments: fixed }
                }
            } else {
                Operation::Call { destination, target, arguments, spreads }
            }
        },
        CallTarget::Register(_) => Operation::Call { destination, target, arguments, spreads },
    }
}

/// The fixed-arity call of a global with the given arguments, of which
/// there are at most four.
pub open spec fn quickened_call(destination: RegisterId, slot: usize, arguments: Seq<RegisterId>) -> Operation {
    if arguments.len() == 0 {
        Operation::CallGlobal0 { destination, slot }
    } else if arguments.len() == 1 {
        Operation::CallGlobal1 { destination, slot, argument: arguments[0] }
    } else if arguments.len() == 2 {
        Operation::CallGlobal2 { destination, slot, arguments: [arguments[0], arguments[1]] }
    } else if arguments.len() == 3 {
        Operation::CallGlobal3 { destination, slot, arguments: [arguments[0], arguments[1], arguments[2]] }
    } else {
        Operation::CallGlobal4 {
            destination,
            slot,
            arguments: [arguments[0], arguments[1], arguments[2], arguments[3]],
        }
    }
}

/// The parameter after the `k`-th starts one width further on.
proof fn lemma_operand_step(at: int, k: int, width: nat)
    ensures
        at + 1 + (k + 1) * width == at + 1 + k * width + width,
{
    assert((k + 1) * width == k * width + width) by (nonlinear_arith);
}

/// Whether `opcode` is one of `terminals`.
fn is_terminal(terminals: &[OpCode], opcode: OpCode) -> (r: bool)
    ensures
        r == terminals@.contains(opcode),
{
    let mut index: usize = 0;
    while index < terminals.len()
        invariant
            index <= terminals@.len(),
            forall|j: int| 0 <= j < index ==> terminals@[j] != opcode,
        decreases terminals@.len() - index,
    {
        if terminals[index] == opcode {
            return true;
        }
        index = index + 1;
    }
    false
}

/// The call that a fusable pair becomes: the call of the global, reading
/// its argument from the global that the first instruction read.
pub open spec fn fused_operation(previous: Instruction, next: Instruction) -> Operation {
    match previous.kind {
        InstructionKind::Op(Operation::GetGlobal { slot: argument_slot, .. }) => match next.kind {
            InstructionKind::Op(Operation::CallGlobal1 { destination, slot, .. }) => {
                Operation::CallGlobal1FromGlobal { destination, slot, argument_slot }
            },
            _ => Operation::Noop,
        },
        _ => Operation::Noop,
    }
}

/// The call that replaces `next` when the last instruction of `body` reads
/// a global into the single argument of `next`, a call of a global.
fn fused_call(body: &Vec<Instruction>, next: &Instruction) -> (r: Option<Operation>)
    ensures
        match r {
            Some(op) => body@.len() > 0 && fusable(body@.last(), *next) && op == fused_operation(
                body@.last(),
                *next,
            ),
            None => !(body@.len() > 0 && fusable(body@.last(), *next)),
        },
{
    if body.len() == 0 {
        return None;
    }
    match &body[body.len() - 1].kind {
        InstructionKind::Op(Operation::GetGlobal { destination: loaded, slot: argument_slot }) => {
            match &next.kind {
                InstructionKind::Op(Operation::CallGlobal1 { destination, slot, argument }) => {
                    if loaded.0 == argument.0 {
                        Some(Operation::CallGlobal1FromGlobal { destination: *destination, slot: *slot, argument_slot: *argument_slot })
                    } else {
                        None
                    }
                },
                _ => None,
            }
        },
        _ => None,
    }
}

} // verus!

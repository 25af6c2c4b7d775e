//! The constant table of a bytecode chunk.
use vstd::prelude::*;
use vstd::utf8::valid_utf8;
use vstd::utf8::decode_utf8;

use crate::error::{InvalidBytecodeReason, MiraError, Result};
use crate::number::{is_number_text, number_to_string, string_push, text_of};

verus! {

/// A constant of a bytecode chunk.
#[derive(Debug, Clone, PartialEq)]
pub enum Constant {
    /// `nil`.
    Nil,
    /// `true`.
    True,
    /// `false`.
    False,
    /// A 32-bit integer.
    Int(i32),
    /// A number, by its IEEE-754 binary64 bit pattern.
    Float(u64),
    /// A string.
    String(String),
}

/// A constant as mathematical data.
pub enum ConstantView {
    /// `nil`.
    Nil,
    /// `true`.
    True,
    /// `false`.
    False,
    /// A 32-bit integer.
    Int(i32),
    /// A number's bit pattern.
    Float(u64),
    /// A string's characters.
    String(Seq<char>),
}

impl View for Constant {
    type V = ConstantView;

    open spec fn view(&self) -> ConstantView {
        match self {
            Constant::Nil => ConstantView::Nil,
            Constant::True => ConstantView::True,
            Constant::False => ConstantView::False,
            Constant::Int(v) => ConstantView::Int(*v),
            Constant::Float(v) => ConstantView::Float(*v),
            Constant::String(s) => ConstantView::String(s@),
        }
    }
}

/// The character of a decimal digit.
pub open spec fn digit_char(digit: nat) -> char {
    (48 + digit) as char
}

/// The decimal digits of a natural number, most significant first.
pub open spec fn decimal_digits(n: nat) -> Seq<char>
    decreases n,
{
    if n < 10 {
        seq![digit_char(n)]
    } else {
        decimal_digits(n / 10).push(digit_char(n % 10))
    }
}

/// The decimal text of an integer, with a leading `-` when negative.
pub open spec fn decimal_text(value: int) -> Seq<char> {
    if value < 0 {
        seq!['-'] + decimal_digits((-value) as nat)
    } else {
        decimal_digits(value as nat)
    }
}

/// Append the decimal digits of `n`.
fn push_digits(out: &mut String, n: u64)
    ensures
        final(out)@ == old(out)@ + decimal_digits(n as nat),
    decreases n,
{
    if n >= 10 {
        push_digits(out, n / 10);
    }
    let digit = (n % 10) as u8;
    string_push(out, (48u8 + digit) as char);
    proof {
        if n >= 10 {
            assert(old(out)@ + decimal_digits((n / 10) as nat) + seq![digit_char((n % 10) as nat)]
                =~= old(out)@ + decimal_digits(n as nat));
        } else {
            assert(old(out)@.push(digit_char(n as nat)) =~= old(out)@ + decimal_digits(n as nat));
        }
    }
}

/// The decimal text of a 32-bit integer.
pub fn decimal_string(value: i32) -> (r: String)
    ensures
        r@ == decimal_text(value as int),
{
    let mut out = String::new();
    if value < 0 {
        string_push(&mut out, '-');
        let magnitude = (0 - (value as i64)) as u64;
        push_digits(&mut out, magnitude);
    } else {
        push_digits(&mut out, value as u64);
    }
    out
}

/// Whether `text` is the text of `constant` where a name is expected.
pub open spec fn is_source_text<F: Fn(u64, bool) -> String>(constant: Constant, text: String, render: F) -> bool {
    match constant {
        Constant::Nil => text@ == Seq::<char>::empty(),
        Constant::True => text@ == seq!['t', 'r', 'u', 'e'],
        Constant::False => text@ == seq!['f', 'a', 'l', 's', 'e'],
        Constant::Int(value) => text@ == decimal_text(value as int),
        Constant::Float(bits) => is_number_text(bits, false, render, text),
        Constant::String(s) => text@ == s@,
    }
}

impl Constant {
    /// The text of a constant where a name is expected: empty for nil,
    /// `true` and `false`, the decimal text of an integer, a number as
    /// scripts write it (with `render` giving its digits), and a string
    /// itself.
    pub fn to_source_string<F: Fn(u64, bool) -> String>(&self, render: &F) -> (r: String)
        requires
            forall|b: u64, exponent: bool| render.requires((b, exponent)),
        ensures
            is_source_text(*self, r, *render),
    {
        broadcast use vstd::array::group_array_axioms;

        match self {
            Constant::Nil => String::new(),
            Constant::True => {
                let text = text_of(&['t', 'r', 'u', 'e']);
                assert(text@ =~= seq!['t', 'r', 'u', 'e']);
                text
            },
            Constant::False => {
                let text = text_of(&['f', 'a', 'l', 's', 'e']);
                assert(text@ =~= seq!['f', 'a', 'l', 's', 'e']);
                text
            },
            Constant::Int(value) => decimal_string(*value),
            Constant::Float(bits) => number_to_string(*bits, false, render),
            Constant::String(text) => text.clone(),
        }
    }
}

/// The views of a sequence of constants.
pub open spec fn constant_views(constants: Seq<Constant>) -> Seq<ConstantView> {
    constants.map_values(|c: Constant| c@)
}

/// The little-endian unsigned number held by `width` bytes at `at`.
pub open spec fn le_value(bytes: Seq<u8>, at: int, width: nat) -> nat
    decreases width,
{
    if width == 0 {
        0
    } else {
        bytes[at] as nat + 256 * le_value(bytes, at + 1, (width - 1) as nat)
    }
}

/// Read a little-endian `u32` at `offset`.
pub fn read_u32(bytes: &[u8], offset: usize) -> (r: u32)
    requires
        offset + 4 <= bytes@.len(),
    ensures
        r as nat == le_value(bytes@, offset as int, 4),
{
    let b0 = bytes[offset] as u32;
    let b1 = bytes[offset + 1] as u32;
    let b2 = bytes[offset + 2] as u32;
    let b3 = bytes[offset + 3] as u32;
    proof {
        reveal_with_fuel(le_value, 5);
    }
    b0 + 256 * (b1 + 256 * (b2 + 256 * b3))
}

/// Read a little-endian `u64` at `offset`.
pub fn read_u64(bytes: &[u8], offset: usize) -> (r: u64)
    requires
        offset + 8 <= bytes@.len(),
    ensures
        r as nat == le_value(bytes@, offset as int, 8),
{
    let length = bytes.len();
    assert(offset + 8 <= length);
    let low = read_u32(bytes, offset) as u64;
    let high = read_u32(bytes, offset + 4) as u64;
    proof {
        lemma_le_value_split(bytes@, offset as int, 4, 4);
        assert(le_value(bytes@, offset as int + 4, 4) < 0x1_0000_0000) by {
            lemma_le_value_bound(bytes@, offset as int + 4, 4);
        }
        vstd::arithmetic::power::lemma_pow_positive(256, 4);
        reveal_with_fuel(vstd::arithmetic::power::pow, 5);
    }
    low + 0x1_0000_0000 * high
}

/// A little-endian number of `width` bytes is below `256^width`.
pub proof fn lemma_le_value_bound(bytes: Seq<u8>, at: int, width: nat)
    ensures
        le_value(bytes, at, width) < vstd::arithmetic::power::pow(256, width),
    decreases width,
{
    reveal(vstd::arithmetic::power::pow);
    if width > 0 {
        lemma_le_value_bound(bytes, at + 1, (width - 1) as nat);
        assert(bytes[at] as nat <= 255);
        let rest = le_value(bytes, at + 1, (width - 1) as nat);
        let p = vstd::arithmetic::power::pow(256, (width - 1) as nat);
        assert(bytes[at] as nat + 256 * rest < 256 * p) by (nonlinear_arith)
            requires
                bytes[at] as nat <= 255,
                rest < p,
                rest >= 0,
        ;
    }
}

/// A little-endian number splits into its low and high bytes.
pub proof fn lemma_le_value_split(bytes: Seq<u8>, at: int, low: nat, high: nat)
    ensures
        le_value(bytes, at, low + high) == le_value(bytes, at, low) + vstd::arithmetic::power::pow(
            256,
            low,
        ) * le_value(bytes, at + low, high),
    decreases low,
{
    reveal(vstd::arithmetic::power::pow);
    if low > 0 {
        lemma_le_value_split(bytes, at + 1, (low - 1) as nat, high);
        let a = le_value(bytes, at + 1, (low - 1) as nat);
        let p = vstd::arithmetic::power::pow(256, (low - 1) as nat);
        let h = le_value(bytes, at + low, high);
        assert(256 * (a + p * h) == 256 * a + (256 * p) * h) by (nonlinear_arith);
        assert((low + high - 1) as nat == (low - 1) as nat + high);
    }
}

/// The 32-bit two's-complement integer with the given unsigned encoding.
pub open spec fn as_i32(value: nat) -> int {
    if value < 0x8000_0000 {
        value as int
    } else {
        value - 0x1_0000_0000
    }
}

/// The length of the longest prefix of `bytes` that is valid UTF-8.
pub open spec fn utf8_valid_up_to(bytes: Seq<u8>) -> int {
    choose|n: int|
        0 <= n <= bytes.len() && valid_utf8(bytes.take(n)) && forall|m: int|
            n < m <= bytes.len() ==> !valid_utf8(#[trigger] bytes.take(m))
}

/// Decodes UTF-8 (`std::str::from_utf8`) on `bytes[start..end]` and copies
/// the text. On failure it reports how many bytes from `start` form the
/// longest valid prefix (`Utf8Error::valid_up_to`); the documentation
/// defines that as the largest `n` for which the first `n` bytes decode.
#[verifier::external_body]
fn utf8_string(bytes: &[u8], start: usize, end: usize) -> (r: core::result::Result<String, usize>)
    requires
        start <= end <= bytes@.len(),
    ensures
        r is Ok <==> valid_utf8(bytes@.subrange(start as int, end as int)),
        r is Ok ==> r.unwrap()@ == decode_utf8(bytes@.subrange(start as int, end as int)),
        r is Err ==> 0 <= r.unwrap_err() <= end - start,
        r is Err ==> valid_utf8(bytes@.subrange(start as int, end as int).take(r.unwrap_err() as int)),
        r is Err ==> forall|m: int|
            r.unwrap_err() < m <= end - start ==> !valid_utf8(
                #[trigger] bytes@.subrange(start as int, end as int).take(m),
            ),
{
    std::str::from_utf8(&bytes[start..end]).map(|s| s.to_owned()).map_err(|e| e.valid_up_to())
}

/// The outcome of reading one constant: the constant and the offset after
/// it, or the offset and reason of the failure.
pub enum ConstantStep {
    /// A constant and the offset after it.
    Read(ConstantView, int),
    /// A failure offset (relative to the section) and its reason.
    Fail(int, InvalidBytecodeReason),
}

/// Read the constant whose tag is at `offset` of the constant section.
pub open spec fn constant_at(bytes: Seq<u8>, offset: int) -> ConstantStep {
    let tag = bytes[offset];
    let at = offset + 1;
    if tag == 0 {
        ConstantStep::Read(ConstantView::Nil, at)
    } else if tag == 1 {
        ConstantStep::Read(ConstantView::True, at)
    } else if tag == 2 {
        ConstantStep::Read(ConstantView::False, at)
    } else if tag == 3 {
        if bytes.len() - at < 4 {
            ConstantStep::Fail(at, InvalidBytecodeReason::TruncatedConstant)
        } else {
            ConstantStep::Read(ConstantView::Int(as_i32(le_value(bytes, at, 4)) as i32), at + 4)
        }
    } else if tag == 4 {
        if bytes.len() - at < 8 {
            ConstantStep::Fail(at, InvalidBytecodeReason::TruncatedConstant)
        } else {
            ConstantStep::Read(ConstantView::Float(le_value(bytes, at, 8) as u64), at + 8)
        }
    } else if tag == 5 {
        if bytes.len() - at < 4 {
            ConstantStep::Fail(at, InvalidBytecodeReason::TruncatedConstant)
        } else {
            let length = le_value(bytes, at, 4) as int;
            let start = at + 4;
            if bytes.len() - start < length {
                ConstantStep::Fail(start, InvalidBytecodeReason::TruncatedConstant)
            } else {
                let raw = bytes.subrange(start, start + length);
                if valid_utf8(raw) {
                    ConstantStep::Read(ConstantView::String(decode_utf8(raw)), start + length)
                } else {
                    ConstantStep::Fail(start + utf8_valid_up_to(raw), InvalidBytecodeReason::InvalidStringConstant)
                }
            }
        }
    } else {
        ConstantStep::Fail(offset, InvalidBytecodeReason::UnknownConstantTag(tag))
    }
}

/// The constants from `offset` to the end of the section, or the first
/// failure (offset relative to the section, and reason).
pub open spec fn constants_from(bytes: Seq<u8>, offset: int) -> core::result::Result<
    Seq<ConstantView>,
    (int, InvalidBytecodeReason),
>
    decreases bytes.len() - offset,
{
    if offset < 0 || offset >= bytes.len() {
        Ok(Seq::empty())
    } else {
        match constant_at(bytes, offset) {
            ConstantStep::Read(constant, next) => if next <= offset {
                Ok(Seq::empty())
            } else {
                match constants_from(bytes, next) {
                    Ok(rest) => Ok(seq![constant] + rest),
                    Err(e) => Err(e),
                }
            },
            ConstantStep::Fail(at, reason) => Err((at, reason)),
        }
    }
}

/// The constant section's decoding, constants first to last.
pub open spec fn spec_decode_constants(bytes: Seq<u8>) -> core::result::Result<
    Seq<ConstantView>,
    (int, InvalidBytecodeReason),
> {
    constants_from(bytes, 0)
}

/// `prefix` followed by the outcome `rest`.
pub open spec fn after_prefix(prefix: Seq<ConstantView>, rest: core::result::Result<Seq<ConstantView>, (int, InvalidBytecodeReason)>) -> core::result::Result<
    Seq<ConstantView>,
    (int, InvalidBytecodeReason),
> {
    match rest {
        Ok(tail) => Ok(prefix + tail),
        Err(e) => Err(e),
    }
}

/// Decode a constant section. Each constant is a tag byte (0 nil, 1 true,
/// 2 false, 3 little-endian `i32`, 4 little-endian binary64, 5 a
/// little-endian `u32` length and that many UTF-8 bytes). Failure offsets are
/// reported relative to the chunk: `base_offset` is the section's position.
pub fn decode_constants(bytes: &[u8], base_offset: usize) -> (r: Result<Vec<Constant>>)
    requires
        base_offset + bytes@.len() <= usize::MAX,
    ensures
        match spec_decode_constants(bytes@) {
            Ok(constants) => r matches Ok(v) && constant_views(v@) == constants,
            Err((at, reason)) => r matches Err(e) && *e == (MiraError::InvalidBytecode {
                offset: (base_offset + at) as usize,
                reason,
            }),
        },
{
    let mut result: Vec<Constant> = Vec::new();
    let mut offset: usize = 0;
    while offset < bytes.len()
        invariant
            offset <= bytes@.len(),
            base_offset + bytes@.len() <= usize::MAX,
            spec_decode_constants(bytes@) == after_prefix(constant_views(result@), constants_from(bytes@, offset as int)),
        decreases bytes@.len() - offset,
    {
        let ghost before = constant_views(result@);
        let ghost step_offset = offset as int;
        let tag_offset = offset;
        let tag = bytes[offset];
        offset = offset + 1;
        let value = if tag == 0 {
            Constant::Nil
        } else if tag == 1 {
            Constant::True
        } else if tag == 2 {
            Constant::False
        } else if tag == 3 {
            if bytes.len() - offset < 4 {
                return Err(MiraError::invalid_bytecode(base_offset + offset, InvalidBytecodeReason::TruncatedConstant));
            }
            let raw = read_u32(bytes, offset);
            offset = offset + 4;
            let value: i32 = if raw < 0x8000_0000 {
                raw as i32
            } else {
                (raw as i64 - 0x1_0000_0000) as i32
            };
            Constant::Int(value)
        } else if tag == 4 {
            if bytes.len() - offset < 8 {
                return Err(MiraError::invalid_bytecode(base_offset + offset, InvalidBytecodeReason::TruncatedConstant));
            }
            let raw = read_u64(bytes, offset);
            offset = offset + 8;
            Constant::Float(raw)
        } else if tag == 5 {
            if bytes.len() - offset < 4 {
                return Err(MiraError::invalid_bytecode(base_offset + offset, InvalidBytecodeReason::TruncatedConstant));
            }
            let length = read_u32(bytes, offset) as usize;
            offset = offset + 4;
            if bytes.len() - offset < length {
                return Err(MiraError::invalid_bytecode(base_offset + offset, InvalidBytecodeReason::TruncatedConstant));
            }
            match utf8_string(bytes, offset, offset + length) {
                Ok(value) => {
                    offset = offset + length;
                    Constant::String(value)
                },
                Err(valid_up_to) => {
                    proof {
                        let raw = bytes@.subrange(offset as int, offset + length);
                        let n = valid_up_to as int;
                        assert(0 <= n <= raw.len() && valid_utf8(raw.take(n)) && forall|m: int|
                            n < m <= raw.len() ==> !valid_utf8(#[trigger] raw.take(m)));
                        let c = utf8_valid_up_to(raw);
                        if c < n {
                            assert(!valid_utf8(raw.take(n)));
                        } else if c > n {
                            assert(!valid_utf8(raw.take(c)));
                        }
                    }
                    return Err(MiraError::invalid_bytecode(base_offset + offset + valid_up_to, InvalidBytecodeReason::InvalidStringConstant));
                },
            }
        } else {
            return Err(MiraError::invalid_bytecode(base_offset + tag_offset, InvalidBytecodeReason::UnknownConstantTag(tag)));
        };
        let ghost value_view = value@;
        result.push(value);
        proof {
            assert(constant_views(result@) =~= before.push(value_view));
            assert(constants_from(bytes@, step_offset) == after_prefix(seq![value_view], constants_from(bytes@, offset as int)));
            assert(before.push(value_view) =~= before + seq![value_view]);
            match constants_from(bytes@, offset as int) {
                Ok(tail) => {
                    assert(before + (seq![value_view] + tail) =~= before.push(value_view) + tail);
                },
                Err(_) => {},
            }
        }
    }
    proof {
        assert(constant_views(result@) + Seq::<ConstantView>::empty() =~= constant_views(result@));
    }
    Ok(result)
}

/// The text of each constant where a name is expected.
pub fn source_texts<F: Fn(u64, bool) -> String>(constants: &Vec<Constant>, render: &F) -> (r: Vec<String>)
    requires
        forall|b: u64, exponent: bool| render.requires((b, exponent)),
    ensures
        r@.len() == constants@.len(),
        forall|i: int| 0 <= i < r@.len() ==> #[trigger] is_source_text(constants@[i], r@[i], *render),
{
    let mut texts: Vec<String> = Vec::new();
    let mut index: usize = 0;
    while index < constants.len()
        invariant
            forall|b: u64, exponent: bool| render.requires((b, exponent)),
            index <= constants@.len(),
            texts@.len() == index,
            forall|i: int| 0 <= i < texts@.len() ==> #[trigger] is_source_text(constants@[i], texts@[i], *render),
        decreases constants@.len() - index,
    {
        let text = constants[index].to_source_string(render);
        texts.push(text);
        index = index + 1;
    }
    texts
}

} // verus!

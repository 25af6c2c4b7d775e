//! How numbers are written as text. A number is held by its IEEE-754
//! binary64 bit pattern; the library decides the form of its text, and the
//! digits of a finite, nonzero number come from a renderer that the caller
//! supplies.
use vstd::prelude::*;
use vstd::string::StrSliceExecFns;

verus! {

/// The sign bit of a binary64 bit pattern.
pub const SIGN_BIT: u64 = 0x8000_0000_0000_0000;

/// The bit pattern of positive infinity; above it lie the NaNs.
pub const INFINITY_BITS: u64 = 0x7ff0_0000_0000_0000;

/// The bit pattern of `1e21`: numbers at least this large in magnitude are
/// written with an exponent.
pub const EXPONENT_FROM_BITS: u64 = 0x444b_1ae4_d6e2_ef50;

/// The bit pattern of `1e-6`: nonzero numbers smaller than this in
/// magnitude are written with an exponent.
pub const EXPONENT_BELOW_BITS: u64 = 0x3eb0_c6f7_a0b5_ed8d;

/// The form in which a number is written.
#[derive(Debug, Clone, Copy, PartialEq, Eq, Structural)]
pub enum NumberStyle {
    /// `nan`.
    NotANumber,
    /// `inf`.
    Infinity,
    /// `-inf`.
    NegativeInfinity,
    /// `0`.
    Zero,
    /// `-0`, for a negative zero when the sign of zero is kept.
    NegativeZero,
    /// The shortest decimal that reads back as the number.
    Plain,
    /// The shortest mantissa and a signed exponent, as in `1e+21`.
    Exponent,
}

/// The magnitude of a number: its bit pattern without the sign bit. For
/// finite numbers, larger magnitudes have larger patterns.
pub open spec fn magnitude_bits(bits: u64) -> u64 {
    if bits >= SIGN_BIT {
        (bits - SIGN_BIT) as u64
    } else {
        bits
    }
}

/// The form in which the number with bit pattern `bits` is written;
/// `minus_zero` keeps the sign of a negative zero.
pub open spec fn spec_number_style(bits: u64, minus_zero: bool) -> NumberStyle {
    let magnitude = magnitude_bits(bits);
    let negative = bits >= SIGN_BIT;
    if magnitude > INFINITY_BITS {
        NumberStyle::NotANumber
    } else if magnitude == INFINITY_BITS {
        if negative {
            NumberStyle::NegativeInfinity
        } else {
            NumberStyle::Infinity
        }
    } else if magnitude == 0 {
        if minus_zero && negative {
            NumberStyle::NegativeZero
        } else {
            NumberStyle::Zero
        }
    } else if magnitude >= EXPONENT_FROM_BITS || magnitude < EXPONENT_BELOW_BITS {
        NumberStyle::Exponent
    } else {
        NumberStyle::Plain
    }
}

/// The form in which a number is written.
pub fn number_style(bits: u64, minus_zero: bool) -> (r: NumberStyle)
    ensures
        r == spec_number_style(bits, minus_zero),
{
    let negative = bits >= SIGN_BIT;
    let magnitude = if negative {
        bits - SIGN_BIT
    } else {
        bits
    };
    if magnitude > INFINITY_BITS {
        NumberStyle::NotANumber
    } else if magnitude == INFINITY_BITS {
        if negative {
            NumberStyle::NegativeInfinity
        } else {
            NumberStyle::Infinity
        }
    } else if magnitude == 0 {
        if minus_zero && negative {
            NumberStyle::NegativeZero
        } else {
            NumberStyle::Zero
        }
    } else if magnitude >= EXPONENT_FROM_BITS || magnitude < EXPONENT_BELOW_BITS {
        NumberStyle::Exponent
    } else {
        NumberStyle::Plain
    }
}

/// Whether `index` is the first position of `c` in `text`.
pub open spec fn first_position(text: Seq<char>, c: char, index: int) -> bool {
    &&& 0 <= index < text.len()
    &&& text[index] == c
    &&& forall|j: int| 0 <= j < index ==> text[j] != c
}

/// Rewrite the exponent of a number's text in the form scripts use: an
/// exponent without a sign gets a `+` (`1e21` becomes `1e+21`); text
/// without an `e`, or whose exponent is signed, is kept.
pub open spec fn spec_javascript_exponent(text: Seq<char>) -> Seq<char> {
    if text.contains('e') {
        let index = choose|index: int| first_position(text, 'e', index);
        let exponent = text.subrange(index + 1, text.len() as int);
        if exponent.len() > 0 && (exponent[0] == '-' || exponent[0] == '+') {
            text
        } else {
            text.subrange(0, index + 1) + seq!['+'] + exponent
        }
    } else {
        text
    }
}

/// A character that occurs has a first position.
pub proof fn lemma_first_position_exists(text: Seq<char>, c: char)
    requires
        text.contains(c),
    ensures
        exists|index: int| first_position(text, c, index),
    decreases text.len(),
{
    let shorter = text.drop_last();
    if shorter.contains(c) {
        lemma_first_position_exists(shorter, c);
        let index = choose|index: int| first_position(shorter, c, index);
        assert(text[index] == shorter[index]);
        assert forall|j: int| 0 <= j < index implies text[j] != c by {
            assert(text[j] == shorter[j]);
        }
        assert(first_position(text, c, index));
    } else {
        assert(text[text.len() - 1] == c) by {
            let k = choose|k: int| 0 <= k < text.len() && text[k] == c;
            if k < text.len() - 1 {
                assert(shorter[k] == c);
            }
        }
        assert forall|j: int| 0 <= j < text.len() - 1 implies text[j] != c by {
            if text[j] == c {
                assert(shorter[j] == c);
            }
        }
        assert(first_position(text, c, text.len() - 1));
    }
}

/// Rewriting the exponent twice is rewriting it once.
pub proof fn lemma_javascript_exponent_idempotent(text: Seq<char>)
    ensures
        spec_javascript_exponent(spec_javascript_exponent(text)) == spec_javascript_exponent(text),
{
    if text.contains('e') {
        lemma_first_position_exists(text, 'e');
        let index = choose|index: int| first_position(text, 'e', index);
        let exponent = text.subrange(index + 1, text.len() as int);
        if !(exponent.len() > 0 && (exponent[0] == '-' || exponent[0] == '+')) {
            let once = text.subrange(0, index + 1) + seq!['+'] + exponent;
            assert(first_position(once, 'e', index)) by {
                assert(once[index] == text[index]);
                assert forall|j: int| 0 <= j < index implies once[j] != 'e' by {
                    assert(once[j] == text[j]);
                }
            }
            assert(once.contains('e')) by {
                assert(once[index] == 'e');
            }
            let chosen = choose|i: int| first_position(once, 'e', i);
            assert(chosen == index) by {
                if chosen < index {
                    assert(once[chosen] != 'e');
                } else if chosen > index {
                    assert(once[index] != 'e');
                }
            }
            let again = once.subrange(chosen + 1, once.len() as int);
            assert(again.len() > 0 && again[0] == '+') by {
                assert(again[0] == once[index + 1]);
            }
        }
    }
}

/// Appends a character to a string (`String::push`).
#[verifier::external_body]
pub(crate) fn string_push(text: &mut String, c: char)
    ensures
        final(text)@ == old(text)@.push(c),
{
    text.push(c);
}

/// Appends the characters `text[from..to]` to `out`.
fn push_chars(out: &mut String, text: &str, from: usize, to: usize)
    requires
        from <= to <= text@.len(),
    ensures
        final(out)@ == old(out)@ + text@.subrange(from as int, to as int),
{
    let mut index = from;
    while index < to
        invariant
            from <= index <= to,
            to <= text@.len(),
            out@ == old(out)@ + text@.subrange(from as int, index as int),
        decreases to - index,
    {
        let c = text.get_char(index);
        string_push(out, c);
        proof {
            assert(text@.subrange(from as int, index + 1) =~= text@.subrange(from as int, index as int).push(c));
        }
        index = index + 1;
    }
}

/// Rewrite the exponent of a number's text in the form scripts use: an
/// exponent without a sign gets a `+` (`1e21` becomes `1e+21`); text
/// without an `e`, or whose exponent is signed, is kept.
pub fn javascript_exponent(text: String) -> (r: String)
    ensures
        r@ == spec_javascript_exponent(text@),
{
    let length = text.as_str().unicode_len();
    let mut index: usize = 0;
    while index < length
        invariant
            length == text@.len(),
            index <= length,
            forall|j: int| 0 <= j < index ==> text@[j] != 'e',
        ensures
            index <= length,
            forall|j: int| 0 <= j < index ==> text@[j] != 'e',
            index < length ==> text@[index as int] == 'e',
        decreases length - index,
    {
        if text.as_str().get_char(index) == 'e' {
            break;
        }
        index = index + 1;
    }
    if index == length {
        return text;
    }
    proof {
        assert(first_position(text@, 'e', index as int));
        assert(text@.contains('e'));
        let chosen = choose|i: int| first_position(text@, 'e', i);
        assert(chosen == index) by {
            if chosen < index {
                assert(text@[chosen] != 'e');
            } else if chosen > index {
                assert(text@[index as int] != 'e');
            }
        }
    }
    if index + 1 < length {
        let next = text.as_str().get_char(index + 1);
        if next == '-' || next == '+' {
            return text;
        }
    }
    let mut out = String::new();
    push_chars(&mut out, text.as_str(), 0, index + 1);
    string_push(&mut out, '+');
    push_chars(&mut out, text.as_str(), index + 1, length);
    proof {
        let exponent = text@.subrange(index + 1, text@.len() as int);
        assert(exponent.len() > 0 ==> exponent[0] == text@[index + 1]);
        assert(out@ =~= text@.subrange(0, index + 1) + seq!['+'] + exponent);
    }
    out
}

/// Whether `text` is how the number with bit pattern `bits` is written:
/// fixed text for NaN, infinities and zeros, else the digits that
/// `render` gives, in exponent form rewritten for scripts.
pub open spec fn is_number_text<F: Fn(u64, bool) -> String>(bits: u64, minus_zero: bool, render: F, text: String) -> bool {
    match spec_number_style(bits, minus_zero) {
        NumberStyle::NotANumber => text@ == seq!['n', 'a', 'n'],
        NumberStyle::Infinity => text@ == seq!['i', 'n', 'f'],
        NumberStyle::NegativeInfinity => text@ == seq!['-', 'i', 'n', 'f'],
        NumberStyle::Zero => text@ == seq!['0'],
        NumberStyle::NegativeZero => text@ == seq!['-', '0'],
        NumberStyle::Plain => render.ensures((bits, false), text),
        NumberStyle::Exponent => exists|raw: String|
            render.ensures((bits, true), raw) && text@ == spec_javascript_exponent(raw@),
    }
}

/// The text of a number, given by its bit pattern: `nan`, `inf`, `-inf`,
/// `0` (or `-0` for a negative zero when `minus_zero` is set), and
/// otherwise the digits that `render` gives, in exponent form for
/// magnitudes from `1e21` on or below `1e-6`. `render` is called with the
/// bit pattern and whether exponent form is wanted, as `{:e}` writes it.
pub fn number_to_string<F: Fn(u64, bool) -> String>(bits: u64, minus_zero: bool, render: &F) -> (r: String)
    requires
        forall|b: u64, exponent: bool| render.requires((b, exponent)),
    ensures
        is_number_text(bits, minus_zero, *render, r),
{
    broadcast use vstd::array::group_array_axioms;

    match number_style(bits, minus_zero) {
        NumberStyle::NotANumber => {
            let text = text_of(&['n', 'a', 'n']);
            assert(text@ =~= seq!['n', 'a', 'n']);
            text
        },
        NumberStyle::Infinity => {
            let text = text_of(&['i', 'n', 'f']);
            assert(text@ =~= seq!['i', 'n', 'f']);
            text
        },
        NumberStyle::NegativeInfinity => {
            let text = text_of(&['-', 'i', 'n', 'f']);
            assert(text@ =~= seq!['-', 'i', 'n', 'f']);
            text
        },
        NumberStyle::Zero => {
            let text = text_of(&['0']);
            assert(text@ =~= seq!['0']);
            text
        },
        NumberStyle::NegativeZero => {
            let text = text_of(&['-', '0']);
            assert(text@ =~= seq!['-', '0']);
            text
        },
        NumberStyle::Plain => render(bits, false),
        NumberStyle::Exponent => {
            let raw = render(bits, true);
            let ghost raw_view = raw;
            let r = javascript_exponent(raw);
            assert(render.ensures((bits, true), raw_view) && r@ == spec_javascript_exponent(raw_view@));
            r
        },
    }
}

/// A string of the given characters.
pub(crate) fn text_of(chars: &[char]) -> (r: String)
    ensures
        r@ == chars@,
{
    let mut out = String::new();
    let mut index: usize = 0;
    while index < chars.len()
        invariant
            index <= chars@.len(),
            out@ == chars@.take(index as int),
        decreases chars@.len() - index,
    {
        string_push(&mut out, chars[index]);
        proof {
            assert(chars@.take(index + 1) =~= chars@.take(index as int).push(chars@[index as int]));
        }
        index = index + 1;
    }
    proof {
        assert(chars@.take(chars@.len() as int) =~= chars@);
    }
    out
}

/// A finite nonzero number and its negation are written in the same form,
/// and one whose magnitude is at least 1e-6 and below 1e21 is written
/// plainly, whatever its sign: the form depends on the magnitude alone.
pub proof fn lemma_style_by_magnitude(bits: u64, minus_zero: bool)
    ensures
        ({
            let magnitude = if bits >= 0x8000_0000_0000_0000 {
                bits - 0x8000_0000_0000_0000
            } else {
                bits as int
            };
            let negated: u64 = if bits >= 0x8000_0000_0000_0000 {
                (bits - 0x8000_0000_0000_0000) as u64
            } else {
                (bits + 0x8000_0000_0000_0000) as u64
            };
            &&& 0 < magnitude < 0x7ff0_0000_0000_0000 ==> spec_number_style(bits, minus_zero) == spec_number_style(
                negated,
                minus_zero,
            )
            &&& 0x3eb0_c6f7_a0b5_ed8d <= magnitude < 0x444b_1ae4_d6e2_ef50 ==> spec_number_style(bits, minus_zero)
                == NumberStyle::Plain
        }),
{
}

} // verus!

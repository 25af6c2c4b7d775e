//! Which strings convert to numbers, and how: the syntax of numeric
//! strings. The final conversion of decimal digits to a binary64 number is
//! left to the caller.
use vstd::prelude::*;
use vstd::string::StrSliceExecFns;

verus! {

/// Whether a character is white space in the sense of Unicode's
/// `White_Space` property, as `char::is_whitespace` and `str::trim` use it.
pub open spec fn spec_is_whitespace(c: char) -> bool {
    let n = c as u32;
    ||| 0x9 <= n <= 0xd
    ||| n == 0x20
    ||| n == 0x85
    ||| n == 0xa0
    ||| n == 0x1680
    ||| 0x2000 <= n <= 0x200a
    ||| n == 0x2028
    ||| n == 0x2029
    ||| n == 0x202f
    ||| n == 0x205f
    ||| n == 0x3000
}

/// Whether a character is white space.
pub fn is_whitespace(c: char) -> (r: bool)
    ensures
        r == spec_is_whitespace(c),
{
    let n = c as u32;
    (0x9 <= n && n <= 0xd) || n == 0x20 || n == 0x85 || n == 0xa0 || n == 0x1680 || (0x2000 <= n
        && n <= 0x200a) || n == 0x2028 || n == 0x2029 || n == 0x202f || n == 0x205f || n == 0x3000
}

/// The position of the first character that is not white space, from the
/// start.
pub open spec fn trim_start_at(text: Seq<char>, at: int) -> int
    decreases text.len() - at,
{
    if at < 0 || at >= text.len() || !spec_is_whitespace(text[at]) {
        at
    } else {
        trim_start_at(text, at + 1)
    }
}

/// The position after the last character that is not white space, looking
/// back from `end`, but not before `start`.
pub open spec fn trim_end_at(text: Seq<char>, start: int, end: int) -> int
    decreases end - start,
{
    if end <= start || !spec_is_whitespace(text[end - 1]) {
        end
    } else {
        trim_end_at(text, start, end - 1)
    }
}

/// `text` without leading and trailing white space.
pub open spec fn spec_trim(text: Seq<char>) -> Seq<char> {
    let start = trim_start_at(text, 0);
    text.subrange(start, trim_end_at(text, start, text.len() as int))
}

/// Whether a character is a decimal digit.
pub open spec fn is_digit(c: char) -> bool {
    '0' <= c <= '9'
}

/// The position of the first character that is not a decimal digit, from
/// `at` on.
pub open spec fn digits_end(text: Seq<char>, at: int) -> int
    decreases text.len() - at,
{
    if at < 0 || at >= text.len() || !is_digit(text[at]) {
        at
    } else {
        digits_end(text, at + 1)
    }
}

/// Whether `text` is decimal digits, optionally followed by a fraction (a
/// point and at least one digit) and an exponent (`e` or `E`, an optional
/// sign, and at least one digit).
pub open spec fn spec_valid_decimal(text: Seq<char>) -> bool {
    let len = text.len() as int;
    let integer_end = digits_end(text, 0);
    let has_fraction = integer_end < len && text[integer_end] == '.';
    let fraction_end = if has_fraction {
        digits_end(text, integer_end + 1)
    } else {
        integer_end
    };
    let has_exponent = fraction_end < len && (text[fraction_end] == 'e' || text[fraction_end] == 'E');
    let exponent_start = if has_exponent {
        if fraction_end + 1 < len && (text[fraction_end + 1] == '+' || text[fraction_end + 1] == '-') {
            fraction_end + 2
        } else {
            fraction_end + 1
        }
    } else {
        fraction_end
    };
    let exponent_end = if has_exponent {
        digits_end(text, exponent_start)
    } else {
        fraction_end
    };
    &&& has_fraction ==> fraction_end > integer_end + 1
    &&& has_exponent ==> exponent_end > exponent_start
    &&& exponent_end == len
}

/// The position of the first character that is not a decimal digit, from
/// `at` on.
fn scan_digits(text: &str, at: usize) -> (r: usize)
    requires
        at <= text@.len(),
    ensures
        r == digits_end(text@, at as int),
        at <= r <= text@.len(),
{
    let length = text.unicode_len();
    let mut index = at;
    while index < length && is_ascii_digit(text.get_char(index))
        invariant
            length == text@.len(),
            at <= index <= length,
            digits_end(text@, at as int) == digits_end(text@, index as int),
        decreases length - index,
    {
        index = index + 1;
    }
    index
}

/// Whether a character is a decimal digit.
fn is_ascii_digit(c: char) -> (r: bool)
    ensures
        r == is_digit(c),
{
    '0' <= c && c <= '9'
}

/// Whether `text` is decimal digits, optionally followed by a fraction (a
/// point and at least one digit) and an exponent (`e` or `E`, an optional
/// sign, and at least one digit).
pub fn valid_decimal(text: &str) -> (r: bool)
    ensures
        r == spec_valid_decimal(text@),
{
    let length = text.unicode_len();
    let integer_end = scan_digits(text, 0);
    let mut index = integer_end;
    if index < length && text.get_char(index) == '.' {
        index = index + 1;
        let fraction = index;
        index = scan_digits(text, index);
        if index == fraction {
            return false;
        }
    }
    if index < length {
        let c = text.get_char(index);
        if c == 'e' || c == 'E' {
            index = index + 1;
            if index < length {
                let sign = text.get_char(index);
                if sign == '+' || sign == '-' {
                    index = index + 1;
                }
            }
            let exponent = index;
            index = scan_digits(text, index);
            if index == exponent {
                return false;
            }
        }
    }
    index == length
}

/// The value of a digit in a radix of at most sixteen, if it is one:
/// `0`-`9`, then `a`-`f` or `A`-`F`.
pub open spec fn radix_digit(c: char, radix: nat) -> Option<nat> {
    let value: int = if '0' <= c <= '9' {
        c as int - '0' as int
    } else if 'a' <= c <= 'f' {
        c as int - 'a' as int + 10
    } else if 'A' <= c <= 'F' {
        c as int - 'A' as int + 10
    } else {
        radix as int
    };
    if value < radix {
        Some(value as nat)
    } else {
        None
    }
}

/// The value of a string of digits in a radix, most significant first.
pub open spec fn radix_value(digits: Seq<char>, radix: nat) -> nat
    decreases digits.len(),
{
    if digits.len() == 0 {
        0
    } else {
        radix_value(digits.drop_last(), radix) * radix + radix_digit(digits.last(), radix).unwrap()
    }
}

/// The radix that a `0b`, `0o` or `0x` prefix (either case) announces, or
/// zero when there is none.
pub open spec fn radix_prefix(text: Seq<char>) -> nat {
    if text.len() >= 2 && text[0] == '0' {
        if text[1] == 'b' || text[1] == 'B' {
            2
        } else if text[1] == 'o' || text[1] == 'O' {
            8
        } else if text[1] == 'x' || text[1] == 'X' {
            16
        } else {
            0
        }
    } else {
        0
    }
}

/// The syntax of a numeric string.
#[derive(Debug, Clone, PartialEq)]
pub enum NumberSyntax {
    /// Positive infinity.
    Infinity,
    /// Negative infinity.
    NegativeInfinity,
    /// Not a number.
    NotANumber,
    /// A binary, octal or hexadecimal integer.
    Integer {
        /// Whether a `-` sign precedes it.
        negative: bool,
        /// Its magnitude.
        magnitude: u64,
    },
    /// A decimal number.
    Decimal {
        /// Whether a `-` sign precedes it.
        negative: bool,
        /// Its text without the sign.
        digits: String,
    },
}

/// The sign and the rest of a trimmed numeric string.
pub open spec fn split_sign(text: Seq<char>) -> (bool, Seq<char>) {
    if text.len() > 0 && text[0] == '-' {
        (true, text.drop_first())
    } else if text.len() > 0 && text[0] == '+' {
        (false, text.drop_first())
    } else {
        (false, text)
    }
}

/// Whether `result` is the syntax of `text` as a number: surrounding white
/// space is ignored; `inf`, `+inf`, `Infinity` and `+Infinity`, `-inf` and
/// `-Infinity`, `nan` and `NaN` are the special values; otherwise an
/// optional sign is followed by a digit that starts either a `0b`, `0o` or
/// `0x` integer whose magnitude fits in 64 bits, or a decimal number.
pub open spec fn parses_as(text: Seq<char>, result: Option<NumberSyntax>) -> bool {
    let t = spec_trim(text);
    let (negative, unsigned) = split_sign(t);
    let radix = radix_prefix(unsigned);
    let digits = unsigned.skip(2);
    if t.len() == 0 {
        result is None
    } else if t == seq!['i', 'n', 'f'] || t == seq!['+', 'i', 'n', 'f'] || t == seq![
        'I',
        'n',
        'f',
        'i',
        'n',
        'i',
        't',
        'y',
    ] || t == seq!['+', 'I', 'n', 'f', 'i', 'n', 'i', 't', 'y'] {
        result == Some(NumberSyntax::Infinity)
    } else if t == seq!['-', 'i', 'n', 'f'] || t == seq!['-', 'I', 'n', 'f', 'i', 'n', 'i', 't', 'y'] {
        result == Some(NumberSyntax::NegativeInfinity)
    } else if t == seq!['n', 'a', 'n'] || t == seq!['N', 'a', 'N'] {
        result == Some(NumberSyntax::NotANumber)
    } else if unsigned.len() == 0 || !is_digit(unsigned[0]) {
        result is None
    } else if radix != 0 {
        if digits.len() == 0 || exists|i: int| 0 <= i < digits.len() && (#[trigger] radix_digit(digits[i], radix)) is None {
            result is None
        } else if radix_value(digits, radix) > u64::MAX {
            result is None
        } else {
            result == Some(NumberSyntax::Integer { negative, magnitude: radix_value(digits, radix) as u64 })
        }
    } else if spec_valid_decimal(unsigned) {
        result matches Some(NumberSyntax::Decimal { negative: n, digits: d }) && n == negative && d@ == unsigned
    } else {
        result is None
    }
}

/// Whether `text` is exactly the given characters.
fn is_text(text: &str, expected: &[char]) -> (r: bool)
    ensures
        r == (text@ == expected@),
{
    let length = text.unicode_len();
    if length != expected.len() {
        return false;
    }
    let mut index: usize = 0;
    while index < length
        invariant
            length == text@.len(),
            length == expected@.len(),
            index <= length,
            forall|j: int| 0 <= j < index ==> text@[j] == expected@[j],
        decreases length - index,
    {
        if text.get_char(index) != expected[index] {
            return false;
        }
        index = index + 1;
    }
    assert(text@ =~= expected@);
    true
}

/// The value of a digit in a radix of at most sixteen, if it is one.
fn digit_value(c: char, radix: u64) -> (r: Option<u64>)
    requires
        radix <= 16,
    ensures
        match radix_digit(c, radix as nat) {
            Some(v) => r == Some(v as u64),
            None => r is None,
        },
{
    let value: u64 = if '0' <= c && c <= '9' {
        (c as u32 - '0' as u32) as u64
    } else if 'a' <= c && c <= 'f' {
        (c as u32 - 'a' as u32 + 10) as u64
    } else if 'A' <= c && c <= 'F' {
        (c as u32 - 'A' as u32 + 10) as u64
    } else {
        radix
    };
    if value < radix {
        Some(value)
    } else {
        None
    }
}

/// A prefix of digits is worth no more than the whole.
proof fn lemma_radix_value_prefix(digits: Seq<char>, radix: nat, k: int)
    requires
        radix >= 2,
        0 <= k <= digits.len(),
        forall|i: int| 0 <= i < digits.len() ==> (#[trigger] radix_digit(digits[i], radix)) is Some,
    ensures
        radix_value(digits.take(k), radix) <= radix_value(digits, radix),
    decreases digits.len() - k,
{
    if k < digits.len() {
        lemma_radix_value_prefix(digits, radix, k + 1);
        let shorter = digits.take(k);
        let longer = digits.take(k + 1);
        assert(longer.drop_last() =~= shorter);
        let a = radix_value(shorter, radix);
        let d = radix_digit(longer.last(), radix).unwrap();
        assert(a <= a * radix + d) by (nonlinear_arith)
            requires
                radix >= 2,
        ;
    } else {
        assert(digits.take(k) =~= digits);
    }
}

/// Read the digits of `text[from..]` in a radix: `None` when there are
/// none, when one is not a digit of the radix, or when the value does not
/// fit in 64 bits (`u64::from_str_radix`).
fn parse_radix(text: &str, from: usize, radix: u64) -> (r: Option<u64>)
    requires
        from <= text@.len(),
        radix == 2 || radix == 8 || radix == 16,
    ensures
        ({
            let digits = text@.skip(from as int);
            if digits.len() == 0 || exists|i: int|
                0 <= i < digits.len() && (#[trigger] radix_digit(digits[i], radix as nat)) is None {
                r is None
            } else if radix_value(digits, radix as nat) > u64::MAX {
                r is None
            } else {
                r == Some(radix_value(digits, radix as nat) as u64)
            }
        }),
{
    let ghost digits = text@.skip(from as int);
    let length = text.unicode_len();
    if from == length {
        return None;
    }
    let mut index = from;
    while index < length
        invariant
            radix == 2 || radix == 8 || radix == 16,
            length == text@.len(),
            from <= index <= length,
            digits == text@.skip(from as int),
            forall|i: int| 0 <= i < index - from ==> (#[trigger] radix_digit(digits[i], radix as nat)) is Some,
        decreases length - index,
    {
        match digit_value(text.get_char(index), radix) {
            Some(_) => {},
            None => {
                assert(radix_digit(digits[index - from], radix as nat) is None);
                return None;
            },
        }
        index = index + 1;
    }
    let mut value: u64 = 0;
    let mut index = from;
    while index < length
        invariant
            radix == 2 || radix == 8 || radix == 16,
            length == text@.len(),
            from <= index <= length,
            digits == text@.skip(from as int),
            forall|i: int| 0 <= i < digits.len() ==> (#[trigger] radix_digit(digits[i], radix as nat)) is Some,
            value == radix_value(digits.take(index - from), radix as nat),
        decreases length - index,
    {
        let ghost k = index - from;
        let c = text.get_char(index);
        let digit = match digit_value(c, radix) {
            Some(d) => d,
            None => 0,
        };
        proof {
            assert(digits[k] == c);
            assert(digits.take(k + 1).drop_last() =~= digits.take(k));
            assert(digits.take(k + 1).last() == c);
        }
        match value.checked_mul(radix) {
            Some(shifted) => match shifted.checked_add(digit) {
                Some(next) => {
                    value = next;
                },
                None => {
                    proof {
                        lemma_radix_value_prefix(digits, radix as nat, k + 1);
                    }
                    return None;
                },
            },
            None => {
                proof {
                    lemma_radix_value_prefix(digits, radix as nat, k + 1);
                    assert(value * radix <= value * radix + digit);
                }
                return None;
            },
        }
        index = index + 1;
    }
    proof {
        assert(digits.take(length - from) =~= digits);
    }
    Some(value)
}

/// The syntax of `text` as a number (the part of converting a string to
/// a number that decides which number it names).
pub fn parse_number_syntax(text: &str) -> (r: Option<NumberSyntax>)
    ensures
        parses_as(text@, r),
{
    broadcast use vstd::array::group_array_axioms;

    let length = text.unicode_len();
    let mut start: usize = 0;
    while start < length && is_whitespace(text.get_char(start))
        invariant
            length == text@.len(),
            start <= length,
            trim_start_at(text@, 0) == trim_start_at(text@, start as int),
        decreases length - start,
    {
        start = start + 1;
    }
    let mut end: usize = length;
    while end > start && is_whitespace(text.get_char(end - 1))
        invariant
            length == text@.len(),
            start <= end <= length,
            trim_end_at(text@, start as int, length as int) == trim_end_at(text@, start as int, end as int),
        decreases end - start,
    {
        end = end - 1;
    }
    let trimmed = text.substring_char(start, end);
    assert(trimmed@ == spec_trim(text@));
    if start == end {
        return None;
    }
    if is_text(trimmed, &['i', 'n', 'f']) || is_text(trimmed, &['+', 'i', 'n', 'f']) || is_text(
        trimmed,
        &['I', 'n', 'f', 'i', 'n', 'i', 't', 'y'],
    ) || is_text(trimmed, &['+', 'I', 'n', 'f', 'i', 'n', 'i', 't', 'y']) {
        proof {
            assert(['i', 'n', 'f']@ =~= seq!['i', 'n', 'f']);
            assert(['+', 'i', 'n', 'f']@ =~= seq!['+', 'i', 'n', 'f']);
            assert(['I', 'n', 'f', 'i', 'n', 'i', 't', 'y']@ =~= seq!['I', 'n', 'f', 'i', 'n', 'i', 't', 'y']);
            assert(['+', 'I', 'n', 'f', 'i', 'n', 'i', 't', 'y']@ =~= seq!['+', 'I', 'n', 'f', 'i', 'n', 'i', 't', 'y']);
        }
        return Some(NumberSyntax::Infinity);
    }
    proof {
        assert(['i', 'n', 'f']@ =~= seq!['i', 'n', 'f']);
        assert(['+', 'i', 'n', 'f']@ =~= seq!['+', 'i', 'n', 'f']);
        assert(['I', 'n', 'f', 'i', 'n', 'i', 't', 'y']@ =~= seq!['I', 'n', 'f', 'i', 'n', 'i', 't', 'y']);
        assert(['+', 'I', 'n', 'f', 'i', 'n', 'i', 't', 'y']@ =~= seq!['+', 'I', 'n', 'f', 'i', 'n', 'i', 't', 'y']);
    }
    if is_text(trimmed, &['-', 'i', 'n', 'f']) || is_text(trimmed, &['-', 'I', 'n', 'f', 'i', 'n', 'i', 't', 'y']) {
        proof {
            assert(['-', 'i', 'n', 'f']@ =~= seq!['-', 'i', 'n', 'f']);
            assert(['-', 'I', 'n', 'f', 'i', 'n', 'i', 't', 'y']@ =~= seq!['-', 'I', 'n', 'f', 'i', 'n', 'i', 't', 'y']);
        }
        return Some(NumberSyntax::NegativeInfinity);
    }
    proof {
        assert(['-', 'i', 'n', 'f']@ =~= seq!['-', 'i', 'n', 'f']);
        assert(['-', 'I', 'n', 'f', 'i', 'n', 'i', 't', 'y']@ =~= seq!['-', 'I', 'n', 'f', 'i', 'n', 'i', 't', 'y']);
    }
    if is_text(trimmed, &['n', 'a', 'n']) || is_text(trimmed, &['N', 'a', 'N']) {
        proof {
            assert(['n', 'a', 'n']@ =~= seq!['n', 'a', 'n']);
            assert(['N', 'a', 'N']@ =~= seq!['N', 'a', 'N']);
        }
        return Some(NumberSyntax::NotANumber);
    }
    proof {
        assert(['n', 'a', 'n']@ =~= seq!['n', 'a', 'n']);
        assert(['N', 'a', 'N']@ =~= seq!['N', 'a', 'N']);
    }
    let first = trimmed.get_char(0);
    let trimmed_length = end - start;
    let (negative, unsigned_start): (bool, usize) = if first == '-' {
        (true, 1)
    } else if first == '+' {
        (false, 1)
    } else {
        (false, 0)
    };
    let unsigned = trimmed.substring_char(unsigned_start, trimmed_length);
    proof {
        let (n, u) = split_sign(trimmed@);
        assert(n == negative);
        assert(u =~= unsigned@);
    }
    let unsigned_length = trimmed_length - unsigned_start;
    if unsigned_length == 0 || !is_ascii_digit(unsigned.get_char(0)) {
        return None;
    }
    let radix: u64 = if unsigned_length >= 2 && unsigned.get_char(0) == '0' {
        let marker = unsigned.get_char(1);
        if marker == 'b' || marker == 'B' {
            2
        } else if marker == 'o' || marker == 'O' {
            8
        } else if marker == 'x' || marker == 'X' {
            16
        } else {
            0
        }
    } else {
        0
    };
    if radix != 0 {
        return match parse_radix(unsigned, 2, radix) {
            Some(magnitude) => Some(NumberSyntax::Integer { negative, magnitude }),
            None => None,
        };
    }
    if valid_decimal(unsigned) {
        Some(NumberSyntax::Decimal { negative, digits: unsigned.to_owned() })
    } else {
        None
    }
}

/// A hexadecimal digit has the same value in either case: `a`-`f` and
/// `A`-`F` are ten to fifteen.
pub proof fn lemma_hex_digit_case(lower: char, upper: char)
    requires
        'a' <= lower <= 'f',
        upper as int == lower as int - ('a' as int - 'A' as int),
    ensures
        radix_digit(lower, 16) == Some((lower as int - 'a' as int + 10) as nat),
        radix_digit(upper, 16) == radix_digit(lower, 16),
{
}

} // verus!

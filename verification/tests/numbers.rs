use mirascript_vm::constants::{decimal_string, Constant};
use mirascript_vm::number::{javascript_exponent, number_style, number_to_string, NumberStyle};
use mirascript_vm::number_syntax::{parse_number_syntax, valid_decimal, NumberSyntax};

fn render(bits: u64, exponent: bool) -> String {
    let value = f64::from_bits(bits);
    if exponent {
        format!("{value:e}")
    } else {
        value.to_string()
    }
}

fn text(value: f64) -> String {
    number_to_string(value.to_bits(), false, &render)
}

#[test]
fn to_source_string() {
    assert_eq!(Constant::Nil.to_source_string(&render), "");
    assert_eq!(Constant::True.to_source_string(&render), "true");
    assert_eq!(Constant::False.to_source_string(&render), "false");
    assert_eq!(Constant::Int(42).to_source_string(&render), "42");
    assert_eq!(Constant::Float(3.0_f64.to_bits()).to_source_string(&render), "3");
    assert_eq!(Constant::Float((-0.0_f64).to_bits()).to_source_string(&render), "0");
    assert_eq!(Constant::Float(1.2_f64.to_bits()).to_source_string(&render), "1.2");
    assert_eq!(
        Constant::String("Hello, World!".into()).to_source_string(&render),
        "Hello, World!"
    );
}

#[test]
fn integers_are_written_in_decimal() {
    assert_eq!(decimal_string(0), "0");
    assert_eq!(decimal_string(-7), "-7");
    assert_eq!(decimal_string(1_000), "1000");
    assert_eq!(decimal_string(i32::MIN), "-2147483648");
    assert_eq!(decimal_string(i32::MAX), "2147483647");
}

#[test]
fn special_numbers_have_fixed_text() {
    assert_eq!(text(f64::NAN), "nan");
    assert_eq!(text(f64::INFINITY), "inf");
    assert_eq!(text(f64::NEG_INFINITY), "-inf");
    assert_eq!(text(0.0), "0");
    assert_eq!(text(-0.0), "0");
    assert_eq!(number_to_string((-0.0_f64).to_bits(), true, &render), "-0");
    assert_eq!(number_to_string(0.0_f64.to_bits(), true, &render), "0");
}

#[test]
fn large_and_small_numbers_use_exponents() {
    assert_eq!(text(1e21), "1e+21");
    assert_eq!(text(-1.5e300), "-1.5e+300");
    assert_eq!(text(1e20), "100000000000000000000");
    assert_eq!(text(1e-6), "0.000001");
    assert_eq!(text(1e-7), "1e-7");
    assert_eq!(text(42.5), "42.5");
    assert_eq!(number_style(1e21_f64.to_bits(), false), NumberStyle::Exponent);
    assert_eq!(number_style(999e18_f64.to_bits(), false), NumberStyle::Plain);
}

#[test]
fn exponents_get_a_plus_sign() {
    assert_eq!(javascript_exponent("1e21".into()), "1e+21");
    assert_eq!(javascript_exponent("1e-7".into()), "1e-7");
    assert_eq!(javascript_exponent("1e+7".into()), "1e+7");
    assert_eq!(javascript_exponent("42".into()), "42");
    assert_eq!(javascript_exponent("2.5e3".into()), "2.5e+3");
}

#[test]
fn decimal_syntax() {
    for valid in ["1", "12", "1.5", "1e5", "1E+5", "1.25e-3", "007", ""] {
        assert!(valid_decimal(valid), "{valid}");
    }
    for invalid in ["1.", "1e", "1e+", "1x", "1.2.3", "1..2", "e5x"] {
        assert!(!valid_decimal(invalid), "{invalid}");
    }
}

#[test]
fn numeric_strings_parse_by_syntax() {
    assert_eq!(parse_number_syntax("  inf "), Some(NumberSyntax::Infinity));
    assert_eq!(parse_number_syntax("+Infinity"), Some(NumberSyntax::Infinity));
    assert_eq!(parse_number_syntax("-inf"), Some(NumberSyntax::NegativeInfinity));
    assert_eq!(parse_number_syntax("NaN"), Some(NumberSyntax::NotANumber));
    assert_eq!(
        parse_number_syntax("0x1F"),
        Some(NumberSyntax::Integer { negative: false, magnitude: 31 })
    );
    assert_eq!(
        parse_number_syntax("-0b101"),
        Some(NumberSyntax::Integer { negative: true, magnitude: 5 })
    );
    assert_eq!(
        parse_number_syntax("0o17"),
        Some(NumberSyntax::Integer { negative: false, magnitude: 15 })
    );
    assert_eq!(
        parse_number_syntax("\t-12.5e3\n"),
        Some(NumberSyntax::Decimal { negative: true, digits: "12.5e3".into() })
    );
    assert_eq!(parse_number_syntax(""), None);
    assert_eq!(parse_number_syntax("   "), None);
    assert_eq!(parse_number_syntax(".5"), None);
    assert_eq!(parse_number_syntax("0b"), None);
    assert_eq!(parse_number_syntax("0b102"), None);
    assert_eq!(parse_number_syntax("0x"), None);
    assert_eq!(parse_number_syntax("abc"), None);
    assert_eq!(parse_number_syntax("0x10000000000000000"), None);
    assert_eq!(
        parse_number_syntax("0xFFFFFFFFFFFFFFFF"),
        Some(NumberSyntax::Integer { negative: false, magnitude: u64::MAX })
    );
}

use ppl::execution::value::format::floating_point;
use ppl::execution::value::format::format_parser;
use ppl::execution::value::format::plan;
use ppl::execution::value::format::plan::Formatted;
use ppl::execution::value::format::{format_float, format_int, FloatFormat, FormatControl, FormatType};
use ppl::execution::value::sequence::SequenceInstance;
use ppl::execution::value::{Store, Value};

fn single(x: f32) -> Value {
    Value::Real(x.to_bits())
}

fn double(x: f64) -> Value {
    Value::Double(x.to_bits())
}

fn shortest_real(r: f32) -> String {
    let s1 = format!("{}", r);
    let s2 = format!("{:.4E}", r);
    let s3 = if s2.contains('E') { s2 } else { String::from(s2.trim_end_matches('0')) };
    let mut s = if s1.len() <= s3.len() { s1 } else { s3 };
    if !s.contains('.') {
        s.push('.');
    }
    s
}

fn lay_out(number: f64, symbol: char, control: &FormatControl) -> Result<String, String> {
    let mut number = number;
    let mut rounded = false;
    loop {
        let text: Vec<char> = format!("{}", number).chars().collect();
        let mut parser = floating_point::Parser::new();
        let parsed = parser.parse(&text)?;
        match format_float(&parsed, rounded, symbol, control)? {
            FloatFormat::Done(s) => return Ok(s),
            FloatFormat::Round { power, is_negative } => {
                let quantity = 10.0_f64.powi(power);
                number += if is_negative { -quantity } else { quantity };
                rounded = true;
            },
        }
    }
}

fn render(parts: Vec<Formatted>) -> Result<String, String> {
    let mut out = String::new();
    for part in parts {
        match part {
            Formatted::Text(t) => out += t.as_str(),
            Formatted::Float { bits, exponent_symbol, control } => {
                out += lay_out(f64::from_bits(bits), exponent_symbol, &control)?.as_str()
            },
            Formatted::FreeReal(bits) => out += shortest_real(f32::from_bits(bits)).as_str(),
            Formatted::FreeDouble(bits) => out += format!("{}", f64::from_bits(bits)).as_str(),
        }
    }
    Ok(out)
}

fn iformat(specification: &str, v: Value) -> Result<String, String> {
    let mut store = Store::new();
    let spec = SequenceInstance::construct_string_sequence(specification, &mut store);
    let args = vec![spec, v];
    render(plan::format(&args, &store)?)
}

#[test]
fn a_fraction_is_padded_with_zeros() {
    assert_eq!(Ok(String::from("  7.4100")), iformat("3z.4d", single(7.41)));
}

#[test]
fn suppressed_fraction_digits_become_blanks() {
    assert_eq!(Ok(String::from("007.41  ")), iformat("3d.4z", single(7.41)));
}

#[test]
fn an_exponent_shifts_the_point() {
    assert_eq!(Ok(String::from(" 74.1000e-01")), iformat("e1z2d.4d", single(7.41)));
}

#[test]
fn a_free_format_shows_the_number_as_it_is() {
    assert_eq!(Ok(String::from("100000")), iformat("ff", Value::Int(100000)));
    assert_eq!(Ok(String::from("100000.")), iformat("ff", single(100000.)));
}

#[test]
fn numbers_without_a_fraction_part_in_the_format() {
    assert_eq!(Ok(String::from("   1")), iformat("3z1d", single(1.)));
    assert_eq!(Ok(String::from(" 100")), iformat("3z1d", single(100.)));
    assert_eq!(Ok(String::from("-100")), iformat("3z1d", Value::Int(-100)));
    assert_eq!(Ok(String::from(" 123")), iformat("3z1d", single(123.456)));
    assert_eq!(Ok(String::from("-123")), iformat("3z1d", single(-123.456)));
    assert_eq!(Ok(String::from(" 124")), iformat("3z1d", single(123.556)));
    assert_eq!(Ok(String::from("-123")), iformat("3z1d", single(-123.556)));
}

#[test]
fn numbers_are_rounded_to_the_digits_of_the_format() {
    assert_eq!(Ok(String::from(" 123.46")), iformat("3z1d.2d", single(123.456)));
    assert_eq!(Ok(String::from("-123.46")), iformat("3z1d.2d", single(-123.456)));
    assert_eq!(Ok(String::from(" 123.56")), iformat("3z1d.2d", single(123.556)));
    assert_eq!(Ok(String::from("-123.55")), iformat("3z1d.2d", single(-123.556)));
    assert_eq!(Ok(String::from(" 123.43")), iformat("3z1d.2d", single(123.432)));
    assert_eq!(Ok(String::from("-123.43")), iformat("3z1d.2d", single(-123.432)));
}

#[test]
fn numbers_with_an_exponent() {
    assert_eq!(Ok(String::from(" 123.46e 00")), iformat("e3z1d.2d", single(123.456)));
    assert_eq!(Ok(String::from("-123.46e 00")), iformat("e3z1d.2d", single(-123.456)));
    assert_eq!(Ok(String::from("1.23e 02")), iformat("e1d.2d", single(123.456)));
    assert_eq!(Ok(String::from("12.35e 01")), iformat("e1z1d.2d", single(123.456)));
    assert_eq!(Ok(String::from("-1.23e 02")), iformat("e1z1d.2d", single(-123.456)));
}

#[test]
fn a_double_is_laid_out_like_a_real() {
    assert_eq!(Ok(String::from(" 123.46")), iformat("3z1d.2d", double(123.456)));
}

#[test]
fn a_negative_number_needs_a_place_for_its_sign() {
    let r = iformat("2d", Value::Int(-5));
    assert!(r.is_err());
    assert!(r.unwrap_err().contains("does not support negative numbers"));
}

#[test]
fn a_number_too_long_for_the_format_is_refused() {
    assert_eq!(Err(String::from("Significant high-order digits lost")), iformat("2d", Value::Int(12345)));
    assert_eq!(Err(String::from("Significant high-order digits lost")), iformat("1z1d.2d", single(12345.5)));
}

#[test]
fn what_is_no_number_cannot_be_formatted() {
    assert_eq!(Err(String::from("Value cannot be formatted")), iformat("2d", Value::Bool(true)));
    let mut store = Store::new();
    let cell = store.new_cell(Value::Int(1));
    let tuple = Value::Sequence(SequenceInstance::new(
        ppl::symbols::metadata::MetaDataTypeName::from_str("tuple"),
        1,
        vec![cell],
    ));
    assert_eq!(Err(String::from("Value cannot be formatted")), plan::format(&vec![tuple], &store).map(|_| ()));
}

#[test]
fn a_bad_format_is_refused() {
    assert_eq!(Err(String::from("Invalid format specification")), iformat("3q", Value::Int(1)));
}

#[test]
fn a_format_lasts_until_the_next_one() {
    let mut store = Store::new();
    let first = SequenceInstance::construct_string_sequence("3d", &mut store);
    let second = SequenceInstance::construct_string_sequence("2z1d", &mut store);
    let args = vec![first, Value::Int(7), Value::Int(42), second, Value::Int(7)];
    assert_eq!(Ok(String::from("007042  7")), render(plan::format(&args, &store).unwrap()));
}

#[test]
fn format_int_pads_and_signs() {
    let mut parser = format_parser::Parser::new();
    let spec: Vec<char> = "3z1d".chars().collect();
    let control = match parser.parse(&spec).unwrap() {
        FormatType::Default(c) | FormatType::FixedPoint(c) | FormatType::Real(c) | FormatType::Double(c) => c,
        FormatType::Free => panic!("not a free format"),
    };
    assert_eq!(3, control.integer_zero_suppression_digits);
    assert_eq!(1, control.integer_non_suppressed_digits);
    assert!(!control.decimal_required);
    assert_eq!(Ok(String::from("   7")), format_int(7, &control));
    assert_eq!(Ok(String::from(" -42")), format_int(-42, &control));
    assert_eq!(Ok(String::from("1234")), format_int(1234, &control));
    assert_eq!(Err(String::from("Significant high-order digits lost")), format_int(12345, &control));
    assert_eq!(Err(String::from("Significant high-order digits lost")), format_int(-1234, &control));
}

#[test]
fn the_format_parser_reads_the_parts_of_a_specification() {
    let mut parser = format_parser::Parser::new();
    let spec: Vec<char> = "e3z1d.2d4z".chars().collect();
    match parser.parse(&spec).unwrap() {
        FormatType::Real(c) => {
            assert_eq!(3, c.integer_zero_suppression_digits);
            assert_eq!(1, c.integer_non_suppressed_digits);
            assert!(c.decimal_required);
            assert_eq!(2, c.fractional_non_suppressed_digits);
            assert_eq!(4, c.fractional_zero_suppressed_digits);
            assert_eq!(Some('e'), c.exponent_symbol);
        },
        other => panic!("{:?}", other),
    }
    let spec: Vec<char> = "D2d".chars().collect();
    match parser.parse(&spec).unwrap() {
        FormatType::Double(c) => assert_eq!(Some('D'), c.exponent_symbol),
        other => panic!("{:?}", other),
    }
    let spec: Vec<char> = "ff".chars().collect();
    assert_eq!(FormatType::Free, parser.parse(&spec).unwrap());
    let spec: Vec<char> = "3z.".chars().collect();
    assert!(parser.parse(&spec).is_ok());
    let spec: Vec<char> = "z".chars().collect();
    assert_eq!(Err(String::from("Invalid format specification")), parser.parse(&spec));
}

#[test]
fn the_number_parser_takes_a_number_apart() {
    let mut parser = floating_point::Parser::new();
    let text: Vec<char> = "-123.456".chars().collect();
    let parsed = parser.parse(&text).unwrap();
    assert!(parsed.is_negative);
    assert_eq!("123456", parsed.digits.iter().collect::<String>());
    assert_eq!(3, parsed.fractional_digits);
    let text: Vec<char> = "0.05".chars().collect();
    let parsed = parser.parse(&text).unwrap();
    assert!(!parsed.is_negative);
    assert_eq!("05", parsed.digits.iter().collect::<String>());
    assert_eq!(2, parsed.fractional_digits);
    let text: Vec<char> = "7".chars().collect();
    let parsed = parser.parse(&text).unwrap();
    assert_eq!("7", parsed.digits.iter().collect::<String>());
    assert_eq!(0, parsed.fractional_digits);
    let text: Vec<char> = "1e5".chars().collect();
    assert!(parser.parse(&text).is_err());
    let text: Vec<char> = "NaN".chars().collect();
    assert!(parser.parse(&text).is_err());
}

#[test]
fn a_formatted_number_reads_back_within_the_precision() {
    for x in [0.5_f64, 1.25, 3.14159, 42.0, 99.994, 123.456, 0.001] {
        let text = iformat("4z1d.3d", double(x)).unwrap();
        let back: f64 = text.trim().parse().unwrap();
        assert!((back - x).abs() <= 0.0005 + 1e-12, "{} became {}", x, text);
    }
}

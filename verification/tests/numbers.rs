use ppl::execution::system_functions::arithmetic::{
    add, compute, divide, minus, multiply, plus, power, subtract, Computed, Operation,
};
use ppl::execution::system_functions::comparison::{and, eq, gr, greq, less, lesseq, noteq, or};
use ppl::execution::value::ieee::{
    double_is_less, double_of_int, doubles_equal, int_of_double, is_double_nan, is_double_zero, long_of_double, narrow,
    natural_of_double, real_is_less, real_of_int, reals_equal, widen,
};
use ppl::execution::value::sequence::SequenceInstance;
use ppl::execution::value::{Store, Value};
use ppl::symbols::datatype::{promote, strongest_datatype, DataClass};
use ppl::symbols::metadata::MetaDataTypeName;
use ppl::workspace::WorkSpace;

fn value_of(c: Result<Computed, String>) -> Value {
    match c {
        Ok(Computed::Value(v)) => v,
        other => panic!("{:?}", other),
    }
}

fn int_of(v: Value) -> i32 {
    match v {
        Value::Int(i) => i,
        other => panic!("{:?}", other),
    }
}

fn truth(r: Result<Value, String>) -> bool {
    match r {
        Ok(Value::Bool(b)) => b,
        other => panic!("{:?}", other),
    }
}

#[test]
fn a_single_precision_number_widens_exactly() {
    for x in [0.0_f32, -0.0, 1.0, -1.5, 3.14159, 7.41, 1.0e-40, 3.4e38, f32::MIN_POSITIVE, f32::INFINITY, f32::NEG_INFINITY] {
        assert_eq!((x as f64).to_bits(), widen(x.to_bits()), "{}", x);
    }
    assert!(is_double_nan(widen(f32::NAN.to_bits())));
}

#[test]
fn an_integer_becomes_a_double_exactly() {
    for v in [0_i32, 1, -1, 2, 7, 100, -100, 123456789, i32::MAX, i32::MIN] {
        assert_eq!((v as f64).to_bits(), double_of_int(v), "{}", v);
    }
}

#[test]
fn an_integer_becomes_a_real_rounded_to_even() {
    for v in [0_i32, 1, -1, 3, 16777216, 16777217, 16777219, -16777217, 33554431, 123456789, i32::MAX, i32::MIN] {
        assert_eq!((v as f32).to_bits(), real_of_int(v), "{}", v);
    }
}

#[test]
fn a_double_becomes_an_integer_by_dropping_the_fraction() {
    for x in [0.0_f64, 0.9, -0.9, 1.5, -1.5, 2147483647.0, 2147483648.0, -2147483648.0, -2147483649.0, 1e300, -1e300, f64::INFINITY, f64::NEG_INFINITY, f64::NAN, 5e-324] {
        assert_eq!(x as i32, int_of_double(x.to_bits()), "{}", x);
        assert_eq!(x as i64, long_of_double(x.to_bits()), "{}", x);
        assert_eq!(x as u64, natural_of_double(x.to_bits()), "{}", x);
    }
}

#[test]
fn a_double_narrows_as_the_machine_does() {
    for x in [0.0_f64, -0.0, 1.0, 0.1, -0.1, 3.14159, 123.456, 1e38, 3.5e38, 1e39, -1e39, 1e-38, 1e-40, 1e-46, 7e-46, 16777217.0, 16777219.0, f64::INFINITY, f64::NEG_INFINITY] {
        assert_eq!((x as f32).to_bits(), narrow(x.to_bits()), "{}", x);
    }
    assert!(f32::from_bits(narrow(f64::NAN.to_bits())).is_nan());
}

#[test]
fn numbers_compare_as_the_machine_compares_them() {
    let samples = [0.0_f64, -0.0, 1.0, -1.0, 2.5, -2.5, 1e300, -1e300, f64::INFINITY, f64::NEG_INFINITY, f64::NAN, 5e-324];
    for a in samples {
        for b in samples {
            assert_eq!(a == b, doubles_equal(a.to_bits(), b.to_bits()), "{} == {}", a, b);
            assert_eq!(a < b, double_is_less(a.to_bits(), b.to_bits()), "{} < {}", a, b);
            let (x, y) = (a as f32, b as f32);
            assert_eq!(x == y, reals_equal(x.to_bits(), y.to_bits()), "{} == {}", x, y);
            assert_eq!(x < y, real_is_less(x.to_bits(), y.to_bits()), "{} < {}", x, y);
        }
    }
    assert!(is_double_zero((-0.0_f64).to_bits()));
    assert!(!is_double_zero(1.0_f64.to_bits()));
}

#[test]
fn values_turn_into_numbers_and_truth_values() {
    let mut store = Store::new();
    assert_eq!(Ok(7), Value::Int(7).as_i32(&store));
    assert_eq!(Ok(1), Value::Bool(true).as_i32(&store));
    assert_eq!(Ok(0), Value::Bool(false).as_i32(&store));
    assert_eq!(Ok(3), Value::Real(3.9_f32.to_bits()).as_i32(&store));
    assert_eq!(Ok(-3), Value::Double((-3.9_f64).to_bits()).as_i32(&store));
    assert_eq!(Ok(5), Value::Char('5').as_i32(&store));
    assert!(Value::Char('x').as_i32(&store).is_err());
    assert_eq!(Err(String::from("Unable to cast to INT")), Value::Empty.as_i32(&store));
    assert_eq!(Ok(true), Value::Int(3).as_bool(&store));
    assert_eq!(Ok(false), Value::Int(0).as_bool(&store));
    assert_eq!(Ok(false), Value::Double(0.0_f64.to_bits()).as_bool(&store));
    assert_eq!(Ok(true), Value::Char('T').as_bool(&store));
    assert_eq!(Ok(false), Value::Char('f').as_bool(&store));
    assert!(Value::Char('x').as_bool(&store).is_err());
    assert_eq!(Err(String::from("Invalid BOOL")), Value::Empty.as_bool(&store));
    assert_eq!(Ok('q'), Value::Char('q').as_char(&store));
    assert_eq!(Err(String::from("Invalid CHAR")), Value::Int(1).as_char(&store));
    assert_eq!(Ok(2.5_f32.to_bits()), Value::Real(2.5_f32.to_bits()).as_real(&store));
    assert_eq!(Ok(2.0_f32.to_bits()), Value::Int(2).as_real(&store));
    assert_eq!(Ok(2.0_f64.to_bits()), Value::Int(2).as_double(&store));
    assert_eq!(Ok((2.5_f32 as f64).to_bits()), Value::Real(2.5_f32.to_bits()).as_double(&store));
    assert_eq!(Err(String::from("Unable to cast to REAL")), Value::Empty.as_real(&store));
    assert_eq!(Err(String::from("Unable to cast to DBL")), Value::Empty.as_double(&store));
    assert_eq!(Ok(12), Value::Int(12).as_i64(&store));
    assert_eq!(Ok(12), Value::Int(12).as_natural(&store));
    let cell = store.new_cell(Value::Int(41));
    let reference = Value::ValueByReference(ppl::execution::value::CellReference {
        datatype: MetaDataTypeName::from_str("int"),
        cell: cell,
    });
    assert_eq!(Ok(41), reference.as_i32(&store));
}

#[test]
fn integers_add_subtract_and_multiply_with_wrapping() {
    let ws = WorkSpace::new();
    let (store, types) = (ws.as_store(), ws.as_datatypes());
    assert_eq!(5, int_of(value_of(add(&Value::Int(3), &Value::Int(2), store, types))));
    assert_eq!(1, int_of(value_of(subtract(&Value::Int(3), &Value::Int(2), store, types))));
    assert_eq!(1200, int_of(value_of(multiply(&Value::Int(25), &Value::Int(48), store, types))));
    assert_eq!(i32::MIN, int_of(value_of(add(&Value::Int(i32::MAX), &Value::Int(1), store, types))));
    assert_eq!(i32::MAX, int_of(value_of(subtract(&Value::Int(i32::MIN), &Value::Int(1), store, types))));
    assert_eq!(-2, int_of(value_of(multiply(&Value::Int(i32::MAX), &Value::Int(2), store, types))));
    assert_eq!(-27, int_of(value_of(minus(&Value::Int(27), store, types))));
    assert_eq!(27, int_of(value_of(plus(&Value::Int(27), store, types))));
    assert_eq!(8, int_of(value_of(power(&Value::Int(2), &Value::Int(3), store, types))));
    assert_eq!(1, int_of(value_of(power(&Value::Int(2), &Value::Int(0), store, types))));
}

#[test]
fn integers_divide_toward_zero() {
    let ws = WorkSpace::new();
    let (store, types) = (ws.as_store(), ws.as_datatypes());
    assert_eq!(1, int_of(value_of(divide(&Value::Int(3), &Value::Int(2), store, types))));
    assert_eq!(-1, int_of(value_of(divide(&Value::Int(-3), &Value::Int(2), store, types))));
    assert_eq!(-1, int_of(value_of(divide(&Value::Int(3), &Value::Int(-2), store, types))));
    assert_eq!(1, int_of(value_of(divide(&Value::Int(53), &Value::Int(27), store, types))));
}

#[test]
fn division_by_zero_saturates() {
    let ws = WorkSpace::new();
    let (store, types) = (ws.as_store(), ws.as_datatypes());
    assert_eq!(i32::MAX, int_of(value_of(divide(&Value::Int(7), &Value::Int(0), store, types))));
    assert_eq!(i32::MIN, int_of(value_of(divide(&Value::Int(-7), &Value::Int(0), store, types))));
    assert_eq!(i32::MIN, int_of(value_of(divide(&Value::Int(0), &Value::Int(0), store, types))));
    assert_eq!(i32::MAX, int_of(value_of(divide(&Value::Int(i32::MIN), &Value::Int(-1), store, types))));
}

#[test]
fn numbers_with_a_fraction_are_left_to_the_caller() {
    let ws = WorkSpace::new();
    let (store, types) = (ws.as_store(), ws.as_datatypes());
    match add(&Value::Int(3), &Value::Real(0.5_f32.to_bits()), store, types) {
        Ok(Computed::Real { operation, left, right }) => {
            assert_eq!(Operation::Add, operation);
            assert_eq!(3.0_f32.to_bits(), left);
            assert_eq!(0.5_f32.to_bits(), right);
        },
        other => panic!("{:?}", other),
    }
    match compute(Operation::Divide, &Value::Double(1.0_f64.to_bits()), &Value::Int(4), store, types) {
        Ok(Computed::Double { operation, left, right }) => {
            assert_eq!(Operation::Divide, operation);
            assert_eq!(1.0_f64.to_bits(), left);
            assert_eq!(4.0_f64.to_bits(), right);
        },
        other => panic!("{:?}", other),
    }
    match multiply(&Value::Real(1.5_f32.to_bits()), &Value::Double(2.0_f64.to_bits()), store, types) {
        Ok(Computed::Double { left, right, .. }) => {
            assert_eq!(1.5_f64.to_bits(), left);
            assert_eq!(2.0_f64.to_bits(), right);
        },
        other => panic!("{:?}", other),
    }
}

#[test]
fn arithmetic_refuses_what_is_no_number() {
    let ws = WorkSpace::new();
    let (store, types) = (ws.as_store(), ws.as_datatypes());
    assert_eq!(Err(String::from("Empty value")), add(&Value::Empty, &Value::Int(1), store, types).map(|_| ()));
    let tuple = Value::Sequence(SequenceInstance::new(MetaDataTypeName::from_str("tuple"), 1, Vec::new()));
    let r = add(&Value::Int(1), &tuple, store, types);
    assert_eq!(Err(String::from("INT is arithmetically incompatble with Sequence")), r.map(|_| ()));
}

#[test]
fn the_stronger_datatype_wins() {
    assert_eq!(Ok(DataClass::Real), promote(DataClass::Int, DataClass::Real));
    assert_eq!(Ok(DataClass::Real), promote(DataClass::Real, DataClass::Int));
    assert_eq!(Ok(DataClass::Dbl), promote(DataClass::Real, DataClass::Dbl));
    assert_eq!(Ok(DataClass::Dbl), promote(DataClass::Dbl, DataClass::Int));
    assert_eq!(Ok(DataClass::Int), promote(DataClass::Bool, DataClass::Int));
    assert_eq!(Ok(DataClass::Int), promote(DataClass::Int, DataClass::Char));
    assert_eq!(Ok(DataClass::Dbl), strongest_datatype(&vec![DataClass::Int, DataClass::Dbl, DataClass::Real]));
    assert_eq!(Ok(DataClass::Dbl), strongest_datatype(&vec![DataClass::Real, DataClass::Int, DataClass::Dbl]));
    assert_eq!(Ok(DataClass::Int), strongest_datatype(&vec![DataClass::Int]));
    assert!(promote(DataClass::Int, DataClass::Structure).is_err());
    assert_eq!(
        Err(String::from("REAL is arithmetically incompatble with Sequence")),
        promote(DataClass::Real, DataClass::Sequence)
    );
}

#[test]
fn the_stronger_datatype_does_not_depend_on_the_order() {
    let numbers = [DataClass::Int, DataClass::Real, DataClass::Dbl];
    for a in numbers {
        for b in numbers {
            assert_eq!(promote(a, b), promote(b, a));
            for c in numbers {
                let left = promote(promote(a, b).unwrap(), c);
                let right = promote(a, promote(b, c).unwrap());
                assert_eq!(left, right);
            }
        }
    }
}

#[test]
fn numbers_are_compared_by_their_values() {
    let ws = WorkSpace::new();
    let (store, types) = (ws.as_store(), ws.as_datatypes());
    let (a, b) = (Value::Int(53), Value::Int(27));
    assert!(!truth(eq(&a, &b, store, types)));
    assert!(truth(eq(&a, &Value::Int(53), store, types)));
    assert!(truth(noteq(&a, &b, store, types)));
    assert!(!truth(noteq(&a, &Value::Int(53), store, types)));
    assert!(!truth(less(&a, &b, store, types)));
    assert!(truth(less(&b, &a, store, types)));
    assert!(!truth(less(&a, &Value::Int(53), store, types)));
    assert!(truth(gr(&a, &b, store, types)));
    assert!(!truth(gr(&b, &a, store, types)));
    assert!(!truth(lesseq(&a, &b, store, types)));
    assert!(truth(lesseq(&b, &a, store, types)));
    assert!(truth(lesseq(&a, &Value::Int(53), store, types)));
    assert!(truth(greq(&a, &b, store, types)));
    assert!(truth(greq(&a, &Value::Int(53), store, types)));
    assert!(truth(eq(&Value::Int(2), &Value::Real(2.0_f32.to_bits()), store, types)));
    assert!(truth(less(&Value::Int(2), &Value::Double(2.5_f64.to_bits()), store, types)));
    assert!(truth(eq(&Value::Char('a'), &Value::Char('a'), store, types)));
    assert!(truth(less(&Value::Char('a'), &Value::Char('b'), store, types)));
}

#[test]
fn equality_and_inequality_are_opposites() {
    let ws = WorkSpace::new();
    let (store, types) = (ws.as_store(), ws.as_datatypes());
    let values = [
        Value::Int(1),
        Value::Int(2),
        Value::Real(1.0_f32.to_bits()),
        Value::Double(2.0_f64.to_bits()),
        Value::Bool(true),
        Value::Char('1'),
        Value::Empty,
    ];
    for a in &values {
        for b in &values {
            assert_eq!(truth(eq(a, b, store, types)), !truth(noteq(a, b, store, types)));
        }
    }
}

#[test]
fn a_value_equals_itself() {
    let mut ws = WorkSpace::new();
    let text = ws.make_string("dog");
    let other = ws.make_string("dog");
    let cat = ws.make_string("cat");
    let (store, types) = (ws.as_store(), ws.as_datatypes());
    for v in [Value::Int(5), Value::Real(2.5_f32.to_bits()), Value::Double(0.1_f64.to_bits()), Value::Char('c'), Value::Bool(false)] {
        assert!(truth(eq(&v, &v, store, types)));
    }
    assert!(truth(eq(&text, &text, store, types)));
    assert!(truth(eq(&text, &other, store, types)));
    assert!(!truth(eq(&text, &cat, store, types)));
    assert!(truth(less(&cat, &text, store, types)));
    assert!(truth(gr(&text, &cat, store, types)));
    let nan = Value::Double(f64::NAN.to_bits());
    assert!(!truth(eq(&nan, &nan, store, types)));
}

#[test]
fn what_cannot_be_compared_is_not_equal() {
    let ws = WorkSpace::new();
    let (store, types) = (ws.as_store(), ws.as_datatypes());
    assert!(!truth(eq(&Value::Empty, &Value::Int(1), store, types)));
    assert!(truth(noteq(&Value::Empty, &Value::Int(1), store, types)));
    assert!(less(&Value::Empty, &Value::Int(1), store, types).is_err());
}

#[test]
fn the_connectives_look_at_the_second_value_only_if_they_must() {
    let store = Store::new();
    let (t, f) = (Value::Bool(true), Value::Bool(false));
    assert!(truth(and(&t, &t, &store)));
    assert!(!truth(and(&t, &f, &store)));
    assert!(!truth(and(&f, &t, &store)));
    assert!(!truth(and(&f, &f, &store)));
    assert!(truth(or(&t, &t, &store)));
    assert!(truth(or(&t, &f, &store)));
    assert!(truth(or(&f, &t, &store)));
    assert!(!truth(or(&f, &f, &store)));
    assert!(!truth(and(&f, &Value::Empty, &store)));
    assert!(truth(or(&t, &Value::Empty, &store)));
    assert!(and(&t, &Value::Empty, &store).is_err());
    assert!(or(&f, &Value::Empty, &store).is_err());
    assert!(and(&Value::Empty, &t, &store).is_err());
}

fn scrambled(seed: &mut u64) -> u64 {
    *seed ^= *seed << 13;
    *seed ^= *seed >> 7;
    *seed ^= *seed << 17;
    *seed
}

#[test]
fn bit_patterns_are_read_as_the_machine_reads_them() {
    let mut seed: u64 = 0x9e37_79b9_7f4a_7c15;
    let mut doubles: Vec<u64> = vec![
        0,
        1,
        0x8000_0000_0000_0000,
        0x000f_ffff_ffff_ffff,
        0x0010_0000_0000_0000,
        0x7fef_ffff_ffff_ffff,
        0x7ff0_0000_0000_0000,
        0xfff0_0000_0000_0000,
        0x7ff8_0000_0000_0000,
        0x7ff0_0000_0000_0001,
        0x41df_ffff_ffc0_0000,
        0x41e0_0000_0000_0000,
        0xc1e0_0000_0000_0000,
        0xc1e0_0000_0020_0000,
        0x43e0_0000_0000_0000,
        0x43f0_0000_0000_0000,
        0x3690_0000_0000_0000,
        0x36a0_0000_0000_0000,
        0x47ef_ffff_f000_0000,
        0x47ef_ffff_e000_0000,
    ];
    for _ in 0..40000 {
        let bits = scrambled(&mut seed);
        doubles.push(bits);
        doubles.push((f32::from_bits(bits as u32) as f64).to_bits());
        doubles.push(((bits as i64 >> 20) as f64).to_bits());
        doubles.push((bits & 0x800f_ffff_ffff_ffff) | (((0x380 + (bits >> 52) % 0x100) & 0x7ff) << 52));
    }
    let mut earlier = 0_u64;
    for &bits in &doubles {
        let x = f64::from_bits(bits);
        assert_eq!(x.is_nan(), is_double_nan(bits), "{:#x}", bits);
        assert_eq!(x == 0.0, is_double_zero(bits), "{:#x}", bits);
        assert_eq!(x as i32, int_of_double(bits), "{:#x}", bits);
        assert_eq!(x as i64, long_of_double(bits), "{:#x}", bits);
        assert_eq!(x as u64, natural_of_double(bits), "{:#x}", bits);
        let narrowed = narrow(bits);
        if x.is_nan() {
            assert!(f32::from_bits(narrowed).is_nan(), "{:#x}", bits);
        } else {
            assert_eq!((x as f32).to_bits(), narrowed, "{:#x}", bits);
        }
        let y = f64::from_bits(earlier);
        assert_eq!(x == y, doubles_equal(bits, earlier), "{:#x} {:#x}", bits, earlier);
        assert_eq!(x < y, double_is_less(bits, earlier), "{:#x} {:#x}", bits, earlier);
        earlier = bits;
    }
    let mut before = 0_u32;
    for _ in 0..40000 {
        let word = scrambled(&mut seed);
        for bits in [word as u32, (word >> 32) as u32, (word >> 9) as u32 & 0x807f_ffff] {
            let x = f32::from_bits(bits);
            if x.is_nan() {
                assert!(is_double_nan(widen(bits)), "{:#x}", bits);
            } else {
                assert_eq!((x as f64).to_bits(), widen(bits), "{:#x}", bits);
            }
            let y = f32::from_bits(before);
            assert_eq!(x == y, reals_equal(bits, before), "{:#x} {:#x}", bits, before);
            assert_eq!(x < y, real_is_less(bits, before), "{:#x} {:#x}", bits, before);
            before = bits;
        }
        let v = (word >> 17) as i32;
        assert_eq!((v as f64).to_bits(), double_of_int(v), "{}", v);
        assert_eq!((v as f32).to_bits(), real_of_int(v), "{}", v);
        let small = v >> (word % 31);
        assert_eq!((small as f64).to_bits(), double_of_int(small), "{}", small);
        assert_eq!((small as f32).to_bits(), real_of_int(small), "{}", small);
    }
}

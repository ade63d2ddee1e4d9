use lazysom::numbers::{
    int_abs, int_as_32bit_signed, int_as_32bit_unsigned, int_as_string, int_bit_and, int_bit_xor, int_div, int_eq,
    int_from_string, int_le, int_lt, int_max, int_min, int_minus, int_mod, int_mul, int_plus, int_rem, int_round,
    int_shl, int_shr, int_at_random, int_at_random_from, obj_hashcode, clock_value, sys_exit_code, sys_time, NumError,
};
use lazysom::object::{Heap, HeapCell, Value};
use std::hash::{Hash, Hasher};

fn n(t: &str) -> Value {
    Value::Integer(t.to_string())
}

fn text(v: &Value) -> String {
    match v {
        Value::Integer(t) => t.clone(),
        other => panic!("expected an integer, got {:?}", std::mem::discriminant(other)),
    }
}

fn ok(r: Result<Value, NumError>) -> String {
    text(&r.unwrap_or_else(|e| panic!("expected a value, got {:?}", e)))
}

fn truth(r: Result<Value, NumError>) -> bool {
    match r {
        Ok(Value::Boolean(b)) => b,
        _ => panic!("expected a boolean"),
    }
}

#[test]
fn arithmetic_on_large_integers() {
    assert_eq!(ok(int_plus(&n("9223372036854775807"), &vec![n("1")])), "9223372036854775808");
    assert_eq!(ok(int_minus(&n("5"), &vec![n("12")])), "-7");
    assert_eq!(ok(int_mul(&n("-123456789012345678901"), &vec![n("1000")])), "-123456789012345678901000");
    assert_eq!(ok(int_plus(&n("007"), &vec![n("-0")])), "7");
}

#[test]
fn division_rounds_towards_negative_infinity() {
    assert_eq!(ok(int_div(&n("7"), &vec![n("2")])), "3");
    assert_eq!(ok(int_div(&n("-7"), &vec![n("2")])), "-4");
    assert_eq!(ok(int_div(&n("7"), &vec![n("-2")])), "-4");
    assert_eq!(ok(int_div(&n("-7"), &vec![n("-2")])), "3");
    assert_eq!(ok(int_mod(&n("-7"), &vec![n("2")])), "1");
    assert_eq!(ok(int_mod(&n("7"), &vec![n("-2")])), "-1");
    assert_eq!(ok(int_rem(&n("-7"), &vec![n("2")])), "-1");
    assert_eq!(ok(int_rem(&n("7"), &vec![n("-2")])), "1");
    assert_eq!(int_div(&n("1"), &vec![n("0")]).err(), Some(NumError::DivisionByZero));
    assert_eq!(int_mod(&n("1"), &vec![n("-0")]).err(), Some(NumError::ModuloByZero));
    assert_eq!(int_rem(&n("1"), &vec![n("000")]).err(), Some(NumError::ModuloByZero));
}

#[test]
fn a_double_argument_is_left_to_floating_point() {
    let d = Value::Double(2.5f64.to_bits());
    assert_eq!(int_plus(&n("1"), &vec![Value::Double(0)]).err(), Some(NumError::DoubleOperand));
    assert_eq!(int_div(&n("1"), &vec![d]).err(), Some(NumError::DoubleOperand));
    assert_eq!(int_lt(&n("1"), &vec![Value::Double(0)]).err(), Some(NumError::DoubleOperand));
    assert_eq!(int_min(&n("1"), &vec![Value::Double(0)]).err(), Some(NumError::DoubleOperand));
}

#[test]
fn other_operands_give_nil_or_false() {
    assert!(matches!(int_plus(&n("1"), &vec![Value::Nil]), Ok(Value::Nil)));
    assert!(matches!(int_plus(&n("1"), &vec![]), Ok(Value::Nil)));
    assert!(matches!(int_div(&Value::Nil, &vec![n("0")]), Ok(Value::Nil)));
    assert!(!truth(int_eq(&n("1"), &vec![Value::Symbol("1".to_string())])));
    assert!(!truth(int_lt(&Value::Nil, &vec![n("1")])));
    assert!(matches!(int_bit_and(&n("1"), &vec![Value::Nil]), Value::Nil));
    assert!(matches!(int_abs(&Value::Boolean(true)), Value::Nil));
}

#[test]
fn comparisons_compare_values() {
    assert!(truth(int_eq(&n("007"), &vec![n("7")])));
    assert!(truth(int_eq(&n("-0"), &vec![n("0")])));
    assert!(truth(int_lt(&n("-10"), &vec![n("3")])));
    assert!(!truth(int_lt(&n("3"), &vec![n("3")])));
    assert!(truth(int_le(&n("3"), &vec![n("3")])));
    assert_eq!(ok(int_min(&n("4"), &vec![n("-9")])), "-9");
    assert_eq!(ok(int_max(&n("4"), &vec![n("-9")])), "4");
    // With equal values, min answers the receiver and max the argument.
    assert_eq!(ok(int_min(&n("05"), &vec![n("5")])), "05");
    assert_eq!(ok(int_max(&n("05"), &vec![n("5")])), "5");
}

#[test]
fn bitwise_operations_use_twos_complement() {
    assert_eq!(text(&int_bit_and(&n("12"), &vec![n("10")])), "8");
    assert_eq!(text(&int_bit_and(&n("-6"), &vec![n("7")])), "2");
    assert_eq!(text(&int_bit_and(&n("-1"), &vec![n("-8")])), "-8");
    assert_eq!(text(&int_bit_xor(&n("12"), &vec![n("10")])), "6");
    assert_eq!(text(&int_bit_xor(&n("-1"), &vec![n("5")])), "-6");
    assert_eq!(text(&int_shl(&n("1"), &vec![n("70")])), "1180591620717411303424");
    assert_eq!(text(&int_shl(&n("-3"), &vec![n("2")])), "-12");
    assert_eq!(text(&int_shl(&n("3"), &vec![n("-2")])), "3");
    assert_eq!(text(&int_shr(&n("-1"), &vec![n("60")])), "15");
    assert_eq!(text(&int_shr(&n("256"), &vec![n("4")])), "16");
    assert_eq!(text(&int_shr(&n("18446744073709551617"), &vec![n("0")])), "1");
}

#[test]
fn thirty_two_bit_values() {
    assert_eq!(text(&int_as_32bit_signed(&n("4294967295"))), "-1");
    assert_eq!(text(&int_as_32bit_signed(&n("2147483648"))), "-2147483648");
    assert_eq!(text(&int_as_32bit_signed(&n("-5"))), "-5");
    assert_eq!(text(&int_as_32bit_unsigned(&n("-1"))), "4294967295");
    assert_eq!(text(&int_as_32bit_unsigned(&n("4294967301"))), "5");
}

#[test]
fn integers_from_and_to_strings() {
    let mut heap = Heap { cells: vec![HeapCell::Str("-0042".to_string())] };
    assert_eq!(text(&int_from_string(&heap, &vec![Value::String(0)])), "-42");
    let sym = |t: &str| vec![Value::Symbol(t.to_string())];
    assert_eq!(text(&int_from_string(&heap, &sym("+42"))), "42");
    assert_eq!(text(&int_from_string(&heap, &sym("1_000"))), "1000");
    assert_eq!(text(&int_from_string(&heap, &sym("-0"))), "0");
    assert!(matches!(int_from_string(&heap, &sym("-+5")), Value::Nil));
    assert!(matches!(int_from_string(&heap, &sym("_1")), Value::Nil));
    assert!(matches!(int_from_string(&heap, &sym("12a")), Value::Nil));
    assert!(matches!(int_from_string(&heap, &sym("")), Value::Nil));
    assert!(matches!(int_from_string(&heap, &vec![n("5")]), Value::Nil));
    assert!(matches!(int_from_string(&heap, &vec![]), Value::Nil));
    match int_as_string(&mut heap, &n("-007")) {
        Value::String(c) => assert!(matches!(&heap.cells[c], HeapCell::Str(s) if s == "-7")),
        _ => panic!("expected a string"),
    }
    assert_eq!(heap.cells.len(), 2);
    assert!(matches!(int_as_string(&mut heap, &Value::Nil), Value::Nil));
    assert_eq!(heap.cells.len(), 2);
}

#[test]
fn absolute_value_and_round() {
    assert_eq!(text(&int_abs(&n("-12345678901234567890"))), "12345678901234567890");
    assert_eq!(text(&int_abs(&n("3"))), "3");
    assert_eq!(text(&int_round(&n("3"))), "3");
}

#[test]
fn hash_codes_fit_in_31_bits() {
    let heap = Heap { cells: vec![HeapCell::Str("abc".to_string()), HeapCell::Array(vec![])] };
    assert_eq!(text(&obj_hashcode(&heap, &n("12"))), "12");
    assert_eq!(text(&obj_hashcode(&heap, &n("-1"))), "2147483647");
    assert_eq!(text(&obj_hashcode(&heap, &n("2147483647"))), "0");
    assert_eq!(text(&obj_hashcode(&heap, &n("2147483648"))), "1");
    assert_eq!(text(&obj_hashcode(&heap, &n("-4294967296"))), "2147483646");
    assert_eq!(text(&obj_hashcode(&heap, &Value::Double(u64::MAX))), "2147483647");
    assert_eq!(text(&obj_hashcode(&heap, &Value::Boolean(true))), "1");
    assert_eq!(text(&obj_hashcode(&heap, &Value::Boolean(false))), "0");
    assert_eq!(text(&obj_hashcode(&heap, &Value::Nil)), "0");
    assert_eq!(text(&obj_hashcode(&heap, &Value::Array(1))), "1");
    // A string hashes as std's default hasher hashes its text.
    let mut h = std::collections::hash_map::DefaultHasher::new();
    "abc".to_string().hash(&mut h);
    let want = ((h.finish() as i64) & 0x7FFF_FFFF).to_string();
    assert_eq!(text(&obj_hashcode(&heap, &Value::String(0))), want);
    assert_eq!(text(&obj_hashcode(&heap, &Value::Symbol("abc".to_string()))), want);
}

#[test]
fn at_random_takes_the_clock_modulo_the_receiver() {
    assert_eq!(text(&int_at_random_from(&n("6"), 10)), "5");
    assert_eq!(text(&int_at_random_from(&n("6"), 12)), "1");
    assert_eq!(text(&int_at_random_from(&n("0"), 12)), "1");
    assert_eq!(text(&int_at_random_from(&n("-3"), 12)), "1");
    assert_eq!(text(&int_at_random_from(&n("100000000000000000000"), 12)), "1");
    assert!(matches!(int_at_random_from(&Value::Nil, 12), Value::Nil));
    let r: i64 = text(&int_at_random(&n("6"))).parse().unwrap();
    assert!((1..=6).contains(&r));
}

#[test]
fn clock_readings_count_whole_units() {
    assert_eq!(text(&clock_value(1_234_567_890, 1_000_000)), "1234");
    assert_eq!(text(&clock_value(1_234_567_890, 1_000)), "1234567");
    assert_eq!(text(&clock_value(999, 1_000)), "0");
    let now: u128 = text(&sys_time()).parse().unwrap();
    assert!(now > 1_600_000_000_000);
}

#[test]
fn exit_takes_an_integer_code() {
    assert_eq!(sys_exit_code(&vec![n("3")]), Some(3));
    assert_eq!(sys_exit_code(&vec![n("-1")]), Some(-1));
    assert_eq!(sys_exit_code(&vec![n("99999999999")]), Some(0));
    assert_eq!(sys_exit_code(&vec![Value::Nil]), None);
    assert_eq!(sys_exit_code(&vec![]), None);
}

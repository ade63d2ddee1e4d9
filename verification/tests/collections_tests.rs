use lazysom::collections::{
    arr_at, arr_at_put, arr_len, arr_new, decimal_text, integer_to_i64, resolve_index, str_as_symbol, str_concat,
    str_eq, str_is_digits, str_is_letters, str_is_whitespace, str_len, str_substring, PrimitiveError,
};
use lazysom::object::{Heap, HeapCell, Value};

fn integer(n: &str) -> Value {
    Value::Integer(n.to_string())
}

fn text(heap: &Heap, v: &Value) -> String {
    match v {
        Value::String(c) => match &heap.cells[*c] {
            HeapCell::Str(s) => s.clone(),
            _ => panic!("not a string cell"),
        },
        _ => panic!("not a string value"),
    }
}

#[test]
fn concatenation_makes_a_new_string() {
    let mut heap = Heap { cells: vec![HeapCell::Str("foo".to_string())] };
    let r = str_concat(&mut heap, &Value::String(0), &vec![Value::Symbol("bar".to_string())]);
    assert_eq!(text(&heap, &r), "foobar");
    assert_eq!(heap.cells.len(), 2);
    assert!(matches!(str_concat(&mut heap, &Value::String(0), &vec![integer("1")]), Value::Nil));
    assert!(matches!(str_concat(&mut heap, &integer("1"), &vec![]), Value::Nil));
}

#[test]
fn length_counts_characters() {
    let heap = Heap { cells: vec![HeapCell::Str("héllo😀".to_string())] };
    assert!(matches!(str_len(&heap, &Value::String(0)), Value::Integer(ref t) if t == "6"));
    assert!(matches!(str_len(&heap, &Value::Nil), Value::Nil));
}

#[test]
fn equality_compares_texts() {
    let heap = Heap { cells: vec![HeapCell::Str("abc".to_string())] };
    assert!(matches!(str_eq(&heap, &Value::String(0), &vec![Value::Symbol("abc".to_string())]), Value::Boolean(true)));
    assert!(matches!(str_eq(&heap, &Value::String(0), &vec![Value::Symbol("abd".to_string())]), Value::Boolean(false)));
    assert!(matches!(str_eq(&heap, &Value::String(0), &vec![integer("3")]), Value::Boolean(false)));
    assert!(matches!(str_as_symbol(&heap, &Value::String(0)), Value::Symbol(ref s) if s == "abc"));
}

#[test]
fn character_classes() {
    let heap = Heap {
        cells: vec![
            HeapCell::Str(" \t\n\u{3000}".to_string()),
            HeapCell::Str("abcÄ".to_string()),
            HeapCell::Str("0123".to_string()),
            HeapCell::Str("".to_string()),
            HeapCell::Str("a1".to_string()),
        ],
    };
    assert!(matches!(str_is_whitespace(&heap, &Value::String(0)), Value::Boolean(true)));
    assert!(matches!(str_is_letters(&heap, &Value::String(1)), Value::Boolean(true)));
    assert!(matches!(str_is_digits(&heap, &Value::String(2)), Value::Boolean(true)));
    assert!(matches!(str_is_digits(&heap, &Value::String(3)), Value::Boolean(false)));
    assert!(matches!(str_is_letters(&heap, &Value::String(4)), Value::Boolean(false)));
    assert!(matches!(str_is_whitespace(&heap, &Value::String(1)), Value::Boolean(false)));
}

#[test]
fn substrings_count_from_one() {
    let mut heap = Heap { cells: vec![HeapCell::Str("hello".to_string())] };
    let r = str_substring(&mut heap, &Value::String(0), &vec![integer("2"), integer("4")]);
    assert_eq!(text(&heap, &r), "ell");
    let e = str_substring(&mut heap, &Value::String(0), &vec![integer("4"), integer("2")]);
    assert_eq!(text(&heap, &e), "");
    assert!(matches!(str_substring(&mut heap, &Value::String(0), &vec![integer("0"), integer("2")]), Value::Nil));
    assert!(matches!(str_substring(&mut heap, &Value::String(0), &vec![integer("1"), integer("6")]), Value::Nil));
    assert!(matches!(
        str_substring(&mut heap, &Value::String(0), &vec![integer("1"), integer("99999999999999999999999")]),
        Value::Nil
    ));
}

#[test]
fn integers_to_i64_and_indices() {
    assert_eq!(integer_to_i64(&"9223372036854775807".to_string()), Some(i64::MAX));
    assert_eq!(integer_to_i64(&"-9223372036854775808".to_string()), Some(i64::MIN));
    assert_eq!(integer_to_i64(&"9223372036854775808".to_string()), None);
    assert_eq!(integer_to_i64(&"-42".to_string()), Some(-42));
    assert_eq!(resolve_index(&"1".to_string(), 3), Some(0));
    assert_eq!(resolve_index(&"3".to_string(), 3), Some(2));
    assert_eq!(resolve_index(&"4".to_string(), 3), None);
    assert_eq!(resolve_index(&"0".to_string(), 3), None);
    assert_eq!(resolve_index(&"-1".to_string(), 3), None);
    assert_eq!(decimal_text(0), "0");
    assert_eq!(decimal_text(1234567), "1234567");
}

#[test]
fn arrays() {
    let mut heap = Heap { cells: Vec::new() };
    let a = arr_new(&mut heap, &vec![integer("3")]).unwrap();
    assert!(matches!(arr_len(&heap, &a), Value::Integer(ref t) if t == "3"));
    assert!(matches!(arr_at(&heap, &a, &vec![integer("2")]), Ok(Value::Nil)));
    assert!(matches!(arr_at_put(&mut heap, &a, &vec![integer("2"), integer("7")]), Ok(Value::Integer(ref t)) if t == "7"));
    assert!(matches!(arr_at(&heap, &a, &vec![integer("2")]), Ok(Value::Integer(ref t)) if t == "7"));
    assert_eq!(arr_at(&heap, &a, &vec![integer("4")]).err(), Some(PrimitiveError::IndexOutOfBounds));
    assert_eq!(arr_at_put(&mut heap, &a, &vec![integer("0"), integer("1")]).err(), Some(PrimitiveError::IndexOutOfBounds));
    assert_eq!(arr_new(&mut heap, &vec![integer("-1")]).err(), Some(PrimitiveError::NegativeSize));
    assert_eq!(arr_new(&mut heap, &vec![integer("100000001")]).err(), Some(PrimitiveError::SizeTooLarge));
    assert!(matches!(arr_new(&mut heap, &vec![Value::Nil]), Ok(Value::Nil)));
    assert!(matches!(arr_len(&heap, &Value::Nil), Value::Nil));
}

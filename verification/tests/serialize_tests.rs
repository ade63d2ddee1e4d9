use lazysom::object::{Heap, HeapCell, Value};
use lazysom::serialize::{DeserializeError, SerializedValue, SomDeserializer, SomSerializer};

fn roundtrip(heap: &Heap, v: &Value, classes: Vec<String>) -> (Result<Value, DeserializeError>, Heap, SerializedValue) {
    let mut s = SomSerializer::new();
    let ir = s.serialize_value(heap, v);
    let mut target = Heap { cells: Vec::new() };
    let mut d = SomDeserializer::new(classes);
    let r = d.deserialize(&mut target, &ir);
    (r, target, ir)
}

#[test]
fn immediate_values() {
    let heap = Heap { cells: Vec::new() };
    let mut s = SomSerializer::new();
    assert!(matches!(s.serialize_value(&heap, &Value::Nil), SerializedValue::Nil));
    assert!(matches!(s.serialize_value(&heap, &Value::Boolean(true)), SerializedValue::Boolean(true)));
    assert!(matches!(s.serialize_value(&heap, &Value::Integer("42".to_string())), SerializedValue::Integer(ref t) if t == "42"));
    assert!(matches!(s.serialize_value(&heap, &Value::Double(2.5f64.to_bits())), SerializedValue::Double(b) if f64::from_bits(b) == 2.5));
    assert!(matches!(s.serialize_value(&heap, &Value::Symbol("foo".to_string())), SerializedValue::Symbol(ref t) if t == "foo"));
    assert!(matches!(s.serialize_value(&heap, &Value::Runtime), SerializedValue::Unsupported(ref t) if t == "Runtime Context"));
}

#[test]
fn a_string_is_defined_once_then_referred_to() {
    let heap = Heap { cells: vec![HeapCell::Str("hello".to_string())] };
    let mut s = SomSerializer::new();
    assert!(matches!(s.serialize_value(&heap, &Value::String(0)), SerializedValue::DefString { id: 0, ref value } if value == "hello"));
    assert!(matches!(s.serialize_value(&heap, &Value::String(0)), SerializedValue::Ref(0)));
}

#[test]
fn get_next_id_counts_up() {
    let mut s = SomSerializer::new();
    assert_eq!(s.get_next_id(100), 0);
    assert_eq!(s.get_next_id(7), 1);
    assert_eq!(s.get_next_id(3), 2);
}

#[test]
fn test_serialization_circular_reference_survives_a_roundtrip() {
    // arr1 at: 1 put: arr2. arr2 at: 1 put: arr1.
    let heap = Heap { cells: vec![HeapCell::Array(vec![Value::Array(1)]), HeapCell::Array(vec![Value::Array(0)])] };
    let (r, target, ir) = roundtrip(&heap, &Value::Array(0), vec![]);
    match &ir {
        SerializedValue::DefArray { id: 0, elements } => {
            assert_eq!(elements.len(), 1);
            match &elements[0] {
                SerializedValue::DefArray { id: 1, elements: inner } => {
                    assert!(matches!(inner[0], SerializedValue::Ref(0)));
                }
                other => panic!("expected the inner array, got {:?}", other),
            }
        }
        other => panic!("expected an array definition, got {:?}", other),
    }
    let outer = match r {
        Ok(Value::Array(c)) => c,
        _ => panic!("expected an array"),
    };
    let inner = match &target.cells[outer] {
        HeapCell::Array(v) => match v[0] {
            Value::Array(c) => c,
            _ => panic!("expected an array element"),
        },
        _ => panic!("expected an array cell"),
    };
    match &target.cells[inner] {
        HeapCell::Array(v) => assert!(matches!(v[0], Value::Array(c) if c == outer)),
        _ => panic!("expected an array cell"),
    }
}

#[test]
fn test_serialization_shared_reference_survives_a_roundtrip() {
    // arr at: 1 put: str. arr at: 2 put: str.
    let heap = Heap {
        cells: vec![
            HeapCell::Array(vec![Value::String(1), Value::String(1)]),
            HeapCell::Str("shared".to_string()),
        ],
    };
    let (r, target, _) = roundtrip(&heap, &Value::Array(0), vec![]);
    let arr = match r {
        Ok(Value::Array(c)) => c,
        _ => panic!("expected an array"),
    };
    match &target.cells[arr] {
        HeapCell::Array(v) => match (&v[0], &v[1]) {
            (Value::String(a), Value::String(b)) => {
                assert_eq!(a, b);
                assert!(matches!(&target.cells[*a], HeapCell::Str(s) if s == "shared"));
            }
            _ => panic!("expected String elements"),
        },
        _ => panic!("expected an array cell"),
    }
}

#[test]
fn objects_need_a_known_class() {
    let heap = Heap {
        cells: vec![HeapCell::Object {
            class_name: "Point".to_string(),
            fields: vec![Value::Integer("1".to_string()), Value::Integer("-2".to_string())],
        }],
    };
    let (r, target, _) = roundtrip(&heap, &Value::Object(0), vec!["Point".to_string()]);
    let c = match r {
        Ok(Value::Object(c)) => c,
        _ => panic!("expected an object"),
    };
    match &target.cells[c] {
        HeapCell::Object { class_name, fields } => {
            assert_eq!(class_name, "Point");
            assert!(matches!(&fields[0], Value::Integer(t) if t == "1"));
            assert!(matches!(&fields[1], Value::Integer(t) if t == "-2"));
        }
        _ => panic!("expected an object cell"),
    }
    let (r2, _, _) = roundtrip(&heap, &Value::Object(0), vec![]);
    assert!(matches!(r2, Err(DeserializeError::UnknownClass)));
}

#[test]
fn deserialization_errors_and_unsupported_values() {
    let mut heap = Heap { cells: Vec::new() };
    let mut d = SomDeserializer::new(vec![]);
    assert!(matches!(d.deserialize(&mut heap, &SerializedValue::Ref(5)), Err(DeserializeError::UnresolvedReference(5))));
    assert!(matches!(
        d.deserialize(&mut heap, &SerializedValue::Integer("12a".to_string())),
        Err(DeserializeError::InvalidInteger)
    ));
    assert!(matches!(
        d.deserialize(&mut heap, &SerializedValue::Integer("-".to_string())),
        Err(DeserializeError::InvalidInteger)
    ));
    assert!(matches!(
        d.deserialize(&mut heap, &SerializedValue::Integer("-0012".to_string())),
        Ok(Value::Integer(ref t)) if t == "-12"
    ));
    match d.deserialize(&mut heap, &SerializedValue::Unsupported("Runtime Context".to_string())) {
        Ok(Value::String(c)) => {
            assert!(matches!(&heap.cells[c], HeapCell::Str(s) if s == "Unsupported: Runtime Context"))
        }
        _ => panic!("expected a new string"),
    }
    assert!(matches!(d.deserialize(&mut heap, &SerializedValue::Double(7)), Ok(Value::Double(7))));
    assert!(matches!(d.deserialize(&mut heap, &SerializedValue::Symbol("s".to_string())), Ok(Value::Symbol(ref t)) if t == "s"));
}

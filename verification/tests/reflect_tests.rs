use lazysom::ast::Block;
use lazysom::object::{Heap, HeapCell, Value};
use lazysom::reflect::{
    block_restart, block_value, bool_if_false, bool_if_true, bool_if_true_if_false, false_not, obj_eq, obj_object_size,
    obj_perform, same_value, true_not, ClassError,
};
use lazysom::runtime::{Outcome, SuperError};
use lazysom::runtime::{BlockClosure, MethodCode, RtClass, RtMethod, Store};

fn s(t: &str) -> String {
    t.to_string()
}

fn integer(t: &str) -> Value {
    Value::Integer(s(t))
}

fn class(name: &str, metaclass: Option<usize>, super_class: Option<usize>, fields: &[&str]) -> RtClass {
    RtClass {
        name: s(name),
        metaclass,
        super_class,
        instance_fields: fields.iter().map(|f| s(f)).collect(),
        fields: vec![],
        methods: vec![],
        method_order: vec![],
    }
}

fn block(params: &[&str]) -> Block {
    Block { parameters: params.iter().map(|p| s(p)).collect(), locals: vec![], body: vec![] }
}

/// 0 Object, 1 Object class, 2 Point (fields x y, class-side field count), 3 Point class,
/// 4 Integer, 5 Block2, 6 Method, 7 Primitive.
fn store() -> Store {
    let mut object = class("Object", Some(1), None, &[]);
    object.methods.push((s("printString"), 0));
    let mut point = class("Point", Some(3), Some(0), &["x", "y"]);
    point.methods.push((s("x"), 1));
    point.methods.push((s("setX:"), 2));
    point.method_order = vec![s("x"), s("setX:")];
    point.fields.push(integer("7"));
    let classes = vec![
        object,
        class("Object class", None, None, &[]),
        point,
        class("Point class", None, Some(1), &["count"]),
        class("Integer", None, Some(0), &[]),
        class("Block2", None, Some(0), &[]),
        class("Method", None, Some(0), &[]),
        class("Primitive", None, Some(0), &[]),
    ];
    let methods = vec![
        RtMethod { signature: s("printString"), holder: 0, parameters: vec![], body: MethodCode::NilPrimitive },
        RtMethod { signature: s("x"), holder: 2, parameters: vec![], body: MethodCode::Ast(block(&[])) },
        RtMethod { signature: s("setX:"), holder: 2, parameters: vec![s("v")], body: MethodCode::Ast(block(&[])) },
    ];
    let heap = Heap {
        cells: vec![
            HeapCell::Object { class_name: s("Point"), fields: vec![integer("1"), integer("2")] },
            HeapCell::Str(s("setX:")),
        ],
    };
    let globals = vec![
        (s("Object"), Value::Class(0)),
        (s("Point"), Value::Class(2)),
        (s("Integer"), Value::Class(4)),
        (s("Block2"), Value::Class(5)),
        (s("Method"), Value::Class(6)),
        (s("Primitive"), Value::Class(7)),
    ];
    let blocks = vec![BlockClosure { body: block(&["a"]), context: None }];
    Store { heap, classes, methods, blocks, activations: vec![], globals, primitives: vec![], transcript: String::new(), errors: String::new() }
}

fn symbol(v: &Value) -> String {
    match v {
        Value::Symbol(t) => t.clone(),
        _ => panic!("expected a symbol"),
    }
}

fn array<'a>(st: &'a Store, v: &Value) -> &'a Vec<Value> {
    match v {
        Value::Array(c) => match &st.heap.cells[*c] {
            HeapCell::Array(elems) => elems,
            _ => panic!("expected an array cell"),
        },
        _ => panic!("expected an array"),
    }
}

#[test]
fn fields_by_index() {
    let mut st = store();
    assert!(matches!(st.obj_inst_var_at(&Value::Object(0), &vec![integer("2")]), Value::Integer(ref t) if t == "2"));
    assert!(matches!(st.obj_inst_var_at(&Value::Object(0), &vec![integer("3")]), Value::Nil));
    assert!(matches!(st.obj_inst_var_at(&Value::Object(0), &vec![integer("0")]), Value::Nil));
    assert!(matches!(st.obj_inst_var_at(&Value::Class(2), &vec![integer("1")]), Value::Integer(ref t) if t == "7"));
    assert!(matches!(st.obj_inst_var_at(&integer("5"), &vec![integer("1")]), Value::Nil));
    assert!(matches!(st.obj_inst_var_at_put(&Value::Object(0), &vec![integer("1"), integer("9")]), Value::Integer(ref t) if t == "9"));
    assert!(matches!(st.obj_inst_var_at(&Value::Object(0), &vec![integer("1")]), Value::Integer(ref t) if t == "9"));
    assert!(matches!(st.obj_inst_var_at_put(&Value::Object(0), &vec![integer("5"), integer("9")]), Value::Nil));
    assert!(matches!(st.obj_inst_var_at_put(&Value::Object(0), &vec![integer("1")]), Value::Nil));
}

#[test]
fn the_class_of_values() {
    let st = store();
    assert!(matches!(st.obj_class(&Value::Object(0)), Ok(Value::Class(2))));
    assert!(matches!(st.obj_class(&Value::Class(2)), Ok(Value::Class(3))));
    assert!(matches!(st.obj_class(&integer("1")), Ok(Value::Class(4))));
    assert!(matches!(st.obj_class(&Value::Block(0)), Ok(Value::Class(5))));
    assert!(matches!(st.obj_class(&Value::Method(0)), Ok(Value::Class(7))));
    assert!(matches!(st.obj_class(&Value::Method(1)), Ok(Value::Class(6))));
    assert_eq!(st.obj_class(&Value::Nil).err(), Some(ClassError::NotLoaded));
    assert_eq!(st.obj_class(&Value::Class(3)).err(), Some(ClassError::NoMetaclass));
}

#[test]
fn equality_of_values() {
    assert!(same_value(&integer("007"), &integer("7")));
    assert!(same_value(&Value::Object(0), &Value::Object(0)));
    assert!(!same_value(&Value::String(1), &Value::String(2)));
    assert!(same_value(&Value::Symbol(s("a")), &Value::Symbol(s("a"))));
    assert!(same_value(&Value::Double(0.0f64.to_bits()), &Value::Double((-0.0f64).to_bits())));
    assert!(!same_value(&Value::Double(f64::NAN.to_bits()), &Value::Double(f64::NAN.to_bits())));
    assert!(same_value(&Value::Double(1.5f64.to_bits()), &Value::Double(1.5f64.to_bits())));
    assert!(!same_value(&integer("1"), &Value::Double(1.0f64.to_bits())));
    assert!(matches!(obj_eq(&Value::Nil, &vec![Value::Nil]), Value::Boolean(true)));
    assert!(matches!(obj_eq(&Value::Nil, &vec![]), Value::Boolean(false)));
    assert!(matches!(obj_object_size(), Value::Integer(ref t) if t == "16"));
    assert!(matches!(true_not(), Value::Boolean(false)));
    assert!(matches!(false_not(), Value::Boolean(true)));
}

#[test]
fn responding_to_selectors() {
    let st = store();
    let sym = |t: &str| vec![Value::Symbol(s(t))];
    assert!(matches!(st.obj_responds_to(&Value::Object(0), &sym("printString")), Value::Boolean(true)));
    assert!(matches!(st.obj_responds_to(&Value::Object(0), &vec![Value::String(1)]), Value::Boolean(true)));
    assert!(matches!(st.obj_responds_to(&Value::Object(0), &sym("frob")), Value::Boolean(false)));
    assert!(matches!(st.obj_responds_to(&integer("1"), &sym("printString")), Value::Boolean(true)));
    assert!(matches!(st.obj_responds_to(&integer("1"), &vec![integer("2")]), Value::Boolean(false)));
    assert!(matches!(st.class_has_method(&Value::Class(2), &sym("x")), Value::Boolean(true)));
    assert!(matches!(st.class_has_method(&Value::Class(2), &sym("printString")), Value::Boolean(false)));
}

#[test]
fn classes_describe_themselves() {
    let mut st = store();
    assert_eq!(symbol(&st.class_name(&Value::Class(2))), "Point");
    assert!(matches!(st.class_superclass(&Value::Class(2)), Value::Class(0)));
    assert!(matches!(st.class_superclass(&Value::Class(0)), Value::Nil));
    let f = st.class_fields(&Value::Class(2));
    let names: Vec<String> = array(&st, &f).iter().map(symbol).collect();
    assert_eq!(names, vec![s("x"), s("y")]);
    let sels = st.class_selectors(&Value::Class(2));
    let sel_names: Vec<String> = array(&st, &sels).iter().map(symbol).collect();
    assert_eq!(sel_names, vec![s("x"), s("setX:")]);
    let ms = st.class_methods(&Value::Class(2));
    assert!(matches!(array(&st, &ms).as_slice(), [Value::Method(1), Value::Method(2)]));
    assert_eq!(symbol(&st.method_signature(&Value::Method(2))), "setX:");
    assert!(matches!(st.method_holder(&Value::Method(2)), Value::Class(2)));
    assert!(matches!(st.class_fields(&Value::Nil), Value::Nil));
}

#[test]
fn new_instances_and_strings() {
    let mut st = store();
    match st.class_new(&Value::Class(2)) {
        Some(Value::Object(c)) => match &st.heap.cells[c] {
            HeapCell::Object { class_name, fields } => {
                assert_eq!(class_name, "Point");
                assert!(fields.len() == 2 && fields.iter().all(|f| matches!(f, Value::Nil)));
            },
            _ => panic!("expected an object cell"),
        },
        _ => panic!("expected an object"),
    }
    assert!(st.class_new(&integer("1")).is_none());
    match st.nil_as_string() {
        Value::String(c) => assert!(matches!(&st.heap.cells[c], HeapCell::Str(t) if t == "nil")),
        _ => panic!("expected a string"),
    }
    match st.symbol_as_string(&Value::Symbol(s("abc"))) {
        Value::String(c) => assert!(matches!(&st.heap.cells[c], HeapCell::Str(t) if t == "abc")),
        _ => panic!("expected a string"),
    }
    assert!(matches!(st.symbol_as_string(&Value::Nil), Value::Nil));
}

#[test]
fn globals_by_name() {
    let mut st = store();
    assert!(matches!(st.sys_global(&vec![Value::Symbol(s("Point"))]), Value::Class(2)));
    assert!(matches!(st.sys_global(&vec![Value::Symbol(s("Nope"))]), Value::Nil));
    assert!(matches!(st.sys_has_global(&vec![Value::Symbol(s("Integer"))]), Value::Boolean(true)));
    assert!(matches!(st.sys_has_global(&vec![integer("1")]), Value::Boolean(false)));
    assert!(matches!(st.sys_global_put(&vec![Value::Symbol(s("Answer")), integer("42")]), Value::Integer(ref t) if t == "42"));
    assert!(matches!(st.sys_global(&vec![Value::Symbol(s("Answer"))]), Value::Integer(ref t) if t == "42"));
    assert!(matches!(st.sys_global_put(&vec![Value::Symbol(s("Answer")), integer("43")]), Value::Integer(_)));
    assert!(matches!(st.sys_global(&vec![Value::Symbol(s("Answer"))]), Value::Integer(ref t) if t == "43"));
    assert!(matches!(st.sys_global_put(&vec![Value::Symbol(s("Answer"))]), Value::Nil));
}

#[test]
fn class_names_are_sorted_and_listed_once() {
    let mut st = store();
    st.globals.push((s("Answer"), integer("42")));
    let files = vec![s("Zeta"), s("Point"), s("Has Space"), s("Alpha")];
    let r = st.sys_class_names(&files);
    let got: Vec<String> = array(&st, &r).iter().map(symbol).collect();
    assert_eq!(got, vec![s("Alpha"), s("Block2"), s("Integer"), s("Method"), s("Object"), s("Point"), s("Primitive"), s("Zeta")]);
}

#[test]
fn control_primitives_choose_the_block_to_run() {
    let t = Value::Boolean(true);
    let f = Value::Boolean(false);
    assert_eq!(bool_if_true(&t, &vec![Value::Block(3)]), Some(3));
    assert_eq!(bool_if_true(&f, &vec![Value::Block(3)]), None);
    assert_eq!(bool_if_true(&t, &vec![Value::Nil]), None);
    assert_eq!(bool_if_false(&f, &vec![Value::Block(4)]), Some(4));
    assert_eq!(bool_if_false(&t, &vec![Value::Block(4)]), None);
    assert_eq!(bool_if_true_if_false(&t, &vec![Value::Block(1), Value::Block(2)]), Some(1));
    assert_eq!(bool_if_true_if_false(&f, &vec![Value::Block(1), Value::Block(2)]), Some(2));
    assert_eq!(bool_if_true_if_false(&f, &vec![Value::Block(1)]), None);
    assert_eq!(bool_if_true_if_false(&Value::Nil, &vec![Value::Block(1), Value::Block(2)]), None);
    assert_eq!(block_value(&Value::Block(7)), Some(7));
    assert_eq!(block_value(&Value::Nil), None);
    assert!(matches!(block_restart(), Outcome::Restart));
}

#[test]
fn perform_names_a_message() {
    let heap = Heap {
        cells: vec![HeapCell::Str(s("at:put:")), HeapCell::Array(vec![integer("1"), integer("2")])],
    };
    match obj_perform(&heap, &vec![Value::String(0), Value::Array(1)]) {
        Some((sel, args)) => {
            assert_eq!(sel, "at:put:");
            assert!(matches!(args.as_slice(), [Value::Integer(a), Value::Integer(b)] if a == "1" && b == "2"));
        },
        None => panic!("a selector is named"),
    }
    match obj_perform(&heap, &vec![Value::Symbol(s("value:")), integer("5")]) {
        Some((sel, args)) => {
            assert_eq!(sel, "value:");
            assert!(matches!(args.as_slice(), [Value::Integer(a)] if a == "5"));
        },
        None => panic!("a selector is named"),
    }
    match obj_perform(&heap, &vec![Value::Symbol(s("yourself"))]) {
        Some((sel, args)) => assert!(sel == "yourself" && args.is_empty()),
        None => panic!("a selector is named"),
    }
    assert!(obj_perform(&heap, &vec![integer("1")]).is_none());
    assert!(obj_perform(&heap, &vec![]).is_none());
}

#[test]
fn perform_in_superclass_looks_up_from_the_given_class() {
    let st = store();
    // Point answers x itself; printString comes from Object.
    assert_eq!(st.obj_perform_in_superclass(&vec![Value::Symbol(s("x")), Value::Class(2)]), Ok(Some(1)));
    assert_eq!(st.obj_perform_in_superclass(&vec![Value::Symbol(s("printString")), Value::Class(2)]), Ok(Some(0)));
    // A string names the selector too.
    assert_eq!(st.obj_perform_in_superclass(&vec![Value::String(1), Value::Class(2)]), Ok(Some(2)));
    // Starting at Object, Point's methods are not seen.
    assert_eq!(st.obj_perform_in_superclass(&vec![Value::Symbol(s("x")), Value::Class(0)]), Err(SuperError::NotFound));
    // Anything but a selector and a class answers nil.
    assert_eq!(st.obj_perform_in_superclass(&vec![integer("1"), Value::Class(2)]), Ok(None));
    assert_eq!(st.obj_perform_in_superclass(&vec![Value::Symbol(s("x")), integer("2")]), Ok(None));
    assert_eq!(st.obj_perform_in_superclass(&vec![Value::Symbol(s("x"))]), Ok(None));
}

use lazysom::ast::Block;
use lazysom::object::{Heap, HeapCell, Value};
use lazysom::runtime::{
    outcome_value, Activation, BlockClosure, Dispatch, Escape, MethodCode, Outcome, RtClass, RtMethod, Slot, Store,
    SuperError,
};

fn s(t: &str) -> String {
    t.to_string()
}

fn class(name: &str, metaclass: Option<usize>, super_class: Option<usize>, fields: &[&str]) -> RtClass {
    RtClass {
        name: s(name),
        metaclass,
        super_class,
        instance_fields: fields.iter().map(|f| s(f)).collect(),
        fields: vec![],
        methods: vec![],
        method_order: vec![],
    }
}

fn block(params: &[&str], locals: &[&str]) -> Block {
    Block { parameters: params.iter().map(|p| s(p)).collect(), locals: locals.iter().map(|l| s(l)).collect(), body: vec![] }
}

fn integer(v: &str) -> Value {
    Value::Integer(s(v))
}

fn is_int(v: &Value, t: &str) -> bool {
    matches!(v, Value::Integer(x) if x == t)
}

/// Classes: 0 Object, 1 Object class, 2 Point (a subclass of Object with fields x, y),
/// 3 Point class (naming the class-side field `count`), 4 Integer, 5 Block.
fn store() -> Store {
    let mut object = class("Object", Some(1), None, &[]);
    object.methods.push((s("printString"), 0));
    object.methods.push((s("ping"), 1));
    let mut point = class("Point", Some(3), Some(0), &["x", "y"]);
    point.methods.push((s("ping"), 2));
    point.fields.push(integer("7"));
    let classes = vec![
        object,
        class("Object class", None, None, &[]),
        point,
        class("Point class", None, Some(1), &["count"]),
        class("Integer", None, Some(0), &[]),
        class("Block", None, Some(0), &[]),
    ];
    let methods = vec![
        RtMethod { signature: s("printString"), holder: 0, parameters: vec![], body: MethodCode::NilPrimitive },
        RtMethod { signature: s("ping"), holder: 0, parameters: vec![], body: MethodCode::Ast(block(&[], &[])) },
        RtMethod {
            signature: s("ping"),
            holder: 2,
            parameters: vec![s("a"), s("b"), s("a")],
            body: MethodCode::Ast(block(&[], &["t", "u"])),
        },
    ];
    let heap = Heap {
        cells: vec![HeapCell::Object { class_name: s("Point"), fields: vec![integer("1"), integer("2")] }],
    };
    let globals = vec![
        (s("Object"), Value::Class(0)),
        (s("Point"), Value::Class(2)),
        (s("Integer"), Value::Class(4)),
        (s("Block"), Value::Class(5)),
        (s("Answer"), integer("42")),
    ];
    // Activation 0 runs Point>>ping on the point; activation 1 is a block inside it.
    let activations = vec![
        Activation {
            holder: Some(2),
            self_val: Value::Object(0),
            args: vec![(s("a"), integer("10"))],
            locals: vec![(s("t"), Value::Nil)],
            parent: None,
            is_active: true,
        },
        Activation {
            holder: None,
            self_val: Value::Object(0),
            args: vec![(s("e"), integer("5"))],
            locals: vec![(s("x"), integer("99"))],
            parent: Some(0),
            is_active: true,
        },
    ];
    let blocks = vec![BlockClosure { body: block(&["p"], &["q"]), context: Some(0) }];
    Store { heap, classes, methods, blocks, activations, globals, primitives: vec![], transcript: String::new(), errors: String::new() }
}

#[test]
fn variables_are_found_through_the_chain_of_activations() {
    let st = store();
    assert!(is_int(&st.lookup(&s("x"), 1).unwrap(), "99"));
    assert!(is_int(&st.lookup(&s("x"), 0).unwrap(), "1"));
    assert!(is_int(&st.lookup(&s("y"), 1).unwrap(), "2"));
    assert!(is_int(&st.lookup(&s("e"), 1).unwrap(), "5"));
    assert!(is_int(&st.lookup(&s("a"), 1).unwrap(), "10"));
    assert!(matches!(st.lookup(&s("t"), 1), Some(Value::Nil)));
    assert!(is_int(&st.lookup(&s("Answer"), 1).unwrap(), "42"));
    assert!(matches!(st.lookup(&s("Point"), 0), Some(Value::Class(2))));
    assert!(st.lookup(&s("missing"), 1).is_none());
    assert!(matches!(st.lookup(&s("self"), 1), Some(Value::Object(0))));
    assert!(matches!(st.lookup(&s("true"), 1), Some(Value::Boolean(true))));
    assert!(matches!(st.lookup(&s("nil"), 0), Some(Value::Nil)));
    assert!(matches!(st.find_slot(&s("y"), 1), Some(Slot::ObjectField(0, 1))));
    assert!(matches!(st.find_slot(&s("x"), 1), Some(Slot::Local(1, 0))));
}

#[test]
fn an_assigned_variable_is_read_back() {
    let mut st = store();
    assert!(is_int(&st.assign(&s("y"), integer("20"), 1).unwrap(), "20"));
    assert!(is_int(&st.lookup(&s("y"), 1).unwrap(), "20"));
    match &st.heap.cells[0] {
        HeapCell::Object { fields, .. } => assert!(is_int(&fields[1], "20") && is_int(&fields[0], "1")),
        _ => panic!("the object stays an object"),
    }
    assert!(is_int(&st.assign(&s("a"), integer("11"), 1).unwrap(), "11"));
    assert!(is_int(&st.lookup(&s("a"), 0).unwrap(), "11"));
    assert!(is_int(&st.assign(&s("x"), integer("3"), 1).unwrap(), "3"));
    assert!(is_int(&st.lookup(&s("x"), 1).unwrap(), "3"));
    assert!(is_int(&st.lookup(&s("x"), 0).unwrap(), "1"));
    assert_eq!(st.assign(&s("Answer"), integer("1"), 1).err(), Some(s("Answer")));
    assert!(is_int(&st.lookup(&s("Answer"), 1).unwrap(), "42"));
}

#[test]
fn class_side_fields_are_named_by_the_metaclass() {
    let mut st = store();
    st.activations.push(Activation {
        holder: Some(3),
        self_val: Value::Class(2),
        args: vec![],
        locals: vec![],
        parent: None,
        is_active: true,
    });
    assert!(is_int(&st.lookup(&s("count"), 2).unwrap(), "7"));
    assert!(st.assign(&s("count"), integer("8"), 2).is_ok());
    assert!(is_int(&st.classes[2].fields[0], "8"));
}

#[test]
fn methods_are_found_through_the_superclasses() {
    let st = store();
    assert_eq!(st.lookup_method(2, &s("ping")), Some(2));
    assert_eq!(st.lookup_method(2, &s("printString")), Some(0));
    assert_eq!(st.lookup_method(0, &s("ping")), Some(1));
    assert_eq!(st.lookup_method(2, &s("unknown")), None);
    assert_eq!(st.find_method_activation(1), Some(0));
    assert_eq!(st.super_method(1, &s("ping")), Ok(1));
    assert_eq!(st.super_method(1, &s("unknown")), Err(SuperError::NotFound));
}

#[test]
fn a_method_activation_is_required_for_super() {
    let mut st = store();
    st.activations[0].holder = None;
    assert_eq!(st.find_method_activation(1), None);
    assert_eq!(st.super_method(1, &s("ping")), Err(SuperError::NoMethodActivation));
    let mut st = store();
    st.activations[0].holder = Some(0);
    assert_eq!(st.super_method(1, &s("ping")), Err(SuperError::NoSuperclass));
}

#[test]
fn the_class_of_a_value() {
    let st = store();
    assert_eq!(st.class_of(&Value::Object(0)), Some(2));
    assert_eq!(st.class_of(&integer("3")), Some(4));
    assert_eq!(st.class_of(&Value::Class(2)), Some(3));
    assert_eq!(st.class_of(&Value::Block(0)), Some(5));
    assert_eq!(st.class_of(&Value::Nil), None);
}

#[test]
fn what_a_message_send_runs() {
    let st = store();
    assert!(matches!(st.dispatch_plan(&Value::Block(0), &s("value:")), Dispatch::RunBlock(0)));
    assert!(matches!(st.dispatch_plan(&Value::Block(0), &s("ping")), Dispatch::Run(1)));
    assert!(matches!(st.dispatch_plan(&integer("3"), &s("asInteger")), Dispatch::Receiver));
    assert!(matches!(st.dispatch_plan(&integer("3"), &s("round")), Dispatch::Receiver));
    assert!(matches!(st.dispatch_plan(&integer("3"), &s("printString")), Dispatch::Run(0)));
    assert!(matches!(st.dispatch_plan(&Value::Object(0), &s("ping")), Dispatch::Run(2)));
    assert!(matches!(st.dispatch_plan(&Value::Object(0), &s("frob")), Dispatch::NotUnderstood));
    assert!(matches!(st.dispatch_plan(&Value::Nil, &s("ping")), Dispatch::NoClass));
}

#[test]
fn entering_a_method_binds_its_arguments_and_locals() {
    let mut st = store();
    let a = st.enter_method(2, Value::Object(0), &vec![integer("1"), integer("2"), integer("3")]);
    assert_eq!(a, 2);
    let act = &st.activations[2];
    assert_eq!(act.holder, Some(2));
    assert!(act.is_active && act.parent.is_none());
    // The parameter named twice takes the later argument.
    assert_eq!(act.args.len(), 2);
    assert!(act.args[0].0 == "a" && is_int(&act.args[0].1, "3"));
    assert!(act.args[1].0 == "b" && is_int(&act.args[1].1, "2"));
    assert_eq!(act.locals.len(), 2);
    assert!(matches!(act.locals[1], (ref n, Value::Nil) if n == "u"));
    // Missing arguments leave their parameters unbound.
    let b = st.enter_method(2, Value::Object(0), &vec![integer("1")]);
    assert_eq!(st.activations[b].args.len(), 1);
}

#[test]
fn entering_a_block_encloses_it_in_its_context() {
    let mut st = store();
    let a = st.enter_block(0, &vec![integer("4")]);
    let act = &st.activations[a];
    assert_eq!(act.parent, Some(0));
    assert!(act.holder.is_none());
    assert!(matches!(act.self_val, Value::Object(0)));
    assert!(act.args[0].0 == "p" && is_int(&act.args[0].1, "4"));
    assert!(is_int(&st.lookup(&s("y"), a).unwrap(), "2"));
}

#[test]
fn finishing_a_method() {
    let mut st = store();
    match st.finish_method::<String>(0, Ok(Outcome::Value(integer("5")))) {
        Ok(Outcome::Value(Value::Object(0))) => {},
        _ => panic!("a method that ends normally answers its receiver"),
    }
    assert!(!st.activations[0].is_active);
    match st.finish_method::<String>(0, Ok(Outcome::NonLocalReturn(integer("6"), 0))) {
        Ok(Outcome::Value(v)) => assert!(is_int(&v, "6")),
        _ => panic!("a return out of this method is its answer"),
    }
    match st.finish_method::<String>(1, Ok(Outcome::NonLocalReturn(integer("6"), 0))) {
        Ok(Outcome::NonLocalReturn(v, 0)) => assert!(is_int(&v, "6")),
        _ => panic!("a return out of another method passes through"),
    }
    assert_eq!(st.finish_method(1, Err(s("boom"))).err(), Some(s("boom")));
    assert!(matches!(st.escaped_return(&Outcome::NonLocalReturn(Value::Nil, 0)), Some(Value::Object(0))));
    let fresh = store();
    assert!(fresh.escaped_return(&Outcome::NonLocalReturn(Value::Nil, 0)).is_none());
    assert!(fresh.escaped_return(&Outcome::Value(Value::Nil)).is_none());
}

#[test]
fn a_send_answers_only_a_value() {
    assert!(matches!(outcome_value(Outcome::Value(integer("1"))), Ok(ref v) if is_int(v, "1")));
    assert_eq!(outcome_value(Outcome::NonLocalReturn(Value::Nil, 0)).err(), Some(Escape::NonLocalReturn));
    assert_eq!(outcome_value(Outcome::Restart).err(), Some(Escape::Restart));
}

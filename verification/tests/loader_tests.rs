use lazysom::ast::ClassDef;
use lazysom::loader::{DefineStep, LoadStep};
use lazysom::object::{HeapCell, Value};
use lazysom::parser::Parser;
use lazysom::runtime::{MethodCode, RtClass, Store};

fn s(t: &str) -> String {
    t.to_string()
}

fn class_def(src: &str) -> ClassDef {
    Parser::new(src).parse_class().expect("class should parse")
}

fn stub(st: &mut Store, name: &str) -> usize {
    st.classes.push(RtClass {
        name: s(name),
        metaclass: None,
        super_class: None,
        instance_fields: vec![],
        fields: vec![],
        methods: vec![],
        method_order: vec![],
    });
    let k = st.classes.len() - 1;
    st.globals.push((s(name), Value::Class(k)));
    k
}

fn names(v: &[String]) -> Vec<&str> {
    v.iter().map(|x| x.as_str()).collect()
}

#[test]
fn a_new_store_knows_metaclass() {
    let st = Store::new(vec![s("Integer>>+")]);
    assert_eq!(st.classes.len(), 1);
    assert_eq!(st.classes[0].name, "Metaclass");
    assert_eq!(st.classes[0].metaclass, Some(0));
    assert!(matches!(st.globals[0], (ref n, Value::Class(0)) if n == "Metaclass"));
    assert_eq!(st.primitives, vec![s("Integer>>+")]);
}

#[test]
fn primitives_are_registered_once() {
    let mut st = Store::new(vec![]);
    st.register_primitive(&s("Integer"), &s("+"));
    st.register_primitive(&s("Integer"), &s("+"));
    st.register_primitive(&s("Integer class"), &s("fromString:"));
    assert_eq!(st.primitives, vec![s("Integer>>+"), s("Integer class>>fromString:")]);
}

#[test]
fn classes_are_assembled_with_their_metaclasses_fields_and_methods() {
    let mut st = Store::new(vec![s("Point>>magnitude")]);
    let object = stub(&mut st, "Object");
    let class = stub(&mut st, "Class");
    let point = stub(&mut st, "Point");
    st.assemble_class_into(class_def("Object = nil ( | h | yourself = ( ^ self ) )"), object, None, class, 0);
    let object_meta = st.classes[object].metaclass.expect("Object has a metaclass");
    assert_eq!(st.classes[object_meta].name, "Object class");
    assert_eq!(st.classes[object_meta].super_class, Some(class));
    assert_eq!(st.classes[object_meta].metaclass, Some(0));
    // `halt` is added to Object without being listed.
    assert_eq!(names(&st.classes[object].method_order), vec!["yourself"]);
    assert!(st.classes[object].methods.iter().any(|(n, _)| n == "halt"));

    st.assemble_class_into(class_def("Class = Object ( | name | )"), class, Some(object), class, 0);
    let class_meta = st.classes[class].metaclass.unwrap();
    assert_eq!(st.classes[class_meta].super_class, Some(object_meta));

    st.assemble_class_into(
        class_def("Point = Object ( | x y | x = ( ^ x ) magnitude = primitive x = ( ^ 0 ) ---- | count | origin = primitive )"),
        point,
        Some(object),
        class,
        0,
    );
    let p = &st.classes[point];
    assert_eq!(names(&p.instance_fields), vec!["h", "x", "y"]);
    assert_eq!(p.super_class, Some(object));
    let point_meta = p.metaclass.unwrap();
    assert_eq!(st.classes[point_meta].name, "Point class");
    assert_eq!(st.classes[point_meta].super_class, Some(object_meta));
    // The class side has the fields of its superclass's metaclass, then its own.
    assert_eq!(names(&st.classes[point_meta].instance_fields), vec!["count"]);
    assert_eq!(p.fields.len(), 1);
    // A selector defined twice keeps the later method and is listed twice.
    assert_eq!(names(&p.method_order), vec!["x", "magnitude", "x"]);
    assert_eq!(p.methods.len(), 2);
    let x = st.lookup_method(point, &s("x")).unwrap();
    assert!(matches!(&st.methods[x].body, MethodCode::Ast(b) if b.body.len() == 1));
    assert_eq!(st.methods[x].holder, point);
    let magnitude = st.lookup_method(point, &s("magnitude")).unwrap();
    assert!(matches!(&st.methods[magnitude].body, MethodCode::Primitive(k) if k == "Point>>magnitude"));
    let origin = st.lookup_method(point_meta, &s("origin")).unwrap();
    assert!(matches!(st.methods[origin].body, MethodCode::NilPrimitive));
    assert_eq!(st.methods[origin].holder, point_meta);
    assert_eq!(st.lookup_method(point, &s("yourself")), st.lookup_method(object, &s("yourself")));
}

#[test]
fn methods_take_their_parameters_from_the_pattern() {
    let mut st = Store::new(vec![]);
    let object = stub(&mut st, "Object");
    let class = stub(&mut st, "Class");
    st.assemble_class_into(class_def("Object = nil ( at: i put: v = ( ^ v ) + other = ( ^ self ) )"), object, None, class, 0);
    let at_put = st.lookup_method(object, &s("at:put:")).unwrap();
    assert_eq!(st.methods[at_put].parameters, vec![s("i"), s("v")]);
    assert_eq!(st.methods[at_put].signature, "at:put:");
    let plus = st.lookup_method(object, &s("+")).unwrap();
    assert_eq!(st.methods[plus].parameters, vec![s("other")]);
}

#[test]
fn loading_starts_from_a_bound_class_or_a_new_empty_one() {
    let mut st = Store::new(vec![]);
    // A new store's Metaclass is still to be assembled.
    assert!(matches!(st.class_to_load(&s("Metaclass")), LoadStep::Assemble(0)));
    match st.class_to_load(&s("Point")) {
        LoadStep::Assemble(k) => {
            assert_eq!(k, 1);
            assert_eq!(st.classes[1].name, "Point");
            assert!(st.classes[1].metaclass.is_none() && st.classes[1].methods.is_empty());
            assert!(st.globals.iter().any(|(n, v)| n == "Point" && matches!(v, Value::Class(1))));
        },
        LoadStep::Loaded(_) => panic!("Point was not loaded"),
    }
    // Once bound, the class is loaded.
    assert!(matches!(st.class_to_load(&s("Point")), LoadStep::Loaded(1)));
    assert_eq!(st.classes.len(), 2);
    // A global that is not a class gives way to a new class.
    st.globals.push((s("Answer"), Value::Integer(s("42"))));
    assert!(matches!(st.class_to_load(&s("Answer")), LoadStep::Assemble(2)));
    assert!(st.globals.iter().any(|(n, v)| n == "Answer" && matches!(v, Value::Class(2))));
}

#[test]
fn installing_a_method_binds_its_selector_in_the_class() {
    let mut st = Store::new(vec![]);
    let object = stub(&mut st, "Object");
    let class = stub(&mut st, "Class");
    let point = stub(&mut st, "Point");
    st.assemble_class_into(class_def("Object = nil ( yourself = ( ^ self ) )"), object, None, class, 0);
    let yourself = st.lookup_method(object, &s("yourself")).unwrap();
    assert_eq!(st.lookup_method(point, &s("yourself")), None);
    let r = st.sys_install_method_in_class(&vec![Value::Method(yourself), Value::Class(point)]);
    assert!(matches!(r, Value::Boolean(true)));
    assert_eq!(st.lookup_method(point, &s("yourself")), Some(yourself));
    assert_eq!(names(&st.classes[point].method_order), vec!["yourself"]);
    // Installing it again rebinds the selector without listing it twice.
    let r = st.sys_install_method_in_class(&vec![Value::Method(yourself), Value::Class(point)]);
    assert!(matches!(r, Value::Boolean(true)));
    assert_eq!(st.classes[point].methods.len(), 1);
    assert_eq!(names(&st.classes[point].method_order), vec!["yourself"]);
    // Anything but a method and a class is refused.
    let r = st.sys_install_method_in_class(&vec![Value::Class(point), Value::Method(yourself)]);
    assert!(matches!(r, Value::Boolean(false)));
    let r = st.sys_install_method_in_class(&vec![Value::Method(yourself)]);
    assert!(matches!(r, Value::Boolean(false)));
}

fn compile(st: &mut Store, text: &str, class: usize) -> Value {
    let cell = st.heap.cells.len();
    st.heap.cells.push(HeapCell::Str(s(text)));
    st.sys_compile_method_in_class(&vec![Value::String(cell), Value::Class(class)])
}

fn string_at(st: &Store, v: &Value) -> String {
    match v {
        Value::String(c) => match &st.heap.cells[*c] {
            HeapCell::Str(t) => t.clone(),
            _ => panic!("not a string cell"),
        },
        _ => panic!("not a string"),
    }
}

#[test]
fn compiling_a_method_answers_it_without_installing_it() {
    let mut st = Store::new(vec![s("Point>>at:put:")]);
    let object = stub(&mut st, "Object");
    let class = stub(&mut st, "Class");
    let point = stub(&mut st, "Point");
    st.assemble_class_into(class_def("Object = nil ( )"), object, None, class, 0);
    let before = st.methods.len();
    match compile(&mut st, "double = ( ^ self + self )", point) {
        Value::Method(m) => {
            assert_eq!(m, before);
            assert_eq!(st.methods[m].signature, "double");
            assert_eq!(st.methods[m].holder, point);
            assert!(st.methods[m].parameters.is_empty());
            assert!(matches!(&st.methods[m].body, MethodCode::Ast(b) if b.body.len() == 1));
        },
        _ => panic!("expected a method"),
    }
    assert_eq!(st.lookup_method(point, &s("double")), None);
    match compile(&mut st, "at: i put: v = primitive", point) {
        Value::Method(m) => {
            assert_eq!(st.methods[m].parameters, vec![s("i"), s("v")]);
            assert!(matches!(&st.methods[m].body, MethodCode::Primitive(k) if k == "Point>>at:put:"));
        },
        _ => panic!("expected a method"),
    }
    match compile(&mut st, "origin = primitive", point) {
        Value::Method(m) => assert!(matches!(st.methods[m].body, MethodCode::NilPrimitive)),
        _ => panic!("expected a method"),
    }
    // Anything but a string and a class answers nil.
    assert!(matches!(st.sys_compile_method_in_class(&vec![Value::Class(point), Value::Class(point)]), Value::Nil));
    assert!(matches!(st.sys_compile_method_in_class(&vec![Value::Symbol(s("x = ( )"))]), Value::Nil));
}

#[test]
fn compiling_bad_text_answers_what_went_wrong() {
    let mut st = Store::new(vec![]);
    let point = stub(&mut st, "Point");
    let r = compile(&mut st, "foo = ( 1 2 )", point);
    assert_eq!(string_at(&st, &r), "Error parsing: Expected '.' or end of block, got Integer ('2') at offset 10");
    let r = compile(&mut st, "foo = ( ^ 1 2 )", point);
    assert_eq!(string_at(&st, &r), "Error parsing: Expected EndTerm, got Integer");
    let r = compile(&mut st, "foo ( ^ 1 )", point);
    assert_eq!(string_at(&st, &r), "Error parsing: Expected Equal, got NewTerm");
    let r = compile(&mut st, "foo = ( ^ ) )", point);
    assert_eq!(string_at(&st, &r), "Error parsing: Unexpected token in primary: EndTerm (')') at offset 10");
}

fn define(st: &mut Store, text: &str) -> DefineStep {
    let cell = st.heap.cells.len();
    st.heap.cells.push(HeapCell::Str(s(text)));
    st.sys_define_class(&vec![Value::String(cell)])
}

#[test]
fn defining_a_class_finds_or_binds_the_class_to_assemble() {
    let mut st = Store::new(vec![]);
    let object = stub(&mut st, "Object");
    match define(&mut st, "Point = Object ( | x y | x = ( ^ x ) )") {
        DefineStep::Assemble(def, k) => {
            assert_eq!(def.name, "Point");
            assert_eq!(def.super_class, Some(s("Object")));
            assert_eq!(def.instance_fields, vec![s("x"), s("y")]);
            assert_eq!(k, 2);
            assert_eq!(st.classes[k].name, "Point");
            assert!(st.globals.iter().any(|(n, v)| n == "Point" && matches!(v, Value::Class(2))));
        },
        DefineStep::Answer(_) => panic!("expected a class to assemble"),
    }
    // A class bound to the name is assembled into again.
    match define(&mut st, "Object = nil ( )") {
        DefineStep::Assemble(_, k) => assert_eq!(k, object),
        DefineStep::Answer(_) => panic!("expected a class to assemble"),
    }
    assert_eq!(st.classes.len(), 3);
    // Nil unless the argument is a string.
    assert!(matches!(st.sys_define_class(&vec![Value::Symbol(s("Foo = ( )"))]), DefineStep::Answer(Value::Nil)));
    assert!(matches!(st.sys_define_class(&vec![]), DefineStep::Answer(Value::Nil)));
}

#[test]
fn defining_a_class_from_bad_text_answers_what_went_wrong() {
    let mut st = Store::new(vec![]);
    match define(&mut st, "Foo Object ( )") {
        DefineStep::Answer(v) => assert_eq!(string_at(&st, &v), "Error parsing class: Expected Equal, got Identifier"),
        DefineStep::Assemble(_, _) => panic!("expected an error"),
    }
    match define(&mut st, "= Foo ( )") {
        DefineStep::Answer(v) => assert_eq!(string_at(&st, &v), "Error parsing class: Expected Primitive, got Identifier"),
        DefineStep::Assemble(_, _) => panic!("expected an error"),
    }
    assert_eq!(st.classes.len(), 1);
}

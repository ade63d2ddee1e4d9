use lazysom::ast::ClassDef;
use lazysom::object::Value;
use lazysom::parser::Parser;
use lazysom::program::{registered_primitives, LoadError, RunError};
use lazysom::runtime::Store;

fn s(t: &str) -> String {
    t.to_string()
}

fn defs(sources: &[&str]) -> Vec<ClassDef> {
    sources.iter().map(|src| Parser::new(src).parse_class().expect("class should parse")).collect()
}

const CORE: &[&str] = &[
    "Object = nil ( class = primitive == other = primitive \
     doesNotUnderstand: sel arguments: args = ( ^ sel ) )",
    "Class = Object ( new = primitive name = primitive superclass = primitive )",
    "Metaclass = Class ( )",
    "System = Object ( printString: s = primitive printNewline = primitive )",
    "Integer = Object ( + o = primitive < o = primitive to: l do: b = primitive asString = primitive )",
    "String = Object ( length = primitive )",
    "Array = Object ( at: i = primitive length = primitive )",
    "Block = Object ( value = primitive )",
    "Symbol = Object ( )",
    "Nil = Object ( )",
    "Boolean = Object ( )",
    "True = Boolean ( )",
    "False = Boolean ( )",
];

fn with(extra: &[&str]) -> Vec<ClassDef> {
    let mut all: Vec<&str> = CORE.to_vec();
    all.extend_from_slice(extra);
    defs(&all)
}

fn index_of(st: &Store, name: &str) -> usize {
    st.globals
        .iter()
        .find_map(|(n, v)| match v {
            Value::Class(k) if n == name => Some(*k),
            _ => None,
        })
        .expect("class is bound")
}

#[test]
fn loading_a_class_loads_its_superclasses_and_metaclass() {
    let ds = with(&["Point = Object ( | x y | x = ( ^ x ) )", "Point3 = Point ( | z | )"]);
    let mut st = Store::new(registered_primitives());
    let mut loading = vec![];
    let k = st.load_class(&ds, &s("Point3"), &mut loading, 40).expect("Point3 loads");
    assert_eq!(st.classes[k].name, "Point3");
    let point = index_of(&st, "Point");
    let object = index_of(&st, "Object");
    assert_eq!(st.classes[k].super_class, Some(point));
    assert_eq!(st.classes[point].super_class, Some(object));
    assert_eq!(st.classes[k].instance_fields, vec![s("x"), s("y"), s("z")]);
    let meta = st.classes[k].metaclass.expect("a metaclass");
    assert_eq!(st.classes[meta].name, "Point3 class");
    assert!(loading.is_empty());
    // Loading again finds the class loaded.
    let classes = st.classes.len();
    assert_eq!(st.load_class(&ds, &s("Point3"), &mut loading, 40), Ok(k));
    assert_eq!(st.classes.len(), classes);
}

#[test]
fn a_missing_definition_or_a_cycle_is_refused() {
    let ds = with(&["A = B ( )", "B = A ( )", "C = Missing ( )"]);
    let mut st = Store::new(registered_primitives());
    assert_eq!(st.load_class(&ds, &s("Nowhere"), &mut vec![], 40), Err(LoadError::NotFound(s("Nowhere"))));
    let mut st = Store::new(registered_primitives());
    assert_eq!(st.load_class(&ds, &s("C"), &mut vec![], 40), Err(LoadError::NotFound(s("Missing"))));
    let mut st = Store::new(registered_primitives());
    assert_eq!(st.load_class(&ds, &s("A"), &mut vec![], 40), Err(LoadError::Malformed(s("A"))));
}

#[test]
fn a_program_runs_and_prints() {
    let ds = with(&["Hello = ( run = ( system printString: 'Hello, world'. system printNewline ) )"]);
    let mut st = Store::new(registered_primitives());
    let r = st.run_program(&ds, &s("Hello"), &vec![s("Hello.som")]);
    assert!(matches!(r, Ok(Value::Object(_))));
    assert_eq!(st.transcript, "Hello, world\n");
}

#[test]
fn run_with_arguments_takes_them_as_an_array_of_strings() {
    let ds = with(&["Echo = ( run: args = ( | n | n := 0. \
         1 to: args length do: [ :i | system printString: (args at: i). n := n + 1 ]. ^ n ) )"]);
    let mut st = Store::new(registered_primitives());
    let r = st.run_program(&ds, &s("Echo"), &vec![s("Echo.som"), s("a"), s("b")]);
    match &r {
        Ok(Value::Integer(t)) => assert_eq!(t, "3"),
        Ok(_) => panic!("a value other than an integer; transcript {:?}", st.transcript),
        Err(e) => panic!("error {:?}; transcript {:?}", e, st.transcript),
    }
    assert_eq!(st.transcript, "Echo.somab");
}

#[test]
fn a_failing_program_reports_why() {
    let ds = with(&["Bad = ( run = ( ^ 1 + 'x' zork: 2 ) )"]);
    let mut st = Store::new(registered_primitives());
    let r = st.run_program(&ds, &s("Nope"), &vec![]);
    assert!(matches!(r, Err(RunError::Load(LoadError::NotFound(ref n))) if n == "Nope"));
}

#[test]
fn a_state_with_a_cycle_of_superclasses_is_not_well_formed() {
    let ds = with(&["Point = Object ( | x | )"]);
    let mut st = Store::new(registered_primitives());
    assert!(st.is_well_formed());
    let k = st.load_class(&ds, &s("Point"), &mut vec![], 40).expect("Point loads");
    assert!(st.is_well_formed());
    st.classes[k].super_class = Some(k);
    assert!(!st.is_well_formed());
}

#[test]
fn the_registered_keys_come_sorted_and_once_each() {
    let keys = registered_primitives();
    assert_eq!(keys.len(), 166);
    assert_eq!(keys[0], "Array class>>new:");
    assert_eq!(keys[165], "True>>not");
    assert!(keys.iter().any(|k| k == "Object>>error:"));
    assert!(keys.iter().any(|k| k == "Method>>invokeOn:with:"));
    for w in keys.windows(2) {
        assert!(w[0] < w[1]);
    }
}

#[test]
fn a_program_without_object_is_refused() {
    let mut st = Store::new(registered_primitives());
    let r = st.run_program(&vec![], &s("Main"), &vec![]);
    assert!(matches!(r, Err(RunError::Load(LoadError::NotFound(ref n))) if n == "Object"));
}

#[test]
fn class_with_unregistered_primitive_fails_to_load() {
    let ds = with(&["UnknownPrimitiveFixture = Object ( fine = ( ^ 1 ) bogusPrimitive = primitive )"]);
    let mut st = Store::new(registered_primitives());
    assert_eq!(
        st.load_class(&ds, &s("UnknownPrimitiveFixture"), &mut vec![], 40),
        Err(LoadError::UnregisteredPrimitive(s("UnknownPrimitiveFixture"), s("bogusPrimitive")))
    );
    let ds = with(&["ClassSide = Object ( ---- make = primitive )"]);
    let mut st = Store::new(registered_primitives());
    assert_eq!(
        st.load_class(&ds, &s("ClassSide"), &mut vec![], 40),
        Err(LoadError::UnregisteredPrimitive(s("ClassSide"), s("make")))
    );
}

#[test]
fn doesnotunderstand_stops_execution_with_an_error_naming_the_selector() {
    let ds = with(&["Main = ( run = ( ^ 3 fooBar ) )"]);
    let mut st = Store::new(registered_primitives());
    let r = st.run_program(&ds, &s("Main"), &vec![]);
    assert!(matches!(r, Err(RunError::Eval(lazysom::eval::EvalError::NotUnderstood(ref n))) if n == "fooBar"));
}

#[test]
fn a_class_whose_superclass_fails_to_load_stays_an_untouched_stub() {
    let ds = with(&["C = Missing ( | x | y = ( ^ 1 ) )"]);
    let mut st = Store::new(registered_primitives());
    assert_eq!(st.load_class(&ds, &s("C"), &mut vec![], 40), Err(LoadError::NotFound(s("Missing"))));
    let k = st.globals.iter().find(|(n, _)| n == "C").map(|(_, v)| match v {
        Value::Class(k) => *k,
        _ => panic!("C is bound to a class"),
    }).expect("C is bound");
    let c = &st.classes[k];
    assert_eq!(c.name, "C");
    assert!(c.metaclass.is_none());
    assert!(c.super_class.is_none());
    assert!(c.instance_fields.is_empty());
    assert!(c.methods.is_empty());
}

#[test]
fn metaclass_is_assembled_once_and_then_found_loaded() {
    let ds = with(&[]);
    let mut st = Store::new(registered_primitives());
    let mut loading = vec![];
    let k = st.load_class(&ds, &s("Metaclass"), &mut loading, 40).expect("Metaclass loads");
    assert!(st.classes[k].super_class.is_some());
    let classes = st.classes.len();
    let methods = st.methods.len();
    assert_eq!(st.load_class(&ds, &s("Metaclass"), &mut loading, 40), Ok(k));
    assert_eq!(st.classes.len(), classes);
    assert_eq!(st.methods.len(), methods);
}

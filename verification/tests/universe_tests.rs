use lazysom::ast::{ClassDef, Signature};
use lazysom::parser::Parser;
use lazysom::universe::{
    all_class_fields, all_instance_fields, callback_call, injected_methods, method_order, method_parameters,
    primitive_key, AsyncResult, CallbackArgument,
};

fn defs(srcs: &[&str]) -> Vec<ClassDef> {
    srcs.iter().map(|s| Parser::new(s).parse_class().expect("class should parse")).collect()
}

fn names(v: &[&str]) -> Vec<String> {
    v.iter().map(|s| s.to_string()).collect()
}

#[test]
fn instance_fields_are_inherited_first() {
    let d = defs(&[
        "Object = nil ( | hash | )",
        "Shape = ( | x y | )",
        "Circle = Shape ( | r | )",
    ]);
    assert_eq!(all_instance_fields(&d, &"Object".to_string()), Some(names(&["hash"])));
    assert_eq!(all_instance_fields(&d, &"Shape".to_string()), Some(names(&["hash", "x", "y"])));
    assert_eq!(all_instance_fields(&d, &"Circle".to_string()), Some(names(&["hash", "x", "y", "r"])));
    assert_eq!(all_instance_fields(&d, &"Missing".to_string()), None);
}

#[test]
fn a_missing_superclass_makes_loading_fail() {
    let d = defs(&["Orphan = Nowhere ( | a | )"]);
    assert_eq!(all_instance_fields(&d, &"Orphan".to_string()), None);
}

#[test]
fn a_cycle_stops_at_the_class_being_loaded() {
    let d = defs(&["A = B ( | a | )", "B = A ( | b | )"]);
    assert_eq!(all_instance_fields(&d, &"A".to_string()), Some(names(&["b", "a"])));
}

#[test]
fn class_fields_end_in_the_fields_of_class() {
    let d = defs(&[
        "Object = nil ( ---- | registry | )",
        "Class = ( | name | )",
        "Shape = ( ---- | count | )",
    ]);
    // Object has no superclass: its metaclass inherits from Class.
    assert_eq!(all_class_fields(&d, &"Object".to_string()), Some(names(&["name", "registry"])));
    assert_eq!(all_class_fields(&d, &"Shape".to_string()), Some(names(&["name", "registry", "count"])));
}

#[test]
fn parameters_and_primitive_keys() {
    let kw = Signature::Keyword(vec![("at:".to_string(), "i".to_string()), ("put:".to_string(), "v".to_string())]);
    assert_eq!(method_parameters(&kw), names(&["i", "v"]));
    assert_eq!(method_parameters(&Signature::Unary("size".to_string())), Vec::<String>::new());
    assert_eq!(method_parameters(&Signature::Binary("+".to_string(), "other".to_string())), names(&["other"]));
    assert_eq!(primitive_key(&"Array".to_string(), &kw), "Array>>at:put:");
    assert_eq!(primitive_key(&"Integer".to_string(), &Signature::Binary("+".to_string(), "x".to_string())), "Integer>>+");
}

#[test]
fn callbacks_of_finished_operations() {
    let c = callback_call(AsyncResult::SuccessNil);
    assert!(!c.on_error);
    assert_eq!(c.selector, "value");
    assert!(matches!(c.argument, CallbackArgument::Nothing));
    let c = callback_call(AsyncResult::SuccessString("data".to_string()));
    assert_eq!(c.selector, "value:");
    assert!(matches!(c.argument, CallbackArgument::Text(ref t) if t == "data"));
    let c = callback_call(AsyncResult::SuccessHandle(9));
    assert!(matches!(c.argument, CallbackArgument::Handle(9)));
    let c = callback_call(AsyncResult::Error("refused".to_string()));
    assert!(c.on_error);
    assert_eq!(c.selector, "value:");
    assert!(matches!(c.argument, CallbackArgument::Text(ref t) if t == "refused"));
}

#[test]
fn the_loader_adds_native_methods_to_some_classes() {
    let object = injected_methods(&"Object".to_string());
    assert_eq!(object.len(), 1);
    assert_eq!(object[0].signature.selector(), "halt");
    assert!(!object[0].listed);
    let system = injected_methods(&"System".to_string());
    assert_eq!(system.len(), 21);
    assert_eq!(system[2].signature.selector(), "serialize:format:");
    assert_eq!(system[20].signature.selector(), "registerGuiClass:");
    let debugger = injected_methods(&"Debugger".to_string());
    assert_eq!(debugger.len(), 4);
    assert!(debugger[1].class_side);
    assert_eq!(debugger[1].signature.selector(), "halt");
    let method = injected_methods(&"Method".to_string());
    assert!(method[0].after_own);
    assert!(injected_methods(&"Integer".to_string()).is_empty());
}

#[test]
fn method_order_puts_added_methods_around_the_class_methods() {
    let d = defs(&[
        "Debugger = ( run = ( ^ self ) ---- make = ( ^ self new ) )",
        "Method = ( signature = ( ^ 1 ) signature = ( ^ 2 ) )",
        "Object = nil ( foo = ( ) )",
    ]);
    assert_eq!(method_order(&d[0], false), names(&["resume", "stepInto", "currentFrames", "run"]));
    assert_eq!(method_order(&d[0], true), names(&["halt", "make"]));
    assert_eq!(method_order(&d[1], false), names(&["signature", "signature", "source"]));
    // Object's halt is added without being listed.
    assert_eq!(method_order(&d[2], false), names(&["foo"]));
}

use lazysom::ast::{ClassDef, MethodDef};
use lazysom::bytecode::{Constant, Opcode};
use lazysom::compiler::{canonical_integer_text, compile_image, method_compilable, Compiler};
use lazysom::parser::Parser;

fn class(src: &str) -> ClassDef {
    Parser::new(src).parse_class().expect("class should parse")
}

fn method(src: &str) -> MethodDef {
    let c = class(&format!("T = ( {} )", src));
    c.instance_methods.into_iter().next().expect("one method")
}

fn symbol(c: &Constant) -> String {
    match c {
        Constant::Symbol(s) => s.clone(),
        other => panic!("expected a symbol, got {:?}", other),
    }
}

#[test]
fn compiles_a_return_of_a_constant() {
    let m = method("answer = ( ^ 42 )");
    let cm = Compiler::new().compile_method(&m, &vec![]);
    assert_eq!(cm.name, "answer");
    assert_eq!(cm.signature, "answer");
    assert!(!cm.is_primitive);
    assert_eq!(cm.bytecodes, vec![Opcode::PushConstant(0), Opcode::ReturnNonLocal, Opcode::Pop, Opcode::PushSelf(0), Opcode::ReturnLocal]);
    assert!(matches!(cm.constants[0], Constant::Integer(ref t) if t == "42"));
    assert_eq!(cm.num_args, 0);
    assert_eq!(cm.num_locals, 0);
}

#[test]
fn locals_arguments_fields_and_sends() {
    let m = method("bar: x = ( | t | t := x + count. ^ t )");
    let fields = vec!["count".to_string()];
    assert!(method_compilable(&m, &fields));
    let cm = Compiler::new().compile_method(&m, &fields);
    assert_eq!(
        cm.bytecodes,
        vec![
            Opcode::PushArgument(0, 0),
            Opcode::PushField(0),
            Opcode::Send(1),
            Opcode::Dup,
            Opcode::PopLocal(0, 0),
            Opcode::Pop,
            Opcode::PushLocal(0, 0),
            Opcode::ReturnNonLocal,
            Opcode::Pop,
            Opcode::PushSelf(0),
            Opcode::ReturnLocal,
        ]
    );
    assert_eq!(symbol(&cm.constants[0]), "count");
    assert_eq!(symbol(&cm.constants[1]), "+");
    assert_eq!(cm.num_args, 1);
    assert_eq!(cm.num_locals, 1);
}

#[test]
fn an_unknown_name_is_a_global_and_constants_are_shared() {
    let m = method("go = ( Transcript show: 'a'. Transcript show: 'a' )");
    let cm = Compiler::new().compile_method(&m, &vec![]);
    assert_eq!(
        cm.bytecodes,
        vec![
            Opcode::PushGlobal(0),
            Opcode::PushConstant(1),
            Opcode::Send(2),
            Opcode::Pop,
            Opcode::PushGlobal(0),
            Opcode::PushConstant(1),
            Opcode::Send(2),
            Opcode::Pop,
            Opcode::PushSelf(0),
            Opcode::ReturnLocal,
        ]
    );
    assert_eq!(cm.constants.len(), 3);
    assert_eq!(symbol(&cm.constants[2]), "show:");
}

#[test]
fn integer_constants_are_canonical() {
    let m = method("z = ( ^ 007 )");
    let cm = Compiler::new().compile_method(&m, &vec![]);
    assert!(matches!(cm.constants[0], Constant::Integer(ref t) if t == "7"));
    assert_eq!(canonical_integer_text(&"-000".to_string()), "0");
    assert_eq!(canonical_integer_text(&"-0012".to_string()), "-12");
    assert_eq!(canonical_integer_text(&"0".to_string()), "0");
}

#[test]
fn special_names_self_super_and_blocks() {
    let m = method("run = ( ^ [ :x | self foo: x ] )");
    let cm = Compiler::new().compile_method(&m, &vec![]);
    assert_eq!(cm.bytecodes, vec![Opcode::PushBlock(0), Opcode::ReturnNonLocal, Opcode::Pop, Opcode::PushSelf(0), Opcode::ReturnLocal]);
    assert_eq!(cm.blocks.len(), 1);
    let b = &cm.blocks[0];
    assert_eq!(b.num_args, 1);
    assert_eq!(
        b.bytecodes,
        vec![Opcode::PushSelf(1), Opcode::PushArgument(0, 0), Opcode::Send(0), Opcode::ReturnLocal]
    );
    let s = method("up = ( ^ super up )");
    let cs = Compiler::new().compile_method(&s, &vec![]);
    assert_eq!(cs.bytecodes, vec![Opcode::PushSelf(0), Opcode::SuperSend(0), Opcode::ReturnNonLocal, Opcode::Pop, Opcode::PushSelf(0), Opcode::ReturnLocal]);
    let e = method("empty = ( )");
    let ce = Compiler::new().compile_method(&e, &vec![]);
    assert_eq!(ce.bytecodes, vec![Opcode::PushSelf(0), Opcode::ReturnLocal]);
    let eb = method("eb = ( ^ [ ] )");
    let ceb = Compiler::new().compile_method(&eb, &vec![]);
    assert_eq!(ceb.blocks[0].bytecodes, vec![Opcode::PushNil, Opcode::ReturnLocal]);
    let k = method("k = ( ^ nil isNil ifTrue: [ true ] ifFalse: [ false ] )");
    let ck = Compiler::new().compile_method(&k, &vec![]);
    assert_eq!(ck.bytecodes[0], Opcode::PushNil);
    assert_eq!(ck.blocks[0].bytecodes, vec![Opcode::PushTrue, Opcode::ReturnLocal]);
    assert_eq!(ck.blocks[1].bytecodes, vec![Opcode::PushFalse, Opcode::ReturnLocal]);
}

#[test]
fn primitive_methods_return_the_receiver() {
    let m = method("at: i = primitive");
    let cm = Compiler::new().compile_method(&m, &vec![]);
    assert!(cm.is_primitive);
    assert_eq!(cm.bytecodes, vec![Opcode::PushSelf(0), Opcode::ReturnLocal]);
    assert_eq!(cm.num_args, 1);
}

#[test]
fn methods_that_cannot_be_compiled_are_recognized() {
    assert!(!method_compilable(&method("bad = ( unknown := 3 )"), &vec![]));
    assert!(method_compilable(&method("ok = ( known := 3 )"), &vec!["known".to_string()]));
    assert!(!method_compilable(&method("nested = ( ^ #(1 #(2)) )"), &vec![]));
    assert!(method_compilable(&method("flat = ( ^ #(1 #two 'three') )"), &vec![]));
}

#[test]
fn a_class_keeps_one_method_per_selector() {
    let c = class("Dup = ( a = ( ^ 1 ) b = ( ^ 2 ) a = ( ^ 3 ) ---- new = ( ^ self ) )");
    let mut compiler = Compiler::new();
    let cc = compiler.compile_class(&c, &vec![], &vec![]);
    assert_eq!(cc.name, "Dup");
    assert_eq!(cc.instance_methods.len(), 2);
    assert_eq!(cc.instance_methods[0].signature, "a");
    assert_eq!(cc.instance_methods[1].signature, "b");
    // The later definition of `a` replaces the earlier one.
    assert!(matches!(cc.instance_methods[0].constants[0], Constant::Integer(ref t) if t == "3"));
    assert_eq!(cc.class_methods.len(), 1);
    let bad = class("Bad = ( x = ( y := 1 ) )");
    assert!(compiler.compile_class_checked(&bad, &vec![], &vec![]).is_none());
    assert!(compiler.compile_class_checked(&c, &vec![], &vec![]).is_some());
}

#[test]
fn an_image_holds_the_first_loadable_definition_of_each_class() {
    let defs = vec![
        class("Object = nil ( | a | )"),
        class("Class = ( )"),
        class("Point = Object ( | x y | getX = ( ^ x ) )"),
        class("Point = ( other = ( ^ 1 ) )"),
        class("Orphan = Missing ( )"),
    ];
    let image = compile_image(&defs).expect("every loadable class compiles");
    let names: Vec<&str> = image.classes.iter().map(|c| c.name.as_str()).collect();
    assert_eq!(names, vec!["Object", "Class", "Point"]);
    let point = &image.classes[2];
    assert_eq!(point.instance_fields, vec!["a".to_string(), "x".to_string(), "y".to_string()]);
    assert_eq!(point.instance_methods.len(), 1);
    assert_eq!(point.instance_methods[0].signature, "getX");
    // A field is pushed by the constant that holds its name.
    assert_eq!(point.instance_methods[0].bytecodes[0], Opcode::PushField(0));
    assert_eq!(symbol(&point.instance_methods[0].constants[0]), "x");
}

#[test]
fn an_image_is_refused_for_the_first_class_that_cannot_be_compiled() {
    let defs = vec![
        class("Object = nil ( )"),
        class("Class = ( )"),
        class("Good = ( ok = ( ^ 1 ) )"),
        class("Bad = ( x = ( y := 1 ) )"),
        class("Worse = ( z = ( w := 1 ) )"),
    ];
    assert_eq!(compile_image(&defs).err(), Some("Bad".to_string()));
    assert!(compile_image(&vec![]).expect("nothing to compile").classes.is_empty());
}

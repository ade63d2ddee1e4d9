use lazysom::ast::{ClassDef, Expression};
use lazysom::eval::EvalError;
use lazysom::object::{HeapCell, Value};
use lazysom::parser::Parser;
use lazysom::runtime::{Activation, Outcome, RtClass, Store};

fn s(t: &str) -> String {
    t.to_string()
}

fn class_def(src: &str) -> ClassDef {
    Parser::new(src).parse_class().expect("class should parse")
}

fn expression(src: &str) -> Expression {
    Parser::new(src).parse_expression().expect("expression should parse")
}

fn stub(st: &mut Store, name: &str) -> usize {
    st.classes.push(RtClass {
        name: s(name),
        metaclass: None,
        super_class: None,
        instance_fields: vec![],
        fields: vec![],
        methods: vec![],
        method_order: vec![],
    });
    let k = st.classes.len() - 1;
    st.globals.push((s(name), Value::Class(k)));
    k
}

const PRIMITIVES: &[&str] = &[
    "Class>>new",
    "Class>>name",
    "System>>printString:",
    "System>>printNewline",
    "System>>global:",
    "System>>exit:",
    "System>>load:",
    "System>>classNames",
    "System>>defineClass:",
    "Object>>halt",
    "System>>global:put:",
    "String>>concatenate:",
    "String>>length",
    "Array>>at:",
    "Array>>at:put:",
    "Array>>length",
    "Array class>>new:",
    "Object>>class",
    "Object>>==",
    "Integer>>asString",
    "Integer>>>>",
    "Integer>>+",
    "Integer>>-",
    "Integer>>*",
    "Integer>><",
    "Integer>>/",
    "Integer>>to:do:",
    "Integer>>downTo:do:",
    "True>>ifTrue:",
    "False>>ifTrue:",
    "Boolean>>ifTrue:ifFalse:",
    "Block>>whileTrue:",
    "Block>>value",
    "Object>>perform:",
    "Object>>perform:inSuperclass:",
    "Object>>perform:withArguments:inSuperclass:",
    "Object>>error:",
    "System>>errorPrint:",
    "System>>errorPrintln:",
    "System>>printStackTrace",
    "Object>>inspect",
    "Object>>instVarNamed:",
    "Method>>invokeOn:with:",
    "Primitive>>invokeOn:with:",
];

/// A small world: Object, Class, Integer, Boolean, True, False, Nil, Block,
/// and an activation at the top whose receiver is nil.
fn world(extra: &[&str]) -> Store {
    let mut st = Store::new(PRIMITIVES.iter().map(|k| s(k)).collect());
    let object = stub(&mut st, "Object");
    let class = stub(&mut st, "Class");
    st.assemble_class_into(
        class_def(
            "Object = nil ( yourself = ( ^ self ) \
             doesNotUnderstand: sel arguments: args = ( ^ sel ) \
             unknownGlobal: name = ( ^ name ) \
             perform: sel = primitive \
             perform: sel inSuperclass: cls = primitive \
             perform: sel withArguments: args inSuperclass: cls = primitive \
             error: msg = ( ^ self ) inspect = primitive instVarNamed: n = primitive \
             class = primitive == other = primitive halt = primitive )",
        ),
        object,
        None,
        class,
        0,
    );
    st.assemble_class_into(class_def("Class = Object ( new = primitive name = primitive )"), class, Some(object), class, 0);
    let defs = [
        "Integer = Object ( + o = primitive - o = primitive * o = primitive < o = primitive / o = primitive \
         to: l do: b = primitive downTo: l do: b = primitive \
         double = ( ^ self + self ) \
         countTo: n = ( | i | i := self. [ i < n ] whileTrue: [ i := i + 1 ]. ^ i ) \
         sumTo: n = ( | t | t := 0. self to: n do: [ :k | t := t + k ]. ^ t ) \
         firstOver: n = ( 1 to: 10 do: [ :k | n < k ifTrue: [ ^ k ] ]. ^ 0 ) \
         forever = ( ^ self forever ) \
         describe = ( ^ #integer ) \
         asString = primitive >> o = primitive \
         arrayTest = ( | a | a := Array new: 3. a at: 2 put: self. ^ a at: 2 ) )",
        "Boolean = Object ( ifTrue: a ifFalse: b = primitive )",
        "True = Boolean ( ifTrue: b = primitive )",
        "False = Boolean ( ifTrue: b = primitive )",
        "Nil = Object ( )",
        "Block = Object ( whileTrue: b = primitive value = primitive )",
        "Symbol = Object ( )",
        "System = Object ( printString: s = primitive printNewline = primitive \
         global: n = primitive global: n put: v = primitive exit: c = primitive load: n = primitive classNames = primitive defineClass: src = primitive \
         errorPrint: s = primitive errorPrintln: s = primitive printStackTrace = primitive )",
        "Point = Object ( | x | clobber = ( System new global: #Point put: 3. ^ 1 ) x: v = ( x := v ) x = ( ^ x ) \
         describe = ( ^ #point ) )",
        "Point3 = Point ( describe = ( ^ #point3 ) plus: a and: b = ( ^ a + b ) )",
        "Method = Object ( invokeOn: r with: a = primitive )",
        "Primitive = Object ( invokeOn: r with: a = primitive )",
        "String = Object ( concatenate: o = primitive length = primitive )",
        "Array = Object ( at: i = primitive at: i put: v = primitive length = primitive ---- new: n = primitive )",
    ];
    for d in defs.iter().chain(extra.iter()) {
        let def = class_def(d);
        let name = def.name.clone();
        let sup = def.super_class.clone().unwrap_or(s("Object"));
        let k = stub(&mut st, &name);
        let sk = st.globals.iter().find(|(n, _)| *n == sup).map(|(_, v)| match v {
            Value::Class(j) => *j,
            _ => panic!("superclass is a class"),
        });
        st.assemble_class_into(def, k, sk, class, 0);
    }
    st.activations.push(Activation {
        holder: Some(object),
        self_val: Value::Nil,
        args: vec![],
        locals: vec![],
        parent: None,
        is_active: true,
    });
    st
}

fn run(st: &mut Store, src: &str) -> Result<Outcome, EvalError> {
    let e = expression(src);
    st.evaluate_expression(&e, 0, 0)
}

fn integer_of(r: Result<Outcome, EvalError>) -> String {
    match r {
        Ok(Outcome::Value(Value::Integer(t))) => t,
        Ok(Outcome::Value(_)) => panic!("expected an integer"),
        Ok(_) => panic!("expected a value"),
        Err(e) => panic!("evaluation failed: {:?}", e),
    }
}

#[test]
fn arithmetic_runs_the_integer_primitives() {
    let mut st = world(&[]);
    assert_eq!(integer_of(run(&mut st, "3 + 4")), "7");
    assert_eq!(integer_of(run(&mut st, "3 + 4 * 2")), "14");
    assert_eq!(integer_of(run(&mut st, "100000000000000000000 * 3")), "300000000000000000000");
    assert!(matches!(run(&mut st, "1 / 0"), Err(EvalError::Arithmetic(_))));
}

#[test]
fn methods_run_with_their_receiver_and_arguments() {
    let mut st = world(&[]);
    assert_eq!(integer_of(run(&mut st, "21 double")), "42");
    assert_eq!(integer_of(run(&mut st, "0 countTo: 5")), "5");
    assert_eq!(integer_of(run(&mut st, "1 sumTo: 4")), "10");
    // A method without a return answers its receiver.
    assert!(matches!(run(&mut st, "nil yourself"), Ok(Outcome::Value(Value::Nil))));
}

#[test]
fn a_return_inside_a_block_leaves_the_method() {
    let mut st = world(&[]);
    assert_eq!(integer_of(run(&mut st, "0 firstOver: 3")), "4");
    assert_eq!(integer_of(run(&mut st, "0 firstOver: 20")), "0");
}

#[test]
fn blocks_take_arguments_and_see_their_context() {
    let mut st = world(&[]);
    assert_eq!(integer_of(run(&mut st, "[ :x | x + 1 ] value: 41")), "42");
    assert_eq!(integer_of(run(&mut st, "[ 5 ] value")), "5");
    assert!(matches!(run(&mut st, "[ :x | x ]"), Ok(Outcome::Value(Value::Block(_)))));
}

#[test]
fn unknown_messages_stop_with_an_error_and_unknown_names_reach_their_handler() {
    let mut st = world(&[]);
    match run(&mut st, "3 frobnicate") {
        Err(e) => {
            assert_eq!(e, EvalError::NotUnderstood(s("frobnicate")));
            assert!(e.message().contains("frobnicate"));
        },
        Ok(_) => panic!("a message that is not understood must not answer"),
    }
    match run(&mut st, "Undefined") {
        Ok(Outcome::Value(Value::Symbol(t))) => assert_eq!(t, "Undefined"),
        _ => panic!("expected the name back"),
    }
}

#[test]
fn perform_sends_a_message_by_name() {
    let mut st = world(&[]);
    assert_eq!(integer_of(run(&mut st, "21 perform: #double")), "42");
    match run(&mut st, "3 perform: #describe inSuperclass: Integer") {
        Ok(Outcome::Value(Value::Symbol(t))) => assert_eq!(t, "integer"),
        _ => panic!("expected the method of the class given"),
    }
}

#[test]
fn literals_become_values() {
    let mut st = world(&[]);
    match run(&mut st, "'hello'") {
        Ok(Outcome::Value(Value::String(c))) => assert!(matches!(&st.heap.cells[c], HeapCell::Str(t) if t == "hello")),
        _ => panic!("expected a string"),
    }
    match run(&mut st, "#(1 #two 'three')") {
        Ok(Outcome::Value(Value::Array(c))) => match &st.heap.cells[c] {
            HeapCell::Array(v) => {
                assert_eq!(v.len(), 3);
                assert!(matches!(&v[0], Value::Integer(t) if t == "1"));
                assert!(matches!(&v[1], Value::Symbol(t) if t == "two"));
                assert!(matches!(&v[2], Value::String(_)));
            },
            _ => panic!("expected an array cell"),
        },
        _ => panic!("expected an array"),
    }
    assert!(matches!(run(&mut st, "1.5"), Err(EvalError::Unavailable(_))));
}

#[test]
fn endless_recursion_stops_at_the_depth_limit() {
    let mut st = world(&[]);
    assert!(matches!(run(&mut st, "1 forever"), Err(EvalError::SendLimit)));
}

#[test]
fn assignment_to_an_unknown_name_is_refused() {
    let mut st = world(&[]);
    assert!(matches!(run(&mut st, "x := 3"), Err(EvalError::CannotAssign(n)) if n == "x"));
}

#[test]
fn printing_goes_to_the_transcript() {
    let mut st = world(&[]);
    assert!(run(&mut st, "System new printString: 'Hello, '").is_ok());
    assert!(run(&mut st, "System new printString: #world").is_ok());
    assert!(run(&mut st, "System new printNewline").is_ok());
    assert!(run(&mut st, "System new printString: 42").is_ok());
    assert_eq!(st.transcript, "Hello, world\n");
}

#[test]
fn strings_arrays_and_classes_answer_their_primitives() {
    let mut st = world(&[]);
    assert_eq!(integer_of(run(&mut st, "('abc' concatenate: 'def') length")), "6");
    assert_eq!(integer_of(run(&mut st, "5 arrayTest")), "5");
    assert_eq!(integer_of(run(&mut st, "(Array new: 4) length")), "4");
    match run(&mut st, "(Array new: 3) at: 10") {
        Err(e) => {
            assert_eq!(e, EvalError::IndexOutOfBounds(s("10"), 3));
            assert!(e.message().contains("10"));
        },
        Ok(_) => panic!("an index outside the array must be an error"),
    }
    assert_eq!(run(&mut st, "(Array new: 2) at: 0 put: 1").err(), Some(EvalError::IndexOutOfBounds(s("0"), 2)));
    assert_eq!(run(&mut st, "Array new: -1").err(), Some(EvalError::NegativeSize));
    assert!(matches!(run(&mut st, "3 class == Integer"), Ok(Outcome::Value(Value::Boolean(true)))));
    assert!(matches!(run(&mut st, "3 class == Nil"), Ok(Outcome::Value(Value::Boolean(false)))));
    match run(&mut st, "42 asString") {
        Ok(Outcome::Value(Value::String(c))) => assert!(matches!(&st.heap.cells[c], HeapCell::Str(t) if t == "42")),
        _ => panic!("expected a string"),
    }
}

#[test]
fn globals_are_bound_unless_a_running_receiver_would_lose_its_class() {
    let mut st = world(&[]);
    assert_eq!(integer_of(run(&mut st, "System new global: #Answer put: 42")), "42");
    assert_eq!(integer_of(run(&mut st, "Answer")), "42");
    assert_eq!(integer_of(run(&mut st, "System new global: #Answer")), "42");
    let globals = st.globals.len();
    assert!(matches!(run(&mut st, "Point new clobber"), Err(EvalError::BadReference)));
    assert_eq!(st.globals.len(), globals);
    assert!(matches!(run(&mut st, "Point new"), Ok(Outcome::Value(Value::Object(_)))));
}

#[test]
fn a_shift_by_a_whole_word_is_refused() {
    let mut st = world(&[]);
    assert_eq!(integer_of(run(&mut st, "256 >> 4")), "16");
    assert!(matches!(run(&mut st, "256 >> 64"), Err(EvalError::ShiftOverflow)));
}

#[test]
fn exit_ends_the_program_with_its_code() {
    let mut st = world(&[]);
    assert!(matches!(run(&mut st, "System new exit: 3"), Err(EvalError::Exit(3))));
    assert!(matches!(run(&mut st, "System new exit: nil"), Ok(Outcome::Value(Value::Nil))));
}

#[test]
fn load_answers_a_loaded_class() {
    let mut st = world(&[]);
    assert!(matches!(run(&mut st, "(System new load: #Point) == Point"), Ok(Outcome::Value(Value::Boolean(true)))));
    assert!(matches!(run(&mut st, "System new load: #Nowhere"), Ok(Outcome::Value(Value::Nil))));
}

#[test]
fn class_names_are_listed_in_order() {
    let mut st = world(&[]);
    match run(&mut st, "System new classNames") {
        Ok(Outcome::Value(Value::Array(c))) => match &st.heap.cells[c] {
            HeapCell::Array(v) => {
                let names: Vec<String> = v
                    .iter()
                    .map(|x| match x {
                        Value::Symbol(t) => t.clone(),
                        _ => panic!("expected symbols"),
                    })
                    .collect();
                assert!(names.contains(&s("Point")) && names.contains(&s("Integer")));
                let mut sorted = names.clone();
                sorted.sort();
                assert_eq!(names, sorted);
            },
            _ => panic!("expected an array cell"),
        },
        _ => panic!("expected an array"),
    }
    assert!(matches!(run(&mut st, "3 halt"), Ok(Outcome::Value(Value::Nil))));
}

fn string_of(st: &Store, r: Result<Outcome, EvalError>) -> String {
    match r {
        Ok(Outcome::Value(Value::String(c))) => match &st.heap.cells[c] {
            HeapCell::Str(t) => t.clone(),
            _ => panic!("expected a string cell"),
        },
        _ => panic!("expected a string"),
    }
}

#[test]
fn classes_can_be_defined_while_running() {
    let mut st = world(&[]);
    let r = run(&mut st, "System new defineClass: 'Pair = Object ( | a b | first = ( ^ a ) setA: x = ( a := x ) )'");
    assert!(matches!(r, Ok(Outcome::Value(Value::Class(_)))));
    assert_eq!(integer_of(run(&mut st, "(Pair new setA: 5) first")), "5");
    // A definition that would make a class its own superclass is refused, and nothing changes.
    let classes = st.classes.len();
    assert!(matches!(run(&mut st, "System new defineClass: 'Object = Pair ( )'"), Err(EvalError::IllFormedClass(n)) if n == "Object"));
    assert_eq!(st.classes.len(), classes);
    assert_eq!(integer_of(run(&mut st, "21 double")), "42");
    let r = run(&mut st, "System new defineClass: 'Q = Nowhere ( )'");
    assert_eq!(string_of(&st, r), "Error assembling class: Class Nowhere not found in classpath");
    let r = run(&mut st, "System new defineClass: 'Q Nowhere ( )'");
    assert_eq!(string_of(&st, r), "Error parsing class: Expected Equal, got Identifier");
}

#[test]
fn object_error_returns_an_err_instead_of_exiting_the_process() {
    let mut st = world(&[]);
    match run(&mut st, "3 error: 'boom'") {
        Err(e) => {
            assert_eq!(e, EvalError::Raised(s("boom")));
            assert!(e.message().contains("boom"));
        },
        Ok(_) => panic!("error: must stop the run"),
    }
}

#[test]
fn object_inspect_returns_receiver_without_panicking() {
    let mut st = world(&[]);
    assert_eq!(integer_of(run(&mut st, "7 inspect")), "7");
    match run(&mut st, "[ | p | p := Point new. p x: 5. (p inspect) x ] value") {
        Ok(Outcome::Value(Value::Integer(t))) => assert_eq!(t, "5"),
        other => panic!("expected the same object back, got {:?}", other.is_ok()),
    }
}

#[test]
fn object_inst_var_named_reads_a_field_by_name() {
    let mut st = world(&[]);
    match run(&mut st, "[ | p | p := Point new. p x: 42. p instVarNamed: #x ] value") {
        Ok(Outcome::Value(Value::Integer(t))) => assert_eq!(t, "42"),
        other => panic!("expected the field, got ok = {:?}", other.is_ok()),
    }
    assert_eq!(
        run(&mut st, "[ | p | p := Point new. p instVarNamed: #nope ] value").err(),
        Some(EvalError::NotFound(s("nope")))
    );
}

#[test]
fn object_perform_with_arguments_in_superclass_dispatches_to_the_superclass_method() {
    let mut st = world(&[]);
    match run(&mut st, "Point3 new describe") {
        Ok(Outcome::Value(Value::Symbol(t))) => assert_eq!(t, "point3"),
        _ => panic!("expected the overriding method"),
    }
    match run(&mut st, "Point3 new perform: #describe withArguments: #() inSuperclass: Point") {
        Ok(Outcome::Value(Value::Symbol(t))) => assert_eq!(t, "point"),
        _ => panic!("expected the method of the class given"),
    }
    assert_eq!(
        integer_of(run(&mut st, "Point3 new perform: #plus:and: withArguments: #(3 4) inSuperclass: Point3")),
        "7"
    );
}

#[test]
fn method_invoke_on_with_runs_a_user_method_on_another_receiver() {
    let mut st = world(&[]);
    let point = st.globals.iter().find(|(n, _)| n == "Point").map(|(_, v)| v.copy()).expect("Point is bound");
    let getter = match point {
        Value::Class(k) => st.classes[k].methods.iter().find(|(n, _)| n == "x").map(|(_, m)| *m).expect("Point>>x"),
        _ => panic!("Point is a class"),
    };
    let obj = match run(&mut st, "[ | p | p := Point new. p x: 99. p ] value") {
        Ok(Outcome::Value(v)) => v,
        _ => panic!("expected an object"),
    };
    let empty = st.heap.cells.len();
    st.heap.cells.push(HeapCell::Array(vec![]));
    let r = st.dispatch_limited(Value::Method(getter), &s("invokeOn:with:"), vec![obj, Value::Array(empty)], 100);
    assert_eq!(integer_of(r), "99");
}

#[test]
fn primitive_invoke_on_with_runs_a_native_primitive_on_another_receiver() {
    let mut st = world(&[]);
    let integer = st.globals.iter().find(|(n, _)| n == "Integer").map(|(_, v)| v.copy()).expect("Integer is bound");
    let plus = match integer {
        Value::Class(k) => st.classes[k].methods.iter().find(|(n, _)| n == "+").map(|(_, m)| *m).expect("Integer>>+"),
        _ => panic!("Integer is a class"),
    };
    let four = st.heap.cells.len();
    st.heap.cells.push(HeapCell::Array(vec![Value::Integer(s("4"))]));
    let r = st.dispatch_limited(Value::Method(plus), &s("invokeOn:with:"), vec![Value::Integer(s("3")), Value::Array(four)], 100);
    assert_eq!(integer_of(r), "7");
}

#[test]
fn recursion_limit_produces_clean_error_not_a_stack_overflow() {
    let mut st = world(&[]);
    let r = st.dispatch_limited(Value::Integer(s("1")), &s("forever"), vec![], 100);
    match r {
        Err(e) => {
            assert_eq!(e, EvalError::SendLimit);
            assert!(e.message().contains("Stack overflow"));
        },
        Ok(_) => panic!("endless recursion must stop with an error"),
    }
    assert_eq!(st.dispatch_limited(Value::Integer(s("1")), &s("forever"), vec![], 0).err(), Some(EvalError::SendLimit));
}

#[test]
fn integer_literals_evaluate_to_their_decimal_form() {
    let mut st = world(&[]);
    assert_eq!(integer_of(run(&mut st, "007")), "7");
    assert_eq!(integer_of(run(&mut st, "-0")), "0");
    assert_eq!(integer_of(run(&mut st, "-012")), "-12");
}

#[test]
fn system_error_print_and_println_and_stack_trace_do_not_panic() {
    let mut st = world(&[]);
    assert!(matches!(run(&mut st, "System new errorPrint: 'hi'"), Ok(Outcome::Value(Value::Nil))));
    assert!(matches!(run(&mut st, "System new errorPrintln: 'hi'"), Ok(Outcome::Value(Value::Nil))));
    assert!(matches!(run(&mut st, "System new printStackTrace"), Ok(Outcome::Value(Value::Nil))));
    assert!(st.errors.starts_with("hihi\n"));
    assert!(st.errors.contains("at Object\n"));
    assert_eq!(st.transcript, "");
}

#[test]
fn a_method_answers_what_it_returns_or_else_its_receiver() {
    let mut st = world(&["Answer = Object ( answer = ( ^ 42 ) greeting = ( ^ 'hi' ) nothing = ( ) )"]);
    assert_eq!(integer_of(run(&mut st, "Answer new answer")), "42");
    match run(&mut st, "Answer new greeting") {
        Ok(Outcome::Value(Value::String(c))) => assert!(matches!(&st.heap.cells[c], HeapCell::Str(t) if t == "hi")),
        _ => panic!("expected the string returned"),
    }
    assert!(matches!(run(&mut st, "Answer new nothing"), Ok(Outcome::Value(Value::Object(_)))));
    assert_eq!(integer_of(run(&mut st, "7 yourself")), "7");
}

#[test]
fn an_unbound_variable_is_sent_to_unknown_global_with_its_name() {
    let mut st = world(&[]);
    assert!(matches!(run(&mut st, "undefinedThing"), Ok(Outcome::Value(Value::Symbol(n))) if n == "undefinedThing"));
}

#[test]
fn an_assignment_writes_the_slot_and_answers_the_value() {
    let mut st = world(&[]);
    assert_eq!(integer_of(run(&mut st, "[ | x | x := 5. x + 1 ] value")), "6");
    assert_eq!(integer_of(run(&mut st, "[ | x y | x := y := 4. x + y ] value")), "8");
    assert!(matches!(run(&mut st, "[ nowhere := 1 ] value"), Err(EvalError::CannotAssign(n)) if n == "nowhere"));
}

#[test]
fn keyword_arguments_are_passed_left_to_right() {
    let mut st = world(&[]);
    assert_eq!(integer_of(run(&mut st, "Point3 new plus: 2 and: 40")), "42");
    assert_eq!(integer_of(run(&mut st, "Point3 new plus: 2 - 5 and: 10")), "7");
}

#[test]
fn an_error_in_an_argument_stops_the_send() {
    let mut st = world(&[]);
    assert!(matches!(run(&mut st, "Point3 new plus: 1 / 0 and: 10"), Err(EvalError::Arithmetic(_))));
}

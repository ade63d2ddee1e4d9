use lazysom::ast::{Expression, Literal, Message, MethodBody, Signature};
use lazysom::grammar::ParseError;
use lazysom::lexer::Token;
use lazysom::parser::Parser;

fn expr(src: &str) -> Expression {
    Parser::new(src).parse_expression().expect("expression should parse")
}

fn expr_err(src: &str) -> ParseError {
    match Parser::new(src).parse_expression() {
        Ok(e) => panic!("expected an error, got {:?}", e),
        Err(e) => e,
    }
}

#[test]
fn parses_a_class_with_fields_methods_and_a_class_side() {
    let src = "Counter = Object (
        | count step |
        increment = ( count := count + step. ^ self )
        + other = ( ^ count + other )
        at: i put: v = primitive
        ----
        | instances |
        new = ( ^ super new )
    )";
    let class = Parser::new(src).parse_class().expect("class should parse");
    assert_eq!(class.name, "Counter");
    assert_eq!(class.super_class, Some("Object".to_string()));
    assert_eq!(class.instance_fields, vec!["count".to_string(), "step".to_string()]);
    assert_eq!(class.instance_methods.len(), 3);
    assert_eq!(class.class_fields, vec!["instances".to_string()]);
    assert_eq!(class.class_methods.len(), 1);

    assert_eq!(class.instance_methods[0].signature.selector(), "increment");
    assert_eq!(class.instance_methods[1].signature.selector(), "+");
    assert_eq!(class.instance_methods[2].signature.selector(), "at:put:");
    match &class.instance_methods[2].signature {
        Signature::Keyword(parts) => {
            assert_eq!(parts[0], ("at:".to_string(), "i".to_string()));
            assert_eq!(parts[1], ("put:".to_string(), "v".to_string()));
        }
        other => panic!("expected a keyword pattern, got {:?}", other),
    }
    assert!(matches!(class.instance_methods[2].body, MethodBody::Primitive));
    match &class.instance_methods[0].body {
        MethodBody::Block(b) => {
            assert_eq!(b.body.len(), 2);
            assert!(matches!(b.body[1], Expression::Return(_)));
        }
        MethodBody::Primitive => panic!("expected a method body"),
    }
}

#[test]
fn a_class_without_superclass_or_class_side() {
    let class = Parser::new("Empty = ( )").parse_class().expect("class should parse");
    assert_eq!(class.name, "Empty");
    assert_eq!(class.super_class, None);
    assert!(class.instance_fields.is_empty());
    assert!(class.instance_methods.is_empty());
    assert!(class.class_methods.is_empty());
}

#[test]
fn binary_messages_bind_left_to_right_after_unary_ones() {
    // 3 + 4 factorial * 2  ==  (3 + (4 factorial)) * 2
    match expr("3 + 4 factorial * 2") {
        Expression::Message(recv, Message::Binary(op, arg)) => {
            assert_eq!(op, "*");
            assert!(matches!(*arg, Expression::Literal(Literal::Integer(ref t)) if t == "2"));
            match *recv {
                Expression::Message(inner, Message::Binary(op2, arg2)) => {
                    assert_eq!(op2, "+");
                    assert!(matches!(*inner, Expression::Literal(Literal::Integer(ref t)) if t == "3"));
                    match *arg2 {
                        Expression::Message(_, Message::Unary(name)) => assert_eq!(name, "factorial"),
                        other => panic!("expected a unary message, got {:?}", other),
                    }
                }
                other => panic!("expected a binary message, got {:?}", other),
            }
        }
        other => panic!("expected a binary message, got {:?}", other),
    }
}

#[test]
fn keyword_message_arguments_take_binary_messages() {
    match expr("a at: 1 + 2 put: b foo") {
        Expression::Message(recv, Message::Keyword(parts)) => {
            assert!(matches!(*recv, Expression::Variable(ref n) if n == "a"));
            assert_eq!(parts.len(), 2);
            assert_eq!(parts[0].0, "at:");
            assert!(matches!(*parts[0].1, Expression::Message(_, Message::Binary(_, _))));
            assert_eq!(parts[1].0, "put:");
            assert!(matches!(*parts[1].1, Expression::Message(_, Message::Unary(_))));
        }
        other => panic!("expected a keyword message, got {:?}", other),
    }
}

#[test]
fn assignment_parenthesis_and_blocks() {
    match expr("x := (y)") {
        Expression::Assignment(n, v) => {
            assert_eq!(n, "x");
            assert!(matches!(*v, Expression::Variable(ref m) if m == "y"));
        }
        other => panic!("expected an assignment, got {:?}", other),
    }
    match expr("[ :a :b | | t | t := a. ^ b ]") {
        Expression::Block(b) => {
            assert_eq!(b.parameters, vec!["a".to_string(), "b".to_string()]);
            assert_eq!(b.locals, vec!["t".to_string()]);
            assert_eq!(b.body.len(), 2);
        }
        other => panic!("expected a block, got {:?}", other),
    }
}

#[test]
fn literals() {
    assert!(matches!(expr("-5"), Expression::Literal(Literal::Integer(ref t)) if t == "-5"));
    assert!(matches!(expr("-2.5"), Expression::Literal(Literal::Double(ref t)) if t == "-2.5"));
    assert!(matches!(expr("'hi there'"), Expression::Literal(Literal::String(ref t)) if t == "hi there"));
    assert!(matches!(expr("#foo"), Expression::Literal(Literal::Symbol(ref t)) if t == "foo"));
    assert!(matches!(expr("#at:put:"), Expression::Literal(Literal::Symbol(ref t)) if t == "at:put:"));
    assert!(matches!(expr("#+"), Expression::Literal(Literal::Symbol(ref t)) if t == "+"));
    assert!(matches!(expr("#'with space'"), Expression::Literal(Literal::Symbol(ref t)) if t == "with space"));
    match expr("#(1 'two' #three)") {
        Expression::Literal(Literal::Array(items)) => {
            assert_eq!(items.len(), 3);
            assert!(matches!(items[0], Literal::Integer(ref t) if t == "1"));
            assert!(matches!(items[1], Literal::String(ref t) if t == "two"));
            assert!(matches!(items[2], Literal::Symbol(ref t) if t == "three"));
        }
        other => panic!("expected an array literal, got {:?}", other),
    }
}

#[test]
fn keywords_joined_into_a_symbol_must_touch() {
    // `#at: put:` has a gap: the symbol ends after `at:`.
    let mut p = Parser::new("#at: put: .");
    match p.parse_expression() {
        Err(e) => assert_eq!(e, ParseError::Primary { got: Token::Period, start: 10, end: 11 }),
        other => panic!("expected `put: .` to be a keyword message without argument, got {:?}", other),
    }
    let mut q = Parser::new("#at: .");
    match q.parse_expression() {
        Ok(Expression::Literal(Literal::Symbol(s))) => assert_eq!(s, "at:"),
        other => panic!("expected the symbol #at:, got {:?}", other),
    }
}

#[test]
fn errors() {
    assert_eq!(expr_err(")"), ParseError::Primary { got: Token::EndTerm, start: 0, end: 1 });
    assert_eq!(expr_err("-x"), ParseError::NumberAfterMinus);
    assert_eq!(expr_err("#)"), ParseError::InvalidSymbol);
    assert_eq!(expr_err("$"), ParseError::Lex { offset: 0 });
    // The end of the input reads as a closing parenthesis.
    assert!(matches!(expr("(1"), Expression::Literal(Literal::Integer(ref t)) if t == "1"));
    assert_eq!(expr_err("(1 ]"), ParseError::Expected { expected: Token::EndTerm, got: Token::EndBlock });
    let mut p = Parser::new("Foo = ( bar = ( 1 2 ) )");
    assert_eq!(
        p.parse_class().unwrap_err(),
        ParseError::EndOfStatement { got: Token::Integer, start: 18, end: 19 }
    );
    let mut q = Parser::new("Foo ( )");
    assert_eq!(q.parse_class().unwrap_err(), ParseError::Expected { expected: Token::Equal, got: Token::NewTerm });
}

#[test]
fn an_array_literal_element_must_be_a_literal() {
    assert_eq!(expr_err("#(1 foo)"), ParseError::NotALiteral { got: Token::Identifier });
}

#[test]
fn a_lex_error_after_an_expression_is_an_error() {
    let mut p = Parser::new("Foo = ( bar = ( 1 $ ) )");
    assert_eq!(p.parse_class().unwrap_err(), ParseError::Lex { offset: 18 });
}

#[test]
fn a_lex_error_inside_a_body_ends_the_statements() {
    // The bad character is skipped by the statement loop, which then stops;
    // the closing parenthesis is still required.
    let mut p = Parser::new("Foo = ( bar = ( 1. $ ) )");
    let class = p.parse_class().expect("class should parse");
    match &class.instance_methods[0].body {
        MethodBody::Block(b) => assert_eq!(b.body.len(), 1),
        MethodBody::Primitive => panic!("expected a body"),
    }
}

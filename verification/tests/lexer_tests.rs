use lazysom::lexer::{tokenize, Lexeme, Token};
use lazysom::text::chars_of;

fn tokens(src: &str) -> Vec<Option<Token>> {
    let chars = chars_of(src);
    tokenize(&chars).iter().map(|l: &Lexeme| l.token).collect()
}

fn spans(src: &str) -> Vec<(usize, usize)> {
    let chars = chars_of(src);
    tokenize(&chars).iter().map(|l| (l.start, l.end)).collect()
}

#[test]
fn lexes_a_class_header() {
    assert_eq!(
        tokens("Hello = Object ( )"),
        vec![
            Some(Token::Identifier),
            Some(Token::Equal),
            Some(Token::Identifier),
            Some(Token::NewTerm),
            Some(Token::EndTerm),
        ]
    );
    assert_eq!(spans("Hello = Object ( )"), vec![(0, 5), (6, 7), (8, 14), (15, 16), (17, 18)]);
}

#[test]
fn keywords_take_their_colon_and_assignment_is_one_token() {
    assert_eq!(
        tokens("x := a at: 1 put: b"),
        vec![
            Some(Token::Identifier),
            Some(Token::Assign),
            Some(Token::Identifier),
            Some(Token::Keyword),
            Some(Token::Integer),
            Some(Token::Keyword),
            Some(Token::Identifier),
        ]
    );
    assert_eq!(spans("a at: 1"), vec![(0, 1), (2, 5), (6, 7)]);
}

#[test]
fn numbers_doubles_and_the_primitive_word() {
    assert_eq!(tokens("42 3.14 primitive"), vec![Some(Token::Integer), Some(Token::Double), Some(Token::Primitive)]);
    // A period not followed by a digit ends the integer.
    assert_eq!(tokens("3."), vec![Some(Token::Integer), Some(Token::Period)]);
    // `primitives` is an identifier, not the keyword word.
    assert_eq!(tokens("primitives"), vec![Some(Token::Identifier)]);
}

#[test]
fn operators_and_the_separator() {
    assert_eq!(
        tokens("+ - * / \\ < > = , @ % & | ~"),
        vec![
            Some(Token::Plus),
            Some(Token::Minus),
            Some(Token::Star),
            Some(Token::Div),
            Some(Token::Mod),
            Some(Token::Less),
            Some(Token::More),
            Some(Token::Equal),
            Some(Token::Comma),
            Some(Token::At),
            Some(Token::Per),
            Some(Token::And),
            Some(Token::Or),
            Some(Token::Not),
        ]
    );
    assert_eq!(tokens("----"), vec![Some(Token::Separator)]);
    assert_eq!(tokens("---"), vec![Some(Token::OperatorSequence)]);
    assert_eq!(tokens("<="), vec![Some(Token::OperatorSequence)]);
}

#[test]
fn comments_and_strings() {
    assert_eq!(tokens("\"a comment\" x"), vec![Some(Token::Identifier)]);
    assert_eq!(spans("'it''s'"), vec![(0, 4), (4, 7)]);
    assert_eq!(tokens("'hello world'"), vec![Some(Token::STString)]);
    assert_eq!(tokens("#foo:bar:"), vec![Some(Token::Pound), Some(Token::Keyword), Some(Token::Keyword)]);
}

#[test]
fn unknown_characters_are_error_items_and_lexing_goes_on() {
    assert_eq!(tokens("a $ b"), vec![Some(Token::Identifier), None, Some(Token::Identifier)]);
    assert_eq!(spans("a $ b"), vec![(0, 1), (2, 3), (4, 5)]);
}

#[test]
fn an_unclosed_comment_is_an_error_to_the_end() {
    assert_eq!(tokens("x \"never closed"), vec![Some(Token::Identifier), None]);
    assert_eq!(spans("x \"never closed"), vec![(0, 1), (2, 15)]);
}

#[test]
fn empty_input_has_no_tokens() {
    assert_eq!(tokens(""), vec![]);
    assert_eq!(tokens("   \n\t "), vec![]);
}

use vstd::prelude::*;
use crate::ast::{
    Block, BlockV, ClassDef, ClassDefV, ExprV, Expression, Literal, LiteralV, Message, MessageV, MethodBody, MethodDef, MethodDefV, Signature, SignatureV, block_view,
    class_view, expr_view, exprs_view, lemma_exprs_view_push, lemma_literal_views_push,
    lemma_parts_view_push, literal_view, literal_views, message_view, method_view, methods_view, names_view, pairs_view,
    parts_view, signature_view,
};
use crate::grammar;
use crate::grammar::{Input, ParseError, lemma_lex_from_ok, lexemes_ok};
use crate::lexer::{Lexeme, Token, tokenize};
use crate::numbers::decimal_u64;
use crate::text::{chars_of, push_char, string_of};

verus! {

/// Whether `t` is a binary operator.
fn token_is_binop(t: Token) -> (r: bool)
    ensures
        r == grammar::is_binop(t),
{
    match t {
        Token::Or | Token::Comma | Token::Minus | Token::Equal | Token::Not | Token::And | Token::Star
        | Token::Div | Token::Mod | Token::Plus | Token::More | Token::Less | Token::At | Token::Per
        | Token::OperatorSequence => true,
        _ => false,
    }
}

/// A recursive-descent parser over the lexemes of a source text. Each parsing
/// method takes what the grammar (module `grammar`) says it takes at the
/// current position and moves past it.
pub struct Parser {
    chars: Vec<char>,
    lexemes: Vec<Lexeme>,
    pos: usize,
}

impl Parser {
    /// The source text and its lexemes.
    pub closed spec fn input(&self) -> Input {
        Input { chars: self.chars@, lx: self.lexemes@ }
    }

    /// The index of the next lexeme to read.
    pub closed spec fn position(&self) -> int {
        self.pos as int
    }

    pub closed spec fn wf(&self) -> bool {
        &&& self.pos <= self.lexemes@.len() <= usize::MAX
        &&& lexemes_ok(self.lexemes@, self.chars@.len() as int)
    }

    /// `self` reads the same input as `from`, at the same position or further on.
    pub open spec fn advanced_from(self, from: Parser) -> bool {
        &&& self.wf()
        &&& self.input() == from.input()
        &&& from.position() <= self.position()
    }

    pub closed spec fn remaining(&self) -> int {
        self.lexemes@.len() - self.pos
    }

    /// A parser at the start of `source`.
    pub fn new(source: &str) -> (p: Parser)
        ensures
            p.wf(),
            p.input() == grammar::input_of(source@),
            p.position() == 0,
    {
        let chars = chars_of(source);
        let lexemes = tokenize(&chars);
        proof {
            assert(chars@.len() == chars.len());
            assert(lexemes@.len() == lexemes.len());
            lemma_lex_from_ok(chars@, 0);
        }
        Parser { chars, lexemes, pos: 0 }
    }

    fn peek(&mut self) -> (r: Result<Token, ParseError>)
        requires
            old(self).wf(),
        ensures
            final(self).advanced_from(*old(self)),
            grammar::peek(old(self).input(), old(self).position()) == (r, final(self).position()),
    {
        if self.pos < self.lexemes.len() {
            let lx = self.lexemes[self.pos];
            match lx.token {
                Some(t) => Ok(t),
                None => {
                    self.pos = self.pos + 1;
                    Err(ParseError::Lex { offset: lx.start })
                },
            }
        } else {
            Ok(Token::EndTerm)
        }
    }

    fn next(&mut self) -> (r: Result<Token, ParseError>)
        requires
            old(self).wf(),
        ensures
            final(self).advanced_from(*old(self)),
            grammar::next(old(self).input(), old(self).position()) == (r, final(self).position()),
    {
        let r = self.peek();
        match r {
            Ok(t) => {
                if self.pos < self.lexemes.len() {
                    self.pos = self.pos + 1;
                }
                Ok(t)
            },
            Err(e) => Err(e),
        }
    }

    /// The text of the lexeme at the current position.
    fn current_text(&self) -> (r: String)
        requires
            self.wf(),
        ensures
            r@ == grammar::text(self.input(), self.position()),
    {
        if self.pos < self.lexemes.len() {
            let lx = self.lexemes[self.pos];
            proof {
                assert(grammar::lexeme_ok(self.lexemes@[self.pos as int], self.chars@.len() as int));
            }
            string_of(&self.chars, lx.start, lx.end)
        } else {
            String::new()
        }
    }

    fn expect(&mut self, t: Token) -> (r: Result<(), ParseError>)
        requires
            old(self).wf(),
        ensures
            final(self).advanced_from(*old(self)),
            grammar::expect_at(old(self).input(), old(self).position(), t) == (r, final(self).position()),
            r is Ok && t != Token::EndTerm ==> old(self).position() < final(self).position(),
    {
        let r = self.next();
        match r {
            Ok(t2) => if t2 == t {
                Ok(())
            } else {
                Err(ParseError::Expected { expected: t, got: t2 })
            },
            Err(e) => Err(e),
        }
    }

    fn parse_identifier(&mut self) -> (r: Result<String, ParseError>)
        requires
            old(self).wf(),
        ensures
            final(self).advanced_from(*old(self)),
            match r {
                Ok(v) => grammar::identifier(old(self).input(), old(self).position()) == Ok::<
                    (Seq<char>, int),
                    ParseError,
                >((v@, final(self).position())) && old(self).position() < final(self).position(),
                Err(e) => grammar::identifier(old(self).input(), old(self).position()) == Err::<
                    (Seq<char>, int),
                    ParseError,
                >(e),
            },
    {
        match self.peek() {
            Err(e) => Err(e),
            Ok(_) => {
                let text = self.current_text();
                match self.expect(Token::Identifier) {
                    Ok(()) => Ok(text),
                    Err(_) => match self.expect(Token::Primitive) {
                        Ok(()) => Ok(text),
                        Err(e) => Err(e),
                    },
                }
            },
        }
    }

    fn parse_binary_selector(&mut self) -> (r: Result<String, ParseError>)
        requires
            old(self).wf(),
        ensures
            final(self).advanced_from(*old(self)),
            match r {
                Ok(v) => grammar::binary_selector(old(self).input(), old(self).position()) == Ok::<
                    (Seq<char>, int),
                    ParseError,
                >((v@, final(self).position())),
                Err(e) => grammar::binary_selector(old(self).input(), old(self).position()) == Err::<
                    (Seq<char>, int),
                    ParseError,
                >(e),
            },
    {
        match self.peek() {
            Err(e) => Err(e),
            Ok(_) => {
                let text = self.current_text();
                match self.next() {
                    Err(e) => Err(e),
                    Ok(_) => Ok(text),
                }
            },
        }
    }

    /// Identifiers for as long as they follow, appended to `acc`.
    fn parse_ident_list(&mut self, acc: Vec<String>) -> (r: Result<Vec<String>, ParseError>)
        requires
            old(self).wf(),
        ensures
            final(self).advanced_from(*old(self)),
            match r {
                Ok(v) => grammar::ident_list(old(self).input(), old(self).position(), names_view(acc@))
                    == Ok::<(Seq<Seq<char>>, int), ParseError>((names_view(v@), final(self).position())),
                Err(e) => grammar::ident_list(old(self).input(), old(self).position(), names_view(acc@))
                    == Err::<(Seq<Seq<char>>, int), ParseError>(e),
            },
        decreases old(self).remaining(),
    {
        let mut acc = acc;
        match self.peek() {
            Err(e) => Err(e),
            Ok(t) => if t == Token::Identifier {
                match self.parse_identifier() {
                    Err(e) => Err(e),
                    Ok(name) => {
                        let ghost before = acc@;
                        acc.push(name);
                        assert(names_view(acc@) =~= names_view(before).push(name@));
                        self.parse_ident_list(acc)
                    },
                }
            } else {
                Ok(acc)
            },
        }
    }

    /// An optional list of names between bars.
    fn parse_fields(&mut self) -> (r: Result<Vec<String>, ParseError>)
        requires
            old(self).wf(),
        ensures
            final(self).advanced_from(*old(self)),
            match r {
                Ok(v) => grammar::fields(old(self).input(), old(self).position()) == Ok::<
                    (Seq<Seq<char>>, int),
                    ParseError,
                >((names_view(v@), final(self).position())),
                Err(e) => grammar::fields(old(self).input(), old(self).position()) == Err::<
                    (Seq<Seq<char>>, int),
                    ParseError,
                >(e),
            },
    {
        match self.peek() {
            Err(e) => Err(e),
            Ok(t) => if t == Token::Or {
                match self.next() {
                    Err(e) => Err(e),
                    Ok(_) => {
                        let empty: Vec<String> = Vec::new();
                        assert(names_view(empty@) =~= Seq::<Seq<char>>::empty());
                        match self.parse_ident_list(empty) {
                            Err(e) => Err(e),
                            Ok(names) => match self.expect(Token::Or) {
                                Err(e) => Err(e),
                                Ok(()) => Ok(names),
                            },
                        }
                    },
                }
            } else {
                let empty: Vec<String> = Vec::new();
                assert(names_view(empty@) =~= Seq::<Seq<char>>::empty());
                Ok(empty)
            },
        }
    }

    /// Keywords that follow with no gap, appended to `sym`.
    fn parse_sym_keywords(&mut self, sym: String, last_end: usize) -> (r: String)
        requires
            old(self).wf(),
        ensures
            final(self).advanced_from(*old(self)),
            grammar::sym_keywords(old(self).input(), old(self).position(), sym@, last_end) == Ok::<
                (Seq<char>, int),
                ParseError,
            >((r@, final(self).position())),
        decreases old(self).remaining(),
    {
        let mut sym = sym;
        match self.peek() {
            Ok(t) => if t == Token::Keyword && self.lexemes[self.pos].start == last_end {
                let txt = self.current_text();
                let end = self.lexemes[self.pos].end;
                self.pos = self.pos + 1;
                sym.append(txt.as_str());
                self.parse_sym_keywords(sym, end)
            } else {
                sym
            },
            Err(_) => sym,
        }
    }

    /// The text of the string token at the current position, without its quotes.
    fn unquoted_text(&self) -> (r: String)
        requires
            self.wf(),
            self.pos < self.lexemes@.len(),
            self.lexemes@[self.pos as int].token == Some(Token::STString),
        ensures
            r@ == grammar::unquote(grammar::text(self.input(), self.position())),
    {
        let lx = self.lexemes[self.pos];
        proof {
            assert(grammar::lexeme_ok(self.lexemes@[self.pos as int], self.chars@.len() as int));
            assert(self.chars@.subrange(lx.start as int, lx.end as int).subrange(1, lx.end - lx.start - 1)
                =~= self.chars@.subrange(lx.start + 1, lx.end - 1));
        }
        string_of(&self.chars, lx.start + 1, lx.end - 1)
    }

    /// A number literal, its text preceded by `-` when `negative`.
    fn number_literal(&mut self, negative: bool, t: Token) -> (l: Literal)
        requires
            old(self).wf(),
            old(self).pos < old(self).lexemes@.len(),
            t == Token::Integer || t == Token::Double,
        ensures
            final(self).advanced_from(*old(self)),
            final(self).position() == old(self).position() + 1,
            literal_view(l) == if t == Token::Integer {
                LiteralV::Integer(
                    if negative { seq!['-'] + grammar::text(old(self).input(), old(self).position()) }
                    else { grammar::text(old(self).input(), old(self).position()) },
                )
            } else {
                LiteralV::Double(
                    if negative { seq!['-'] + grammar::text(old(self).input(), old(self).position()) }
                    else { grammar::text(old(self).input(), old(self).position()) },
                )
            },
    {
        let txt = self.current_text();
        self.pos = self.pos + 1;
        let mut s = String::new();
        if negative {
            push_char(&mut s, '-');
        }
        s.append(txt.as_str());
        proof {
            assert(seq!['-'] + txt@ =~= Seq::<char>::empty().push('-') + txt@);
            assert(txt@ =~= Seq::<char>::empty() + txt@);
        }
        if t == Token::Integer {
            Literal::Integer(s)
        } else {
            Literal::Double(s)
        }
    }

    fn parse_literal(&mut self) -> (r: Result<Literal, ParseError>)
        requires
            old(self).wf(),
        ensures
            final(self).advanced_from(*old(self)),
            match r {
                Ok(v) => grammar::literal(old(self).input(), old(self).position()) == Ok::<
                    (LiteralV, int),
                    ParseError,
                >((literal_view(v), final(self).position())) && old(self).position() < final(self).position(),
                Err(e) => grammar::literal(old(self).input(), old(self).position()) == Err::<
                    (LiteralV, int),
                    ParseError,
                >(e),
            },
        decreases old(self).remaining(), 0nat,
    {
        match self.peek() {
            Err(e) => Err(e),
            Ok(t) => if t == Token::Integer || t == Token::Double {
                Ok(self.number_literal(false, t))
            } else if t == Token::Minus {
                self.pos = self.pos + 1;
                match self.peek() {
                    Err(e) => Err(e),
                    Ok(t2) => if t2 == Token::Integer || t2 == Token::Double {
                        Ok(self.number_literal(true, t2))
                    } else {
                        Err(ParseError::NumberAfterMinus)
                    },
                }
            } else if t == Token::STString {
                let s = self.unquoted_text();
                self.pos = self.pos + 1;
                Ok(Literal::String(s))
            } else if t == Token::Pound {
                self.pos = self.pos + 1;
                match self.peek() {
                    Err(e) => Err(e),
                    Ok(t2) => if t2 == Token::NewTerm {
                        self.pos = self.pos + 1;
                        let empty: Vec<Literal> = Vec::new();
                        assert(literal_views(empty@) =~= Seq::<LiteralV>::empty());
                        match self.parse_array_items(empty) {
                            Err(e) => Err(e),
                            Ok(items) => match self.expect(Token::EndTerm) {
                                Err(e) => Err(e),
                                Ok(()) => {
                                    assert(literal_view(Literal::Array(items)) == LiteralV::Array(literal_views(items@)));
                                    Ok(Literal::Array(items))
                                },
                            },
                        }
                    } else if self.pos >= self.lexemes.len() {
                        Err(ParseError::InvalidSymbol)
                    } else if t2 == Token::STString {
                        let first = self.unquoted_text();
                        let end = self.lexemes[self.pos].end;
                        self.pos = self.pos + 1;
                        let sym = self.parse_sym_keywords(first, end);
                        Ok(Literal::Symbol(sym))
                    } else if t2 == Token::Identifier || t2 == Token::Primitive || t2 == Token::Keyword
                        || token_is_binop(t2) {
                        let first = self.current_text();
                        let end = self.lexemes[self.pos].end;
                        self.pos = self.pos + 1;
                        let sym = self.parse_sym_keywords(first, end);
                        Ok(Literal::Symbol(sym))
                    } else {
                        Err(ParseError::InvalidSymbol)
                    },
                }
            } else {
                Err(ParseError::NotALiteral { got: t })
            },
        }
    }

    /// Literals up to a closing parenthesis, appended to `acc`.
    fn parse_array_items(&mut self, acc: Vec<Literal>) -> (r: Result<Vec<Literal>, ParseError>)
        requires
            old(self).wf(),
        ensures
            final(self).advanced_from(*old(self)),
            match r {
                Ok(v) => grammar::array_items(old(self).input(), old(self).position(), literal_views(acc@))
                    == Ok::<(Seq<LiteralV>, int), ParseError>((literal_views(v@), final(self).position())),
                Err(e) => grammar::array_items(old(self).input(), old(self).position(), literal_views(acc@))
                    == Err::<(Seq<LiteralV>, int), ParseError>(e),
            },
        decreases old(self).remaining(), 1nat,
    {
        let mut acc = acc;
        match self.peek() {
            Err(e) => Err(e),
            Ok(t) => if t != Token::EndTerm {
                match self.parse_literal() {
                    Err(e) => Err(e),
                    Ok(l) => {
                        proof {
                            lemma_literal_views_push(acc@, l);
                        }
                        acc.push(l);
                        self.parse_array_items(acc)
                    },
                }
            } else {
                Ok(acc)
            },
        }
    }

    fn span_start(&self) -> (r: usize)
        requires
            self.wf(),
        ensures
            r == grammar::span_start(self.input(), self.position()),
    {
        if self.pos < self.lexemes.len() {
            self.lexemes[self.pos].start
        } else {
            self.chars.len()
        }
    }

    fn span_end(&self) -> (r: usize)
        requires
            self.wf(),
        ensures
            r == grammar::span_end(self.input(), self.position()),
    {
        if self.pos < self.lexemes.len() {
            self.lexemes[self.pos].end
        } else {
            self.chars.len()
        }
    }

    /// Unary messages sent to `x` for as long as identifiers follow.
    fn parse_unary_tail(&mut self, x: Expression) -> (r: Result<Expression, ParseError>)
        requires
            old(self).wf(),
        ensures
            final(self).advanced_from(*old(self)),
            match r {
                Ok(v) => grammar::unary_tail(old(self).input(), old(self).position(), expr_view(x)) == Ok::<(ExprV, int), ParseError>((expr_view(v), final(self).position())),
                Err(e) => grammar::unary_tail(old(self).input(), old(self).position(), expr_view(x)) == Err::<(ExprV, int), ParseError>(e),
            },
        decreases old(self).remaining(),
    {
        match self.peek() {
            Err(e) => Err(e),
            Ok(t) => if t == Token::Identifier || t == Token::Primitive {
                match self.parse_identifier() {
                    Err(e) => Err(e),
                    Ok(name) => {
                        let ghost xv = expr_view(x);
                        let ghost nv = name@;
                        let m = Message::Unary(name);
                        assert(message_view(m) == MessageV::Unary(nv));
                        let x2 = Expression::Message(Box::new(x), m);
                        assert(expr_view(x2) == ExprV::Message(Box::new(xv), MessageV::Unary(nv)));
                        self.parse_unary_tail(x2)
                    },
                }
            } else {
                Ok(x)
            },
        }
    }

    /// Binary messages sent to `x` (each argument with its unary messages) for
    /// as long as binary selectors follow.
    fn parse_binary_tail(&mut self, x: Expression) -> (r: Result<Expression, ParseError>)
        requires
            old(self).wf(),
        ensures
            final(self).advanced_from(*old(self)),
            match r {
                Ok(v) => grammar::binary_tail(old(self).input(), old(self).position(), expr_view(x)) == Ok::<(ExprV, int), ParseError>((expr_view(v), final(self).position())),
                Err(e) => grammar::binary_tail(old(self).input(), old(self).position(), expr_view(x)) == Err::<(ExprV, int), ParseError>(e),
            },
        decreases old(self).remaining(), 2nat,
    {
        match self.peek() {
            Err(e) => Err(e),
            Ok(t) => if token_is_binop(t) {
                let op = self.current_text();
                self.pos = self.pos + 1;
                match self.parse_primary() {
                    Err(e) => Err(e),
                    Ok(a) => match self.parse_unary_tail(a) {
                        Err(e) => Err(e),
                        Ok(a2) => {
                            let ghost xv = expr_view(x);
                            let ghost ov = op@;
                            let ghost av = expr_view(a2);
                            let m = Message::Binary(op, Box::new(a2));
                            assert(message_view(m) == MessageV::Binary(ov, Box::new(av)));
                            let x2 = Expression::Message(Box::new(x), m);
                            assert(expr_view(x2) == ExprV::Message(Box::new(xv), MessageV::Binary(ov, Box::new(av))));
                            self.parse_binary_tail(x2)
                        },
                    },
                }
            } else {
                Ok(x)
            },
        }
    }

    /// The parts of a keyword message, appended to `acc`.
    fn parse_keyword_parts(&mut self, acc: Vec<(String, Box<Expression>)>) -> (r: Result<
        Vec<(String, Box<Expression>)>,
        ParseError,
    >)
        requires
            old(self).wf(),
        ensures
            final(self).advanced_from(*old(self)),
            match r {
                Ok(v) => grammar::keyword_parts(old(self).input(), old(self).position(), parts_view(acc@)) == Ok::<(Seq<(Seq<char>, ExprV)>, int), ParseError>((parts_view(v@), final(self).position())),
                Err(e) => grammar::keyword_parts(old(self).input(), old(self).position(), parts_view(acc@)) == Err::<(Seq<(Seq<char>, ExprV)>, int), ParseError>(e),
            },
        decreases old(self).remaining(), 2nat,
    {
        let mut acc = acc;
        match self.peek() {
            Err(e) => Err(e),
            Ok(t) => if t == Token::Keyword {
                let key = self.current_text();
                self.pos = self.pos + 1;
                match self.parse_primary() {
                    Err(e) => Err(e),
                    Ok(a) => match self.parse_unary_tail(a) {
                        Err(e) => Err(e),
                        Ok(a2) => match self.parse_binary_tail(a2) {
                            Err(e) => Err(e),
                            Ok(a3) => {
                                let part = (key, Box::new(a3));
                                proof {
                                    lemma_parts_view_push(acc@, part);
                                }
                                acc.push(part);
                                self.parse_keyword_parts(acc)
                            },
                        },
                    },
                }
            } else {
                Ok(acc)
            },
        }
    }

    /// The messages sent to `x`: unary and binary ones, ending after a keyword message.
    fn parse_eval_loop(&mut self, x: Expression) -> (r: Result<Expression, ParseError>)
        requires
            old(self).wf(),
        ensures
            final(self).advanced_from(*old(self)),
            match r {
                Ok(v) => grammar::eval_loop(old(self).input(), old(self).position(), expr_view(x)) == Ok::<(ExprV, int), ParseError>((expr_view(v), final(self).position())),
                Err(e) => grammar::eval_loop(old(self).input(), old(self).position(), expr_view(x)) == Err::<(ExprV, int), ParseError>(e),
            },
        decreases old(self).remaining(), 3nat,
    {
        match self.peek() {
            Err(e) => Err(e),
            Ok(t) => if t == Token::Identifier || t == Token::Primitive {
                match self.parse_identifier() {
                    Err(e) => Err(e),
                    Ok(name) => {
                        let ghost xv = expr_view(x);
                        let ghost nv = name@;
                        let m = Message::Unary(name);
                        assert(message_view(m) == MessageV::Unary(nv));
                        let x2 = Expression::Message(Box::new(x), m);
                        assert(expr_view(x2) == ExprV::Message(Box::new(xv), MessageV::Unary(nv)));
                        self.parse_eval_loop(x2)
                    },
                }
            } else if token_is_binop(t) {
                let op = self.current_text();
                self.pos = self.pos + 1;
                match self.parse_primary() {
                    Err(e) => Err(e),
                    Ok(a) => match self.parse_unary_tail(a) {
                        Err(e) => Err(e),
                        Ok(a2) => {
                            let ghost xv = expr_view(x);
                            let ghost ov = op@;
                            let ghost av = expr_view(a2);
                            let m = Message::Binary(op, Box::new(a2));
                            assert(message_view(m) == MessageV::Binary(ov, Box::new(av)));
                            let x2 = Expression::Message(Box::new(x), m);
                            assert(expr_view(x2) == ExprV::Message(Box::new(xv), MessageV::Binary(ov, Box::new(av))));
                            self.parse_eval_loop(x2)
                        },
                    },
                }
            } else if t == Token::Keyword {
                let empty: Vec<(String, Box<Expression>)> = Vec::new();
                assert(parts_view(empty@) =~= Seq::<(Seq<char>, ExprV)>::empty());
                match self.parse_keyword_parts(empty) {
                    Err(e) => Err(e),
                    Ok(parts) => {
                        let ghost xv = expr_view(x);
                        let ghost pv = parts_view(parts@);
                        let m = Message::Keyword(parts);
                        assert(message_view(m) == MessageV::Keyword(pv));
                        let x2 = Expression::Message(Box::new(x), m);
                        assert(expr_view(x2) == ExprV::Message(Box::new(xv), MessageV::Keyword(pv)));
                        Ok(x2)
                    },
                }
            } else {
                Ok(x)
            },
        }
    }

    fn parse_evaluation(&mut self) -> (r: Result<Expression, ParseError>)
        requires
            old(self).wf(),
        ensures
            final(self).advanced_from(*old(self)),
            match r {
                Ok(v) => grammar::evaluation(old(self).input(), old(self).position()) == Ok::<(ExprV, int), ParseError>((expr_view(v), final(self).position())),
                Err(e) => grammar::evaluation(old(self).input(), old(self).position()) == Err::<(ExprV, int), ParseError>(e),
            },
        decreases old(self).remaining(), 4nat,
    {
        match self.parse_primary() {
            Err(e) => Err(e),
            Ok(x) => self.parse_eval_loop(x),
        }
    }

    /// An expression: a primary followed by the messages sent to it.
    pub fn parse_expression(&mut self) -> (r: Result<Expression, ParseError>)
        requires
            old(self).wf(),
        ensures
            final(self).advanced_from(*old(self)),
            match r {
                Ok(v) => grammar::expression(old(self).input(), old(self).position()) == Ok::<(ExprV, int), ParseError>((expr_view(v), final(self).position())),
                Err(e) => grammar::expression(old(self).input(), old(self).position()) == Err::<(ExprV, int), ParseError>(e),
            },
        decreases old(self).remaining(), 5nat,
    {
        self.parse_evaluation()
    }

    fn parse_primary(&mut self) -> (r: Result<Expression, ParseError>)
        requires
            old(self).wf(),
        ensures
            final(self).advanced_from(*old(self)),
            match r {
                Ok(v) => grammar::primary(old(self).input(), old(self).position()) == Ok::<(ExprV, int), ParseError>((expr_view(v), final(self).position())) && old(self).position() < final(self).position(),
                Err(e) => grammar::primary(old(self).input(), old(self).position()) == Err::<(ExprV, int), ParseError>(e),
            },
        decreases old(self).remaining(), 1nat,
    {
        match self.peek() {
            Err(e) => Err(e),
            Ok(t) => if t == Token::Identifier || t == Token::Primitive {
                match self.parse_identifier() {
                    Err(e) => Err(e),
                    Ok(name) => match self.peek() {
                        Err(e) => Err(e),
                        Ok(t2) => if t2 == Token::Assign {
                            self.pos = self.pos + 1;
                            match self.parse_expression() {
                                Err(e) => Err(e),
                                Ok(v) => Ok(Expression::Assignment(name, Box::new(v))),
                            }
                        } else {
                            Ok(Expression::Variable(name))
                        },
                    },
                }
            } else if t == Token::NewTerm {
                self.pos = self.pos + 1;
                match self.parse_expression() {
                    Err(e) => Err(e),
                    Ok(x) => match self.expect(Token::EndTerm) {
                        Err(e) => Err(e),
                        Ok(()) => Ok(x),
                    },
                }
            } else if t == Token::NewBlock {
                match self.parse_nested_block() {
                    Err(e) => Err(e),
                    Ok(b) => Ok(Expression::Block(b)),
                }
            } else if t == Token::Pound || t == Token::Integer || t == Token::Double || t == Token::STString
                || t == Token::Minus {
                match self.parse_literal() {
                    Err(e) => Err(e),
                    Ok(l) => Ok(Expression::Literal(l)),
                }
            } else {
                Err(ParseError::Primary { got: t, start: self.span_start(), end: self.span_end() })
            },
        }
    }

    /// Block parameters `:a :b`, appended to `acc`.
    fn parse_colon_params(&mut self, acc: Vec<String>) -> (r: Result<Vec<String>, ParseError>)
        requires
            old(self).wf(),
        ensures
            final(self).advanced_from(*old(self)),
            match r {
                Ok(v) => grammar::colon_params(old(self).input(), old(self).position(), names_view(acc@)) == Ok::<(Seq<Seq<char>>, int), ParseError>((names_view(v@), final(self).position())),
                Err(e) => grammar::colon_params(old(self).input(), old(self).position(), names_view(acc@)) == Err::<(Seq<Seq<char>>, int), ParseError>(e),
            },
        decreases old(self).remaining(),
    {
        let mut acc = acc;
        match self.peek() {
            Err(e) => Err(e),
            Ok(t) => if t == Token::Colon {
                self.pos = self.pos + 1;
                match self.parse_identifier() {
                    Err(e) => Err(e),
                    Ok(name) => {
                        let ghost before = acc@;
                        acc.push(name);
                        assert(names_view(acc@) =~= names_view(before).push(name@));
                        self.parse_colon_params(acc)
                    },
                }
            } else {
                Ok(acc)
            },
        }
    }

    /// A block in brackets, with its parameters.
    fn parse_nested_block(&mut self) -> (r: Result<Block, ParseError>)
        requires
            old(self).wf(),
        ensures
            final(self).advanced_from(*old(self)),
            match r {
                Ok(v) => grammar::nested_block(old(self).input(), old(self).position()) == Ok::<(BlockV, int), ParseError>((block_view(v), final(self).position())) && old(self).position() < final(self).position(),
                Err(e) => grammar::nested_block(old(self).input(), old(self).position()) == Err::<(BlockV, int), ParseError>(e),
            },
        decreases old(self).remaining(), 0nat,
    {
        match self.expect(Token::NewBlock) {
            Err(e) => Err(e),
            Ok(()) => {
                let params: Result<Vec<String>, ParseError> = match self.peek() {
                    Err(e) => Err(e),
                    Ok(t) => if t == Token::Colon {
                        let empty: Vec<String> = Vec::new();
                        assert(names_view(empty@) =~= Seq::<Seq<char>>::empty());
                        match self.parse_colon_params(empty) {
                            Err(e) => Err(e),
                            Ok(ps) => match self.expect(Token::Or) {
                                Err(e) => Err(e),
                                Ok(()) => Ok(ps),
                            },
                        }
                    } else {
                        let empty: Vec<String> = Vec::new();
                        assert(names_view(empty@) =~= Seq::<Seq<char>>::empty());
                        Ok(empty)
                    },
                };
                match params {
                    Err(e) => Err(e),
                    Ok(ps) => match self.parse_block_contents() {
                        Err(e) => Err(e),
                        Ok(b) => match self.expect(Token::EndBlock) {
                            Err(e) => Err(e),
                            Ok(()) => {
                                let mut block = b;
                                block.parameters = ps;
                                Ok(block)
                            },
                        },
                    },
                }
            },
        }
    }

    /// The statements of a block, appended to `body`.
    fn parse_stmts(&mut self, body: Vec<Expression>) -> (r: Result<Vec<Expression>, ParseError>)
        requires
            old(self).wf(),
        ensures
            final(self).advanced_from(*old(self)),
            match r {
                Ok(v) => grammar::stmts(old(self).input(), old(self).position(), exprs_view(body@)) == Ok::<(Seq<ExprV>, int), ParseError>((exprs_view(v@), final(self).position())),
                Err(e) => grammar::stmts(old(self).input(), old(self).position(), exprs_view(body@)) == Err::<(Seq<ExprV>, int), ParseError>(e),
            },
        decreases old(self).remaining(), 6nat,
    {
        let mut body = body;
        match self.peek() {
            Err(_) => Ok(body),
            Ok(t) => if t == Token::EndTerm || t == Token::EndBlock {
                Ok(body)
            } else if t == Token::Exit {
                self.pos = self.pos + 1;
                match self.parse_expression() {
                    Err(e) => Err(e),
                    Ok(x) => {
                        let stmt = Expression::Return(Box::new(x));
                        proof {
                            lemma_exprs_view_push(body@, stmt);
                        }
                        body.push(stmt);
                        match self.peek() {
                            Ok(t3) => if t3 == Token::Period {
                                match self.next() {
                                    Err(e) => Err(e),
                                    Ok(_) => Ok(body),
                                }
                            } else {
                                Ok(body)
                            },
                            Err(_) => Ok(body),
                        }
                    },
                }
            } else {
                match self.parse_expression() {
                    Err(e) => Err(e),
                    Ok(x) => {
                        proof {
                            lemma_exprs_view_push(body@, x);
                        }
                        body.push(x);
                        let r2 = self.peek();
                        let is_period = match r2 {
                            Ok(t2) => t2 == Token::Period,
                            Err(_) => false,
                        };
                        if is_period {
                            match self.next() {
                                Err(e) => Err(e),
                                Ok(_) => self.parse_stmts(body),
                            }
                        } else {
                            match self.peek() {
                                Err(e) => Err(e),
                                Ok(nt) => if nt != Token::EndTerm && nt != Token::EndBlock {
                                    Err(ParseError::EndOfStatement { got: nt, start: self.span_start(), end: self.span_end() })
                                } else {
                                    Ok(body)
                                },
                            }
                        }
                    },
                }
            },
        }
    }

    /// The locals and statements of a block or method body.
    fn parse_block_contents(&mut self) -> (r: Result<Block, ParseError>)
        requires
            old(self).wf(),
        ensures
            final(self).advanced_from(*old(self)),
            match r {
                Ok(v) => grammar::block_contents(old(self).input(), old(self).position()) == Ok::<(BlockV, int), ParseError>((block_view(v), final(self).position())),
                Err(e) => grammar::block_contents(old(self).input(), old(self).position()) == Err::<(BlockV, int), ParseError>(e),
            },
        decreases old(self).remaining(), 7nat,
    {
        match self.parse_fields() {
            Err(e) => Err(e),
            Ok(locals) => {
                let empty: Vec<Expression> = Vec::new();
                assert(exprs_view(empty@) =~= Seq::<ExprV>::empty());
                match self.parse_stmts(empty) {
                    Err(e) => Err(e),
                    Ok(body) => {
                        let parameters: Vec<String> = Vec::new();
                        assert(names_view(parameters@) =~= Seq::<Seq<char>>::empty());
                        Ok(Block { parameters, locals, body })
                    },
                }
            },
        }
    }

    /// The parts `key: arg` of a keyword pattern, appended to `acc`.
    fn parse_keyword_pattern(&mut self, acc: Vec<(String, String)>) -> (r: Result<Vec<(String, String)>, ParseError>)
        requires
            old(self).wf(),
        ensures
            final(self).advanced_from(*old(self)),
            match r {
                Ok(v) => grammar::keyword_pattern(old(self).input(), old(self).position(), pairs_view(acc@)) == Ok::<(Seq<(Seq<char>, Seq<char>)>, int), ParseError>((pairs_view(v@), final(self).position())),
                Err(e) => grammar::keyword_pattern(old(self).input(), old(self).position(), pairs_view(acc@)) == Err::<(Seq<(Seq<char>, Seq<char>)>, int), ParseError>(e),
            },
        decreases old(self).remaining(),
    {
        let mut acc = acc;
        match self.peek() {
            Err(e) => Err(e),
            Ok(t) => if t == Token::Keyword {
                let key = self.current_text();
                self.pos = self.pos + 1;
                match self.parse_identifier() {
                    Err(e) => Err(e),
                    Ok(arg) => {
                        let ghost before = acc@;
                        let ghost kv = key@;
                        let ghost av = arg@;
                        acc.push((key, arg));
                        assert(pairs_view(acc@) =~= pairs_view(before).push((kv, av)));
                        self.parse_keyword_pattern(acc)
                    },
                }
            } else {
                Ok(acc)
            },
        }
    }

    /// A method pattern.
    fn parse_signature(&mut self) -> (r: Result<Signature, ParseError>)
        requires
            old(self).wf(),
        ensures
            final(self).advanced_from(*old(self)),
            match r {
                Ok(v) => grammar::signature(old(self).input(), old(self).position()) == Ok::<(SignatureV, int), ParseError>((signature_view(v), final(self).position())),
                Err(e) => grammar::signature(old(self).input(), old(self).position()) == Err::<(SignatureV, int), ParseError>(e),
            },
    {
        match self.peek() {
            Err(e) => Err(e),
            Ok(t) => if t == Token::Identifier || t == Token::Primitive {
                match self.parse_identifier() {
                    Err(e) => Err(e),
                    Ok(n) => Ok(Signature::Unary(n)),
                }
            } else if t == Token::Keyword {
                let empty: Vec<(String, String)> = Vec::new();
                assert(pairs_view(empty@) =~= Seq::<(Seq<char>, Seq<char>)>::empty());
                match self.parse_keyword_pattern(empty) {
                    Err(e) => Err(e),
                    Ok(parts) => Ok(Signature::Keyword(parts)),
                }
            } else {
                match self.parse_binary_selector() {
                    Err(e) => Err(e),
                    Ok(op) => match self.parse_identifier() {
                        Err(e) => Err(e),
                        Ok(arg) => Ok(Signature::Binary(op, arg)),
                    },
                }
            },
        }
    }

    /// A method body in parentheses.
    fn parse_method_block(&mut self) -> (r: Result<Block, ParseError>)
        requires
            old(self).wf(),
        ensures
            final(self).advanced_from(*old(self)),
            match r {
                Ok(v) => grammar::method_block(old(self).input(), old(self).position()) == Ok::<(BlockV, int), ParseError>((block_view(v), final(self).position())),
                Err(e) => grammar::method_block(old(self).input(), old(self).position()) == Err::<(BlockV, int), ParseError>(e),
            },
    {
        match self.expect(Token::NewTerm) {
            Err(e) => Err(e),
            Ok(()) => match self.parse_block_contents() {
                Err(e) => Err(e),
                Ok(b) => match self.expect(Token::EndTerm) {
                    Err(e) => Err(e),
                    Ok(()) => Ok(b),
                },
            },
        }
    }

    /// A method: `pattern = primitive` or `pattern = ( body )`.
    pub(crate) fn parse_method(&mut self) -> (r: Result<MethodDef, ParseError>)
        requires
            old(self).wf(),
        ensures
            final(self).advanced_from(*old(self)),
            match r {
                Ok(v) => grammar::method(old(self).input(), old(self).position()) == Ok::<(MethodDefV, int), ParseError>((method_view(v), final(self).position())) && old(self).position() < final(self).position(),
                Err(e) => grammar::method(old(self).input(), old(self).position()) == Err::<(MethodDefV, int), ParseError>(e),
            },
    {
        match self.parse_signature() {
            Err(e) => Err(e),
            Ok(signature) => match self.expect(Token::Equal) {
                Err(e) => Err(e),
                Ok(()) => match self.peek() {
                    Err(e) => Err(e),
                    Ok(t) => if t == Token::Primitive {
                        self.pos = self.pos + 1;
                        Ok(MethodDef { signature, body: MethodBody::Primitive })
                    } else {
                        match self.parse_method_block() {
                            Err(e) => Err(e),
                            Ok(b) => Ok(MethodDef { signature, body: MethodBody::Block(b) }),
                        }
                    },
                },
            },
        }
    }

    /// Methods for as long as a method pattern follows, appended to `acc`.
    fn parse_methods(&mut self, acc: Vec<MethodDef>) -> (r: Result<Vec<MethodDef>, ParseError>)
        requires
            old(self).wf(),
        ensures
            final(self).advanced_from(*old(self)),
            match r {
                Ok(v) => grammar::methods(old(self).input(), old(self).position(), methods_view(acc@)) == Ok::<(Seq<MethodDefV>, int), ParseError>((methods_view(v@), final(self).position())),
                Err(e) => grammar::methods(old(self).input(), old(self).position(), methods_view(acc@)) == Err::<(Seq<MethodDefV>, int), ParseError>(e),
            },
        decreases old(self).remaining(),
    {
        let mut acc = acc;
        match self.peek() {
            Err(e) => Err(e),
            Ok(t) => if t == Token::Identifier || t == Token::Primitive || t == Token::Keyword || token_is_binop(t) {
                match self.parse_method() {
                    Err(e) => Err(e),
                    Ok(m) => {
                        let ghost before = acc@;
                        let ghost mv = method_view(m);
                        acc.push(m);
                        assert(methods_view(acc@) =~= methods_view(before).push(mv));
                        self.parse_methods(acc)
                    },
                }
            } else {
                Ok(acc)
            },
        }
    }

    /// A class definition: `Name = Super ( |fields| methods ---- |fields| methods )`,
    /// where the superclass and the class side may be left out.
    pub fn parse_class(&mut self) -> (r: Result<ClassDef, ParseError>)
        requires
            old(self).wf(),
        ensures
            final(self).advanced_from(*old(self)),
            match r {
                Ok(v) => grammar::class(old(self).input(), old(self).position()) == Ok::<(ClassDefV, int), ParseError>((class_view(v), final(self).position())),
                Err(e) => grammar::class(old(self).input(), old(self).position()) == Err::<(ClassDefV, int), ParseError>(e),
            },
    {
        let name = match self.parse_identifier() {
            Err(e) => { return Err(e); },
            Ok(n) => n,
        };
        match self.expect(Token::Equal) {
            Err(e) => { return Err(e); },
            Ok(()) => {},
        }
        let super_class: Option<String> = match self.peek() {
            Err(e) => { return Err(e); },
            Ok(t) => if t == Token::Identifier {
                match self.parse_identifier() {
                    Err(e) => { return Err(e); },
                    Ok(s) => Some(s),
                }
            } else {
                None
            },
        };
        match self.expect(Token::NewTerm) {
            Err(e) => { return Err(e); },
            Ok(()) => {},
        }
        let instance_fields = match self.parse_fields() {
            Err(e) => { return Err(e); },
            Ok(f) => f,
        };
        let empty: Vec<MethodDef> = Vec::new();
        assert(methods_view(empty@) =~= Seq::<MethodDefV>::empty());
        let instance_methods = match self.parse_methods(empty) {
            Err(e) => { return Err(e); },
            Ok(ms) => ms,
        };
        let (class_fields, class_methods) = match self.peek() {
            Err(e) => { return Err(e); },
            Ok(t) => if t == Token::Separator {
                self.pos = self.pos + 1;
                let cf = match self.parse_fields() {
                    Err(e) => { return Err(e); },
                    Ok(f) => f,
                };
                let empty2: Vec<MethodDef> = Vec::new();
                assert(methods_view(empty2@) =~= Seq::<MethodDefV>::empty());
                let cm = match self.parse_methods(empty2) {
                    Err(e) => { return Err(e); },
                    Ok(ms) => ms,
                };
                (cf, cm)
            } else {
                let cf: Vec<String> = Vec::new();
                let cm: Vec<MethodDef> = Vec::new();
                assert(names_view(cf@) =~= Seq::<Seq<char>>::empty());
                assert(methods_view(cm@) =~= Seq::<MethodDefV>::empty());
                (cf, cm)
            },
        };
        match self.expect(Token::EndTerm) {
            Err(e) => Err(e),
            Ok(()) => Ok(ClassDef {
                name,
                super_class,
                instance_fields,
                instance_methods,
                class_fields,
                class_methods,
            }),
        }
    }
}

/// The name of a token, as error messages show it.
fn token_name(t: Token) -> (r: String)
    ensures
        r@ == grammar::token_name(t),
{
    match t {
            Token::Primitive => String::from_str("Primitive"),
            Token::Identifier => String::from_str("Identifier"),
            Token::Equal => String::from_str("Equal"),
            Token::Separator => String::from_str("Separator"),
            Token::NewTerm => String::from_str("NewTerm"),
            Token::EndTerm => String::from_str("EndTerm"),
            Token::Or => String::from_str("Or"),
            Token::Comma => String::from_str("Comma"),
            Token::Minus => String::from_str("Minus"),
            Token::Not => String::from_str("Not"),
            Token::And => String::from_str("And"),
            Token::Star => String::from_str("Star"),
            Token::Div => String::from_str("Div"),
            Token::Mod => String::from_str("Mod"),
            Token::Plus => String::from_str("Plus"),
            Token::More => String::from_str("More"),
            Token::Less => String::from_str("Less"),
            Token::At => String::from_str("At"),
            Token::Per => String::from_str("Per"),
            Token::OperatorSequence => String::from_str("OperatorSequence"),
            Token::Colon => String::from_str("Colon"),
            Token::NewBlock => String::from_str("NewBlock"),
            Token::EndBlock => String::from_str("EndBlock"),
            Token::Pound => String::from_str("Pound"),
            Token::Exit => String::from_str("Exit"),
            Token::Period => String::from_str("Period"),
            Token::Assign => String::from_str("Assign"),
            Token::Integer => String::from_str("Integer"),
            Token::Double => String::from_str("Double"),
            Token::Keyword => String::from_str("Keyword"),
            Token::STString => String::from_str("STString"),
    }
}

/// The characters `start..end` of `chars`, or nothing where that range does
/// not lie within them.
fn excerpt(chars: &Vec<char>, start: usize, end: usize) -> (r: String)
    ensures
        r@ == grammar::excerpt(chars@, start, end),
{
    if start <= end && end <= chars.len() {
        string_of(chars, start, end)
    } else {
        String::new()
    }
}

impl ParseError {
    /// The message that describes this error, met while parsing `source`.
    pub fn message(&self, source: &str) -> (r: String)
        ensures
            r@ == grammar::error_text(*self, source@),
    {
        let chars = chars_of(source);
        match *self {
            ParseError::Lex { offset } => {
                let mut r = String::from_str("Lex error at offset ");
                r.append(decimal_u64(offset as u64).as_str());
                r
            },
            ParseError::Expected { expected, got } => {
                let mut r = String::from_str("Expected ");
                r.append(token_name(expected).as_str());
                r.append(", got ");
                r.append(token_name(got).as_str());
                r
            },
            ParseError::EndOfStatement { got, start, end } => {
                let mut r = String::from_str("Expected '.' or end of block, got ");
                r.append(token_name(got).as_str());
                r.append(" ('");
                r.append(excerpt(&chars, start, end).as_str());
                r.append("') at offset ");
                r.append(decimal_u64(start as u64).as_str());
                r
            },
            ParseError::Primary { got, start, end } => {
                let mut r = String::from_str("Unexpected token in primary: ");
                r.append(token_name(got).as_str());
                r.append(" ('");
                r.append(excerpt(&chars, start, end).as_str());
                r.append("') at offset ");
                r.append(decimal_u64(start as u64).as_str());
                r
            },
            ParseError::NumberAfterMinus => String::from_str("Expected number after Minus in literal"),
            ParseError::InvalidSymbol => String::from_str("Invalid symbol after #"),
            ParseError::NotALiteral { got } => {
                let mut r = String::from_str("Expected literal, got ");
                r.append(token_name(got).as_str());
                r
            },
        }
    }
}

} // verus!

use vstd::prelude::*;
use crate::ast::{BlockV, ClassDefV, ExprV, LiteralV, MessageV, MethodBodyV, MethodDefV, SignatureV};
use crate::collections::decimal;
use crate::lexer::{Lexeme, Token, lemma_scan_token_len, lemma_string_close_bounds, lex, lex_from, scan_token, string_close};

verus! {

/// Why a source text could not be parsed. Offsets count characters; `start`
/// and `end` delimit the offending token.
#[derive(Debug, Clone, Copy, PartialEq, Eq, Structural)]
pub enum ParseError {
    /// No token starts at this offset.
    Lex { offset: usize },
    /// A token other than the one the grammar requires here.
    Expected { expected: Token, got: Token },
    /// A statement followed by something that is neither `.` nor the end of its block.
    EndOfStatement { got: Token, start: usize, end: usize },
    /// A token that cannot start an expression.
    Primary { got: Token, start: usize, end: usize },
    /// A `-` in a literal that is not followed by a number.
    NumberAfterMinus,
    /// A `#` followed by something that cannot name a symbol.
    InvalidSymbol,
    /// A token that cannot start a literal.
    NotALiteral { got: Token },
}

/// The input of the parser: the source text and its lexemes.
pub struct Input {
    pub chars: Seq<char>,
    pub lx: Seq<Lexeme>,
}

pub type PR<T> = Result<(T, int), ParseError>;

/// A lexeme that lies within a text of `n` characters; a string token also
/// holds its two quotes.
pub open spec fn lexeme_ok(l: Lexeme, n: int) -> bool {
    &&& l.start <= l.end <= n
    &&& l.token == Some(Token::STString) ==> l.end - l.start >= 2
}

pub open spec fn lexemes_ok(lx: Seq<Lexeme>, n: int) -> bool {
    forall|k: int| 0 <= k < lx.len() ==> lexeme_ok(#[trigger] lx[k], n)
}

/// The lexemes come in the order of the text, from `from` on, and do not overlap.
pub open spec fn in_text_order(lx: Seq<Lexeme>, from: int) -> bool {
    &&& forall|k: int| 0 <= k < lx.len() ==> from <= #[trigger] lx[k].start <= lx[k].end
    &&& forall|j: int, k: int| 0 <= j < k < lx.len() ==> #[trigger] lx[j].end <= #[trigger] lx[k].start
}

proof fn lemma_prepend_order(head: Lexeme, rest: Seq<Lexeme>, from: int)
    requires
        from <= head.start <= head.end,
        in_text_order(rest, head.end as int),
    ensures
        in_text_order(seq![head] + rest, from),
{
    let all = seq![head] + rest;
    assert forall|k: int| 0 <= k < all.len() implies from <= #[trigger] all[k].start <= all[k].end by {
        if k > 0 {
            assert(all[k] == rest[k - 1]);
        }
    }
    assert forall|j: int, k: int| 0 <= j < k < all.len() implies #[trigger] all[j].end <= #[trigger] all[k].start by {
        assert(all[k] == rest[k - 1]);
        if j > 0 {
            assert(all[j] == rest[j - 1]);
        }
    }
}

proof fn lemma_lex_from_order(s: Seq<char>, i: int)
    requires
        s.len() <= usize::MAX,
        0 <= i,
    ensures
        in_text_order(lex_from(s, i), i),
    decreases s.len() - i,
{
    if i >= s.len() {
    } else if crate::lexer::is_space(s[i]) {
        lemma_lex_from_order(s, i + 1);
    } else if s[i] == '"' {
        match crate::lexer::find_char(s, i + 1, '"') {
            Some(j) => {
                crate::lexer::lemma_find_char_bounds(s, i + 1, '"');
                lemma_lex_from_order(s, j + 1);
            },
            None => {},
        }
    } else if s[i] == '\'' && string_close(s, i + 1, false) is None {
        lemma_lex_from_order(s, i + 1);
    } else {
        match scan_token(s, i) {
            None => {
                lemma_lex_from_order(s, i + 1);
                let head = Lexeme { token: None, start: i as usize, end: (i + 1) as usize };
                lemma_prepend_order(head, lex_from(s, i + 1), i);
                assert(lex_from(s, i) == seq![head] + lex_from(s, i + 1));
            },
            Some((t, n)) => {
                lemma_scan_token_len(s, i);
                lemma_lex_from_order(s, i + n);
                let head = Lexeme { token: Some(t), start: i as usize, end: (i + n) as usize };
                lemma_prepend_order(head, lex_from(s, i + n), i);
                assert(lex_from(s, i) == seq![head] + lex_from(s, i + n));
            },
        }
    }
}

/// The lexemes of a text come in the order of the text and do not overlap.
pub proof fn law_lexemes_in_text_order(s: Seq<char>)
    requires
        s.len() <= usize::MAX,
    ensures
        in_text_order(lex(s), 0),
{
    lemma_lex_from_order(s, 0);
}

/// Every lexeme that the lexer makes lies within the text.
pub proof fn lemma_lex_from_ok(s: Seq<char>, i: int)
    requires
        s.len() <= usize::MAX,
    ensures
        lexemes_ok(lex_from(s, i), s.len() as int),
    decreases s.len() - i,
{
    if i < 0 || i >= s.len() {
    } else if crate::lexer::is_space(s[i]) {
        lemma_lex_from_ok(s, i + 1);
    } else if s[i] == '"' {
        match crate::lexer::find_char(s, i + 1, '"') {
            Some(j) => {
                crate::lexer::lemma_find_char_bounds(s, i + 1, '"');
                lemma_lex_from_ok(s, j + 1);
            },
            None => {},
        }
    } else if s[i] == '\'' && string_close(s, i + 1, false) is None {
        lemma_lex_from_ok(s, i + 1);
    } else {
        match scan_token(s, i) {
            None => {
                lemma_lex_from_ok(s, i + 1);
                let head = seq![Lexeme { token: None, start: i as usize, end: (i + 1) as usize }];
                let rest = lex_from(s, i + 1);
                assert(lex_from(s, i) == head + rest);
                assert forall|k: int| 0 <= k < (head + rest).len() implies lexeme_ok(
                    #[trigger] (head + rest)[k],
                    s.len() as int,
                ) by {
                    if k > 0 {
                        assert((head + rest)[k] == rest[k - 1]);
                    }
                }
            },
            Some((t, n)) => {
                lemma_scan_token_len(s, i);
                lemma_string_close_bounds(s, i + 1, false);
                lemma_lex_from_ok(s, i + n);
                let head = seq![Lexeme { token: Some(t), start: i as usize, end: (i + n) as usize }];
                let rest = lex_from(s, i + n);
                assert(lex_from(s, i) == head + rest);
                assert forall|k: int| 0 <= k < (head + rest).len() implies lexeme_ok(
                    #[trigger] (head + rest)[k],
                    s.len() as int,
                ) by {
                    if k > 0 {
                        assert((head + rest)[k] == rest[k - 1]);
                    }
                }
            },
        }
    }
}

pub open spec fn len(inp: Input) -> int {
    inp.lx.len() as int
}

/// The next token at position `p` and the position after looking at it: at
/// the end of the input the token is `EndTerm`; looking at a lexeme that is no
/// token consumes it and fails.
pub open spec fn peek(inp: Input, p: int) -> (Result<Token, ParseError>, int) {
    if 0 <= p < len(inp) {
        match inp.lx[p].token {
            Some(t) => (Ok(t), p),
            None => (Err(ParseError::Lex { offset: inp.lx[p].start }), p + 1),
        }
    } else {
        (Ok(Token::EndTerm), p)
    }
}

/// Takes the next token.
pub open spec fn next(inp: Input, p: int) -> (Result<Token, ParseError>, int) {
    let (r, q) = peek(inp, p);
    match r {
        Ok(t) => (Ok(t), if q < len(inp) { q + 1 } else { q }),
        Err(e) => (Err(e), q),
    }
}

/// The text of the token at `p` (empty at the end of the input).
pub open spec fn text(inp: Input, p: int) -> Seq<char> {
    if 0 <= p < len(inp) {
        inp.chars.subrange(inp.lx[p].start as int, inp.lx[p].end as int)
    } else {
        Seq::empty()
    }
}

pub open spec fn span_start(inp: Input, p: int) -> usize {
    if 0 <= p < len(inp) {
        inp.lx[p].start
    } else {
        inp.chars.len() as usize
    }
}

pub open spec fn span_end(inp: Input, p: int) -> usize {
    if 0 <= p < len(inp) {
        inp.lx[p].end
    } else {
        inp.chars.len() as usize
    }
}

/// Takes the next token, which must be `t`; the position is returned whether it is or not.
pub open spec fn expect_at(inp: Input, p: int, t: Token) -> (Result<(), ParseError>, int) {
    let (r, q) = next(inp, p);
    match r {
        Ok(t2) => if t2 == t {
            (Ok(()), q)
        } else {
            (Err(ParseError::Expected { expected: t, got: t2 }), q)
        },
        Err(e) => (Err(e), q),
    }
}

pub open spec fn expect(inp: Input, p: int, t: Token) -> Result<int, ParseError> {
    let (r, q) = expect_at(inp, p, t);
    match r {
        Ok(_) => Ok(q),
        Err(e) => Err(e),
    }
}

pub open spec fn is_binop(t: Token) -> bool {
    t == Token::Or || t == Token::Comma || t == Token::Minus || t == Token::Equal || t == Token::Not
        || t == Token::And || t == Token::Star || t == Token::Div || t == Token::Mod || t == Token::Plus
        || t == Token::More || t == Token::Less || t == Token::At || t == Token::Per
        || t == Token::OperatorSequence
}

pub open spec fn is_pattern_token(t: Token) -> bool {
    t == Token::Identifier || t == Token::Primitive || t == Token::Keyword || is_binop(t)
}

/// An identifier. A `primitive` token where an identifier is expected is
/// taken together with the token after it, which must be `primitive` too.
pub open spec fn identifier(inp: Input, p: int) -> PR<Seq<char>> {
    let (r0, p0) = peek(inp, p);
    match r0 {
        Err(e) => Err(e),
        Ok(_) => {
            let txt = text(inp, p0);
            let (r1, p1) = expect_at(inp, p0, Token::Identifier);
            match r1 {
                Ok(_) => Ok((txt, p1)),
                Err(_) => {
                    let (r2, p2) = expect_at(inp, p1, Token::Primitive);
                    match r2 {
                        Ok(_) => Ok((txt, p2)),
                        Err(e) => Err(e),
                    }
                },
            }
        },
    }
}

/// Whatever token comes next, taken as a binary selector.
pub open spec fn binary_selector(inp: Input, p: int) -> PR<Seq<char>> {
    let (r0, p0) = peek(inp, p);
    match r0 {
        Err(e) => Err(e),
        Ok(_) => {
            let txt = text(inp, p0);
            let (r1, p1) = next(inp, p0);
            match r1 {
                Err(e) => Err(e),
                Ok(_) => Ok((txt, p1)),
            }
        },
    }
}

/// Identifiers for as long as they follow, appended to `acc`.
pub open spec fn ident_list(inp: Input, p: int, acc: Seq<Seq<char>>) -> PR<Seq<Seq<char>>>
    decreases len(inp) - p,
{
    if !(0 <= p <= len(inp)) {
        Err(arbitrary())
    } else {
        let (r, q) = peek(inp, p);
        match r {
            Err(e) => Err(e),
            Ok(t) => if t == Token::Identifier {
                match identifier(inp, q) {
                    Err(e) => Err(e),
                    Ok((name, q1)) => if q < q1 <= len(inp) {
                        ident_list(inp, q1, acc.push(name))
                    } else {
                        Err(arbitrary())
                    },
                }
            } else {
                Ok((acc, q))
            },
        }
    }
}

/// An optional list of names between bars: `| a b c |`.
pub open spec fn fields(inp: Input, p: int) -> PR<Seq<Seq<char>>> {
    let (r, q) = peek(inp, p);
    match r {
        Err(e) => Err(e),
        Ok(t) => if t == Token::Or {
            let (r1, q1) = next(inp, q);
            match r1 {
                Err(e) => Err(e),
                Ok(_) => match ident_list(inp, q1, Seq::empty()) {
                    Err(e) => Err(e),
                    Ok((names, q2)) => match expect(inp, q2, Token::Or) {
                        Err(e) => Err(e),
                        Ok(q3) => Ok((names, q3)),
                    },
                },
            }
        } else {
            Ok((Seq::empty(), q))
        },
    }
}

// ---------------------------------------------------------------------------
// Literals
// ---------------------------------------------------------------------------

pub open spec fn is_symbol_word(t: Token) -> bool {
    t == Token::Identifier || t == Token::Primitive || t == Token::Keyword || is_binop(t)
}

/// The text of a string token without its quotes.
pub open spec fn unquote(s: Seq<char>) -> Seq<char> {
    s.subrange(1, s.len() - 1)
}

/// Keywords that follow with no gap, appended to a symbol.
pub open spec fn sym_keywords(inp: Input, p: int, sym: Seq<char>, last_end: usize) -> PR<Seq<char>>
    decreases len(inp) - p,
{
    if !(0 <= p <= len(inp)) {
        Err(arbitrary())
    } else {
        let (r, q) = peek(inp, p);
        match r {
            Ok(t) => if t == Token::Keyword && inp.lx[q].start == last_end {
                sym_keywords(inp, q + 1, sym + text(inp, q), inp.lx[q].end)
            } else {
                Ok((sym, q))
            },
            Err(_) => Ok((sym, q)),
        }
    }
}

pub open spec fn literal(inp: Input, p: int) -> PR<LiteralV>
    decreases len(inp) - p, 0nat,
{
    if !(0 <= p <= len(inp)) {
        Err(arbitrary())
    } else {
        let (r, q) = peek(inp, p);
        match r {
            Err(e) => Err(e),
            Ok(t) => if t == Token::Integer {
                Ok((LiteralV::Integer(text(inp, q)), q + 1))
            } else if t == Token::Double {
                Ok((LiteralV::Double(text(inp, q)), q + 1))
            } else if t == Token::Minus {
                let q1 = q + 1;
                let (r2, q2) = peek(inp, q1);
                match r2 {
                    Err(e) => Err(e),
                    Ok(t2) => if t2 == Token::Integer {
                        Ok((LiteralV::Integer(seq!['-'] + text(inp, q2)), q2 + 1))
                    } else if t2 == Token::Double {
                        Ok((LiteralV::Double(seq!['-'] + text(inp, q2)), q2 + 1))
                    } else {
                        Err(ParseError::NumberAfterMinus)
                    },
                }
            } else if t == Token::STString {
                Ok((LiteralV::String(unquote(text(inp, q))), q + 1))
            } else if t == Token::Pound {
                let q1 = q + 1;
                let (r2, q2) = peek(inp, q1);
                match r2 {
                    Err(e) => Err(e),
                    Ok(t2) => if t2 == Token::NewTerm {
                        match array_items(inp, q2 + 1, Seq::empty()) {
                            Err(e) => Err(e),
                            Ok((items, q3)) => match expect(inp, q3, Token::EndTerm) {
                                Err(e) => Err(e),
                                Ok(q4) => Ok((LiteralV::Array(items), q4)),
                            },
                        }
                    } else if q2 >= len(inp) {
                        Err(ParseError::InvalidSymbol)
                    } else if is_symbol_word(t2) {
                        match sym_keywords(inp, q2 + 1, text(inp, q2), inp.lx[q2].end) {
                            Err(e) => Err(e),
                            Ok((sym, q3)) => Ok((LiteralV::Symbol(sym), q3)),
                        }
                    } else if t2 == Token::STString {
                        match sym_keywords(inp, q2 + 1, unquote(text(inp, q2)), inp.lx[q2].end) {
                            Err(e) => Err(e),
                            Ok((sym, q3)) => Ok((LiteralV::Symbol(sym), q3)),
                        }
                    } else {
                        Err(ParseError::InvalidSymbol)
                    },
                }
            } else {
                Err(ParseError::NotALiteral { got: t })
            },
        }
    }
}

/// Literals up to a closing parenthesis, appended to `acc`.
pub open spec fn array_items(inp: Input, p: int, acc: Seq<LiteralV>) -> PR<Seq<LiteralV>>
    decreases len(inp) - p, 1nat,
{
    if !(0 <= p <= len(inp)) {
        Err(arbitrary())
    } else {
        let (r, q) = peek(inp, p);
        match r {
            Err(e) => Err(e),
            Ok(t) => if t != Token::EndTerm {
                match literal(inp, q) {
                    Err(e) => Err(e),
                    Ok((l, q1)) => if q < q1 <= len(inp) {
                        array_items(inp, q1, acc.push(l))
                    } else {
                        Err(arbitrary())
                    },
                }
            } else {
                Ok((acc, q))
            },
        }
    }
}

// ---------------------------------------------------------------------------
// Expressions and blocks
// ---------------------------------------------------------------------------

/// Unary messages for as long as identifiers follow.
pub open spec fn unary_tail(inp: Input, p: int, x: ExprV) -> PR<ExprV>
    decreases len(inp) - p,
{
    if !(0 <= p <= len(inp)) {
        Err(arbitrary())
    } else {
        let (r, q) = peek(inp, p);
        match r {
            Err(e) => Err(e),
            Ok(t) => if t == Token::Identifier || t == Token::Primitive {
                match identifier(inp, q) {
                    Err(e) => Err(e),
                    Ok((name, q1)) => if q < q1 <= len(inp) {
                        unary_tail(inp, q1, ExprV::Message(Box::new(x), MessageV::Unary(name)))
                    } else {
                        Err(arbitrary())
                    },
                }
            } else {
                Ok((x, q))
            },
        }
    }
}

/// Binary messages (each argument with its unary messages) for as long as
/// binary selectors follow.
pub open spec fn binary_tail(inp: Input, p: int, x: ExprV) -> PR<ExprV>
    decreases len(inp) - p, 2nat,
{
    if !(0 <= p <= len(inp)) {
        Err(arbitrary())
    } else {
        let (r, q) = peek(inp, p);
        match r {
            Err(e) => Err(e),
            Ok(t) => if is_binop(t) {
                let op = text(inp, q);
                match primary(inp, q + 1) {
                    Err(e) => Err(e),
                    Ok((a, q2)) => match unary_tail(inp, q2, a) {
                        Err(e) => Err(e),
                        Ok((a2, q3)) => if q < q3 <= len(inp) {
                            binary_tail(inp, q3, ExprV::Message(Box::new(x), MessageV::Binary(op, Box::new(a2))))
                        } else {
                            Err(arbitrary())
                        },
                    },
                }
            } else {
                Ok((x, q))
            },
        }
    }
}

/// The keyword parts of a keyword message, appended to `acc`.
pub open spec fn keyword_parts(inp: Input, p: int, acc: Seq<(Seq<char>, ExprV)>) -> PR<
    Seq<(Seq<char>, ExprV)>,
>
    decreases len(inp) - p, 2nat,
{
    if !(0 <= p <= len(inp)) {
        Err(arbitrary())
    } else {
        let (r, q) = peek(inp, p);
        match r {
            Err(e) => Err(e),
            Ok(t) => if t == Token::Keyword {
                let key = text(inp, q);
                match primary(inp, q + 1) {
                    Err(e) => Err(e),
                    Ok((a, q2)) => match unary_tail(inp, q2, a) {
                        Err(e) => Err(e),
                        Ok((a2, q3)) => if q < q3 <= len(inp) {
                            match binary_tail(inp, q3, a2) {
                                Err(e) => Err(e),
                                Ok((a3, q4)) => if q < q4 <= len(inp) {
                                    keyword_parts(inp, q4, acc.push((key, a3)))
                                } else {
                                    Err(arbitrary())
                                },
                            }
                        } else {
                            Err(arbitrary())
                        },
                    },
                }
            } else {
                Ok((acc, q))
            },
        }
    }
}

/// The messages sent to `x`: unary and binary ones, ending after a keyword message.
pub open spec fn eval_loop(inp: Input, p: int, x: ExprV) -> PR<ExprV>
    decreases len(inp) - p, 3nat,
{
    if !(0 <= p <= len(inp)) {
        Err(arbitrary())
    } else {
        let (r, q) = peek(inp, p);
        match r {
            Err(e) => Err(e),
            Ok(t) => if t == Token::Identifier || t == Token::Primitive {
                match identifier(inp, q) {
                    Err(e) => Err(e),
                    Ok((name, q1)) => if q < q1 <= len(inp) {
                        eval_loop(inp, q1, ExprV::Message(Box::new(x), MessageV::Unary(name)))
                    } else {
                        Err(arbitrary())
                    },
                }
            } else if is_binop(t) {
                let op = text(inp, q);
                match primary(inp, q + 1) {
                    Err(e) => Err(e),
                    Ok((a, q2)) => match unary_tail(inp, q2, a) {
                        Err(e) => Err(e),
                        Ok((a2, q3)) => if q < q3 <= len(inp) {
                            eval_loop(inp, q3, ExprV::Message(Box::new(x), MessageV::Binary(op, Box::new(a2))))
                        } else {
                            Err(arbitrary())
                        },
                    },
                }
            } else if t == Token::Keyword {
                match keyword_parts(inp, q, Seq::empty()) {
                    Err(e) => Err(e),
                    Ok((parts, q1)) => Ok((ExprV::Message(Box::new(x), MessageV::Keyword(parts)), q1)),
                }
            } else {
                Ok((x, q))
            },
        }
    }
}

pub open spec fn evaluation(inp: Input, p: int) -> PR<ExprV>
    decreases len(inp) - p, 4nat,
{
    if !(0 <= p <= len(inp)) {
        Err(arbitrary())
    } else {
        match primary(inp, p) {
            Err(e) => Err(e),
            Ok((x, q)) => if p < q <= len(inp) {
                eval_loop(inp, q, x)
            } else {
                Err(arbitrary())
            },
        }
    }
}

pub open spec fn expression(inp: Input, p: int) -> PR<ExprV>
    decreases len(inp) - p, 5nat,
{
    if !(0 <= p <= len(inp)) {
        Err(arbitrary())
    } else {
        evaluation(inp, p)
    }
}

pub open spec fn primary(inp: Input, p: int) -> PR<ExprV>
    decreases len(inp) - p, 1nat,
{
    if !(0 <= p <= len(inp)) {
        Err(arbitrary())
    } else {
        let (r, q) = peek(inp, p);
        match r {
            Err(e) => Err(e),
            Ok(t) => if t == Token::Identifier || t == Token::Primitive {
                match identifier(inp, q) {
                    Err(e) => Err(e),
                    Ok((name, q1)) => {
                        let (r2, q2) = peek(inp, q1);
                        match r2 {
                            Err(e) => Err(e),
                            Ok(t2) => if t2 == Token::Assign && p < q2 < len(inp) {
                                match expression(inp, q2 + 1) {
                                    Err(e) => Err(e),
                                    Ok((v, q3)) => Ok((ExprV::Assignment(name, Box::new(v)), q3)),
                                }
                            } else if t2 == Token::Assign {
                                Err(arbitrary())
                            } else {
                                Ok((ExprV::Variable(name), q2))
                            },
                        }
                    },
                }
            } else if t == Token::NewTerm {
                match expression(inp, q + 1) {
                    Err(e) => Err(e),
                    Ok((x, q1)) => match expect(inp, q1, Token::EndTerm) {
                        Err(e) => Err(e),
                        Ok(q2) => Ok((x, q2)),
                    },
                }
            } else if t == Token::NewBlock {
                match nested_block(inp, q) {
                    Err(e) => Err(e),
                    Ok((b, q1)) => Ok((ExprV::Block(b), q1)),
                }
            } else if t == Token::Pound || t == Token::Integer || t == Token::Double || t
                == Token::STString || t == Token::Minus {
                match literal(inp, q) {
                    Err(e) => Err(e),
                    Ok((l, q1)) => Ok((ExprV::Literal(l), q1)),
                }
            } else {
                Err(ParseError::Primary { got: t, start: span_start(inp, q), end: span_end(inp, q) })
            },
        }
    }
}

/// Block parameters `:a :b`, appended to `acc`.
pub open spec fn colon_params(inp: Input, p: int, acc: Seq<Seq<char>>) -> PR<Seq<Seq<char>>>
    decreases len(inp) - p,
{
    if !(0 <= p <= len(inp)) {
        Err(arbitrary())
    } else {
        let (r, q) = peek(inp, p);
        match r {
            Err(e) => Err(e),
            Ok(t) => if t == Token::Colon {
                match identifier(inp, q + 1) {
                    Err(e) => Err(e),
                    Ok((name, q1)) => if q < q1 <= len(inp) {
                        colon_params(inp, q1, acc.push(name))
                    } else {
                        Err(arbitrary())
                    },
                }
            } else {
                Ok((acc, q))
            },
        }
    }
}

/// A block in brackets, with its parameters.
pub open spec fn nested_block(inp: Input, p: int) -> PR<BlockV>
    decreases len(inp) - p, 0nat,
{
    if !(0 <= p <= len(inp)) {
        Err(arbitrary())
    } else {
        match expect(inp, p, Token::NewBlock) {
            Err(e) => Err(e),
            Ok(q) => {
                let (r, q0) = peek(inp, q);
                let params: PR<Seq<Seq<char>>> = match r {
                    Err(e) => Err(e),
                    Ok(t) => if t == Token::Colon {
                        match colon_params(inp, q0, Seq::empty()) {
                            Err(e) => Err(e),
                            Ok((ps, q1)) => match expect(inp, q1, Token::Or) {
                                Err(e) => Err(e),
                                Ok(q2) => Ok((ps, q2)),
                            },
                        }
                    } else {
                        Ok((Seq::empty(), q0))
                    },
                };
                match params {
                    Err(e) => Err(e),
                    Ok((ps, q3)) => if p < q3 <= len(inp) {
                        match block_contents(inp, q3) {
                            Err(e) => Err(e),
                            Ok((b, q4)) => match expect(inp, q4, Token::EndBlock) {
                                Err(e) => Err(e),
                                Ok(q5) => Ok((BlockV { parameters: ps, locals: b.locals, body: b.body }, q5)),
                            },
                        }
                    } else {
                        Err(arbitrary())
                    },
                }
            },
        }
    }
}

/// The statements of a block, appended to `body`. A `^` statement ends them;
/// otherwise each statement but the last is followed by a period.
pub open spec fn stmts(inp: Input, p: int, body: Seq<ExprV>) -> PR<Seq<ExprV>>
    decreases len(inp) - p, 6nat,
{
    if !(0 <= p <= len(inp)) {
        Err(arbitrary())
    } else {
        let (r, q) = peek(inp, p);
        match r {
            Err(_) => Ok((body, q)),
            Ok(t) => if t == Token::EndTerm || t == Token::EndBlock {
                Ok((body, q))
            } else if t == Token::Exit {
                match expression(inp, q + 1) {
                    Err(e) => Err(e),
                    Ok((x, q2)) => {
                        let body2 = body.push(ExprV::Return(Box::new(x)));
                        let (r3, q3) = peek(inp, q2);
                        match r3 {
                            Ok(t3) => if t3 == Token::Period {
                                let (r4, q4) = next(inp, q3);
                                match r4 {
                                    Err(e) => Err(e),
                                    Ok(_) => Ok((body2, q4)),
                                }
                            } else {
                                Ok((body2, q3))
                            },
                            Err(_) => Ok((body2, q3)),
                        }
                    },
                }
            } else {
                match expression(inp, q) {
                    Err(e) => Err(e),
                    Ok((x, q1)) => {
                        let body2 = body.push(x);
                        let (r2, q2) = peek(inp, q1);
                        if r2 == Ok::<Token, ParseError>(Token::Period) {
                            let (r3, q3) = next(inp, q2);
                            match r3 {
                                Err(e) => Err(e),
                                Ok(_) => if q < q3 <= len(inp) {
                                    stmts(inp, q3, body2)
                                } else {
                                    Err(arbitrary())
                                },
                            }
                        } else {
                            let (r4, q4) = peek(inp, q2);
                            match r4 {
                                Err(e) => Err(e),
                                Ok(nt) => if nt != Token::EndTerm && nt != Token::EndBlock {
                                    Err(
                                        ParseError::EndOfStatement {
                                            got: nt,
                                            start: span_start(inp, q4),
                                            end: span_end(inp, q4),
                                        },
                                    )
                                } else {
                                    Ok((body2, q4))
                                },
                            }
                        }
                    },
                }
            },
        }
    }
}

/// Locals and statements of a block or method body (without parameters).
pub open spec fn block_contents(inp: Input, p: int) -> PR<BlockV>
    decreases len(inp) - p, 7nat,
{
    if !(0 <= p <= len(inp)) {
        Err(arbitrary())
    } else {
        match fields(inp, p) {
            Err(e) => Err(e),
            Ok((locals, q)) => if p <= q <= len(inp) {
                match stmts(inp, q, Seq::empty()) {
                    Err(e) => Err(e),
                    Ok((body, q1)) => Ok((BlockV { parameters: Seq::empty(), locals, body }, q1)),
                }
            } else {
                Err(arbitrary())
            },
        }
    }
}

} // verus!

verus! {

// ---------------------------------------------------------------------------
// Methods and classes
// ---------------------------------------------------------------------------

/// The parts `key: arg` of a keyword pattern, appended to `acc`.
pub open spec fn keyword_pattern(inp: Input, p: int, acc: Seq<(Seq<char>, Seq<char>)>) -> PR<
    Seq<(Seq<char>, Seq<char>)>,
>
    decreases len(inp) - p,
{
    if !(0 <= p <= len(inp)) {
        Err(arbitrary())
    } else {
        let (r, q) = peek(inp, p);
        match r {
            Err(e) => Err(e),
            Ok(t) => if t == Token::Keyword {
                let key = text(inp, q);
                match identifier(inp, q + 1) {
                    Err(e) => Err(e),
                    Ok((arg, q1)) => if q < q1 <= len(inp) {
                        keyword_pattern(inp, q1, acc.push((key, arg)))
                    } else {
                        Err(arbitrary())
                    },
                }
            } else {
                Ok((acc, q))
            },
        }
    }
}

/// A method pattern.
pub open spec fn signature(inp: Input, p: int) -> PR<SignatureV> {
    let (r, q) = peek(inp, p);
    match r {
        Err(e) => Err(e),
        Ok(t) => if t == Token::Identifier || t == Token::Primitive {
            match identifier(inp, q) {
                Err(e) => Err(e),
                Ok((n, q1)) => Ok((SignatureV::Unary(n), q1)),
            }
        } else if t == Token::Keyword {
            match keyword_pattern(inp, q, Seq::empty()) {
                Err(e) => Err(e),
                Ok((parts, q1)) => Ok((SignatureV::Keyword(parts), q1)),
            }
        } else {
            match binary_selector(inp, q) {
                Err(e) => Err(e),
                Ok((op, q1)) => match identifier(inp, q1) {
                    Err(e) => Err(e),
                    Ok((arg, q2)) => Ok((SignatureV::Binary(op, arg), q2)),
                },
            }
        },
    }
}

/// A method body in parentheses.
pub open spec fn method_block(inp: Input, p: int) -> PR<BlockV> {
    match expect(inp, p, Token::NewTerm) {
        Err(e) => Err(e),
        Ok(q) => match block_contents(inp, q) {
            Err(e) => Err(e),
            Ok((b, q1)) => match expect(inp, q1, Token::EndTerm) {
                Err(e) => Err(e),
                Ok(q2) => Ok((b, q2)),
            },
        },
    }
}

/// A method: `pattern = primitive` or `pattern = ( body )`.
pub open spec fn method(inp: Input, p: int) -> PR<MethodDefV> {
    match signature(inp, p) {
        Err(e) => Err(e),
        Ok((sig, q)) => match expect(inp, q, Token::Equal) {
            Err(e) => Err(e),
            Ok(q1) => {
                let (r, q2) = peek(inp, q1);
                match r {
                    Err(e) => Err(e),
                    Ok(t) => if t == Token::Primitive {
                        Ok((MethodDefV { signature: sig, body: MethodBodyV::Primitive }, q2 + 1))
                    } else {
                        match method_block(inp, q2) {
                            Err(e) => Err(e),
                            Ok((b, q3)) => Ok((MethodDefV { signature: sig, body: MethodBodyV::Block(b) }, q3)),
                        }
                    },
                }
            },
        },
    }
}

/// Methods for as long as a method pattern follows, appended to `acc`.
pub open spec fn methods(inp: Input, p: int, acc: Seq<MethodDefV>) -> PR<Seq<MethodDefV>>
    decreases len(inp) - p,
{
    if !(0 <= p <= len(inp)) {
        Err(arbitrary())
    } else {
        let (r, q) = peek(inp, p);
        match r {
            Err(e) => Err(e),
            Ok(t) => if is_pattern_token(t) {
                match method(inp, q) {
                    Err(e) => Err(e),
                    Ok((m, q1)) => if q < q1 <= len(inp) {
                        methods(inp, q1, acc.push(m))
                    } else {
                        Err(arbitrary())
                    },
                }
            } else {
                Ok((acc, q))
            },
        }
    }
}

/// A class definition: `Name = Super ( |fields| methods ---- |fields| methods )`,
/// the superclass and the class side being optional.
pub open spec fn class(inp: Input, p: int) -> PR<ClassDefV> {
    match identifier(inp, p) {
        Err(e) => Err(e),
        Ok((name, q)) => match expect(inp, q, Token::Equal) {
            Err(e) => Err(e),
            Ok(q1) => {
                let (r, q2) = peek(inp, q1);
                let sup: PR<Option<Seq<char>>> = match r {
                    Err(e) => Err(e),
                    Ok(t) => if t == Token::Identifier {
                        match identifier(inp, q2) {
                            Err(e) => Err(e),
                            Ok((s, q3)) => Ok((Some(s), q3)),
                        }
                    } else {
                        Ok((None, q2))
                    },
                };
                match sup {
                    Err(e) => Err(e),
                    Ok((super_class, q4)) => match expect(inp, q4, Token::NewTerm) {
                        Err(e) => Err(e),
                        Ok(q5) => match fields(inp, q5) {
                            Err(e) => Err(e),
                            Ok((ifields, q6)) => match methods(inp, q6, Seq::empty()) {
                                Err(e) => Err(e),
                                Ok((imethods, q7)) => {
                                    let (r8, q8) = peek(inp, q7);
                                    let class_side: PR<(Seq<Seq<char>>, Seq<MethodDefV>)> = match r8 {
                                        Err(e) => Err(e),
                                        Ok(t) => if t == Token::Separator {
                                            match fields(inp, q8 + 1) {
                                                Err(e) => Err(e),
                                                Ok((cfields, q9)) => match methods(inp, q9, Seq::empty()) {
                                                    Err(e) => Err(e),
                                                    Ok((cmethods, q10)) => Ok(((cfields, cmethods), q10)),
                                                },
                                            }
                                        } else {
                                            Ok(((Seq::empty(), Seq::empty()), q8))
                                        },
                                    };
                                    match class_side {
                                        Err(e) => Err(e),
                                        Ok(((cfields, cmethods), q11)) => match expect(inp, q11, Token::EndTerm) {
                                            Err(e) => Err(e),
                                            Ok(q12) => Ok((
                                                ClassDefV {
                                                    name,
                                                    super_class,
                                                    instance_fields: ifields,
                                                    instance_methods: imethods,
                                                    class_fields: cfields,
                                                    class_methods: cmethods,
                                                },
                                                q12,
                                            )),
                                        },
                                    }
                                },
                            },
                        },
                    },
                }
            },
        },
    }
}

/// The input made from a source text.
pub open spec fn input_of(s: Seq<char>) -> Input {
    Input { chars: s, lx: lex(s) }
}

/// What parsing a whole source text as a class gives.
pub open spec fn parse_class_spec(s: Seq<char>) -> Result<ClassDefV, ParseError> {
    match class(input_of(s), 0) {
        Ok((c, _)) => Ok(c),
        Err(e) => Err(e),
    }
}

// ---------------------------------------------------------------------------
// Error messages
// ---------------------------------------------------------------------------

/// The name of a token, as error messages show it.
pub open spec fn token_name(t: Token) -> Seq<char> {
    match t {
        Token::Primitive => "Primitive"@,
        Token::Identifier => "Identifier"@,
        Token::Equal => "Equal"@,
        Token::Separator => "Separator"@,
        Token::NewTerm => "NewTerm"@,
        Token::EndTerm => "EndTerm"@,
        Token::Or => "Or"@,
        Token::Comma => "Comma"@,
        Token::Minus => "Minus"@,
        Token::Not => "Not"@,
        Token::And => "And"@,
        Token::Star => "Star"@,
        Token::Div => "Div"@,
        Token::Mod => "Mod"@,
        Token::Plus => "Plus"@,
        Token::More => "More"@,
        Token::Less => "Less"@,
        Token::At => "At"@,
        Token::Per => "Per"@,
        Token::OperatorSequence => "OperatorSequence"@,
        Token::Colon => "Colon"@,
        Token::NewBlock => "NewBlock"@,
        Token::EndBlock => "EndBlock"@,
        Token::Pound => "Pound"@,
        Token::Exit => "Exit"@,
        Token::Period => "Period"@,
        Token::Assign => "Assign"@,
        Token::Integer => "Integer"@,
        Token::Double => "Double"@,
        Token::Keyword => "Keyword"@,
        Token::STString => "STString"@,
    }
}

/// The characters `start..end` of `chars`, or nothing where that range does
/// not lie within them.
pub open spec fn excerpt(chars: Seq<char>, start: usize, end: usize) -> Seq<char> {
    if start <= end <= chars.len() {
        chars.subrange(start as int, end as int)
    } else {
        Seq::empty()
    }
}

/// The message that describes `e`, met while parsing `chars`.
pub open spec fn error_text(e: ParseError, chars: Seq<char>) -> Seq<char> {
    match e {
        ParseError::Lex { offset } => "Lex error at offset "@ + decimal(offset as nat),
        ParseError::Expected { expected, got } => "Expected "@ + token_name(expected) + ", got "@ + token_name(got),
        ParseError::EndOfStatement { got, start, end } => "Expected '.' or end of block, got "@ + token_name(got)
            + " ('"@ + excerpt(chars, start, end) + "') at offset "@ + decimal(start as nat),
        ParseError::Primary { got, start, end } => "Unexpected token in primary: "@ + token_name(got) + " ('"@
            + excerpt(chars, start, end) + "') at offset "@ + decimal(start as nat),
        ParseError::NumberAfterMinus => "Expected number after Minus in literal"@,
        ParseError::InvalidSymbol => "Invalid symbol after #"@,
        ParseError::NotALiteral { got } => "Expected literal, got "@ + token_name(got),
    }
}

} // verus!

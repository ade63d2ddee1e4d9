use vstd::prelude::*;

verus! {

/// The tokens of SOM source text.
#[derive(Debug, Clone, Copy, PartialEq, Eq, Structural)]
pub enum Token {
    Primitive,
    Identifier,
    Equal,
    Separator,
    NewTerm,
    EndTerm,
    Or,
    Comma,
    Minus,
    Not,
    And,
    Star,
    Div,
    Mod,
    Plus,
    More,
    Less,
    At,
    Per,
    OperatorSequence,
    Colon,
    NewBlock,
    EndBlock,
    Pound,
    Exit,
    Period,
    Assign,
    Integer,
    Double,
    Keyword,
    STString,
}

/// One token of the input together with the character range it covers;
/// `token` is `None` where the characters start no token.
#[derive(Debug, Clone, Copy, PartialEq, Eq, Structural)]
pub struct Lexeme {
    pub token: Option<Token>,
    pub start: usize,
    pub end: usize,
}

// ---------------------------------------------------------------------------
// Character classes
// ---------------------------------------------------------------------------

pub open spec fn is_space(c: char) -> bool {
    c == ' ' || c == '\t' || c == '\r' || c == '\n' || c == '\x0c'
}

pub open spec fn is_letter(c: char) -> bool {
    ('a' <= c && c <= 'z') || ('A' <= c && c <= 'Z')
}

pub open spec fn is_digit(c: char) -> bool {
    '0' <= c && c <= '9'
}

pub open spec fn is_ident_char(c: char) -> bool {
    is_letter(c) || is_digit(c) || c == '_'
}

/// Characters that may form an operator sequence.
pub open spec fn is_op_char(c: char) -> bool {
    c == '~' || c == '&' || c == '|' || c == '*' || c == '/' || c == '\\' || c == '+'
        || c == '>' || c == '=' || c == '<' || c == '@' || c == '%' || c == '!' || c == '-'
}

pub open spec fn is_dash(c: char) -> bool {
    c == '-'
}

// ---------------------------------------------------------------------------
// Scanning helpers (spec)
// ---------------------------------------------------------------------------

/// Number of consecutive characters from `i` on that satisfy `p`.
pub open spec fn run_len(s: Seq<char>, i: int, p: spec_fn(char) -> bool) -> nat
    decreases s.len() - i,
{
    if i < 0 || i >= s.len() || !p(s[i]) {
        0
    } else {
        1 + run_len(s, i + 1, p)
    }
}

/// Position of the first `c` at or after `i`.
pub open spec fn find_char(s: Seq<char>, i: int, c: char) -> Option<int>
    decreases s.len() - i,
{
    if i < 0 || i >= s.len() {
        None
    } else if s[i] == c {
        Some(i)
    } else {
        find_char(s, i + 1, c)
    }
}

/// Position of the quote that closes a string literal whose body starts at `i`,
/// where a backslash makes the next character part of the body.
pub open spec fn string_close(s: Seq<char>, i: int, escaped: bool) -> Option<int>
    decreases s.len() - i,
{
    if i < 0 || i >= s.len() {
        None
    } else if escaped {
        string_close(s, i + 1, false)
    } else if s[i] == '\\' {
        string_close(s, i + 1, true)
    } else if s[i] == '\'' {
        Some(i)
    } else {
        string_close(s, i + 1, false)
    }
}

/// The token of a single operator character standing alone.
pub open spec fn single_op_token(c: char) -> Token {
    if c == '=' {
        Token::Equal
    } else if c == '|' {
        Token::Or
    } else if c == '-' {
        Token::Minus
    } else if c == '~' {
        Token::Not
    } else if c == '&' {
        Token::And
    } else if c == '*' {
        Token::Star
    } else if c == '/' {
        Token::Div
    } else if c == '\\' {
        Token::Mod
    } else if c == '+' {
        Token::Plus
    } else if c == '>' {
        Token::More
    } else if c == '<' {
        Token::Less
    } else if c == '@' {
        Token::At
    } else if c == '%' {
        Token::Per
    } else {
        Token::OperatorSequence
    }
}

pub open spec fn is_primitive_word(s: Seq<char>, i: int, n: int) -> bool {
    n == 9 && s.subrange(i, i + 9) =~= seq!['p', 'r', 'i', 'm', 'i', 't', 'i', 'v', 'e']
}

/// The longest token that starts at `i` (which holds no blank, comment or
/// unclosed quote), as the token and its length; `None` when no token starts there.
pub open spec fn scan_token(s: Seq<char>, i: int) -> Option<(Token, nat)> {
    if i < 0 || i >= s.len() {
        None
    } else {
        let c = s[i];
        if is_letter(c) {
            let n = 1 + run_len(s, i + 1, |x: char| is_ident_char(x));
            if i + n < s.len() && s[i + n] == ':' {
                Some((Token::Keyword, (n + 1) as nat))
            } else if is_primitive_word(s, i, n as int) {
                Some((Token::Primitive, n as nat))
            } else {
                Some((Token::Identifier, n as nat))
            }
        } else if is_digit(c) {
            let n = 1 + run_len(s, i + 1, |x: char| is_digit(x));
            if i + n < s.len() && i + n + 1 < s.len() && s[i + n] == '.' && is_digit(s[i + n + 1]) {
                let m = run_len(s, i + n + 1, |x: char| is_digit(x));
                Some((Token::Double, (n + 1 + m) as nat))
            } else {
                Some((Token::Integer, n as nat))
            }
        } else if c == '\'' {
            match string_close(s, i + 1, false) {
                Some(q) => Some((Token::STString, (q + 1 - i) as nat)),
                None => None,
            }
        } else if c == ':' {
            if i + 1 < s.len() && s[i + 1] == '=' {
                Some((Token::Assign, 2))
            } else {
                Some((Token::Colon, 1))
            }
        } else if c == '(' {
            Some((Token::NewTerm, 1))
        } else if c == ')' {
            Some((Token::EndTerm, 1))
        } else if c == '[' {
            Some((Token::NewBlock, 1))
        } else if c == ']' {
            Some((Token::EndBlock, 1))
        } else if c == '#' {
            Some((Token::Pound, 1))
        } else if c == '^' {
            Some((Token::Exit, 1))
        } else if c == '.' {
            Some((Token::Period, 1))
        } else if c == ',' {
            Some((Token::Comma, 1))
        } else if is_op_char(c) {
            let n = run_len(s, i, |x: char| is_op_char(x));
            let d = run_len(s, i, |x: char| is_dash(x));
            if n == 1 {
                Some((single_op_token(c), 1))
            } else if d >= 4 && d == n {
                Some((Token::Separator, n))
            } else {
                Some((Token::OperatorSequence, n))
            }
        } else {
            None
        }
    }
}

/// The tokens of `s` from position `i` on, skipping blanks, comments and
/// quotes that no later quote closes. A character at which no token starts
/// gives an error item and lexing goes on after it; a comment that is never
/// closed gives an error item reaching to the end.
pub open spec fn lex_from(s: Seq<char>, i: int) -> Seq<Lexeme>
    decreases s.len() - i,
{
    if i < 0 || i >= s.len() {
        Seq::empty()
    } else if is_space(s[i]) {
        lex_from(s, i + 1)
    } else if s[i] == '"' {
        match find_char(s, i + 1, '"') {
            Some(j) => {
                proof {
                    lemma_find_char_bounds(s, i + 1, '"');
                }
                lex_from(s, j + 1)
            },
            None => seq![Lexeme { token: None, start: i as usize, end: s.len() as usize }],
        }
    } else if s[i] == '\'' && string_close(s, i + 1, false) is None {
        lex_from(s, i + 1)
    } else {
        match scan_token(s, i) {
            None => seq![Lexeme { token: None, start: i as usize, end: (i + 1) as usize }] + lex_from(s, i + 1),
            Some((t, n)) => {
                proof {
                    lemma_scan_token_len(s, i);
                }
                seq![Lexeme { token: Some(t), start: i as usize, end: (i + n) as usize }] + lex_from(s, i + n)
            },
        }
    }
}

/// What the lexer makes of a whole source text.
pub open spec fn lex(s: Seq<char>) -> Seq<Lexeme> {
    lex_from(s, 0)
}

// ---------------------------------------------------------------------------
// Lemmas
// ---------------------------------------------------------------------------

pub proof fn lemma_run_len_bounds(s: Seq<char>, i: int, p: spec_fn(char) -> bool)
    ensures
        0 <= i ==> i + run_len(s, i, p) <= s.len() || run_len(s, i, p) == 0,
        forall|k: int| i <= k < i + run_len(s, i, p) ==> p(#[trigger] s[k]),
        0 <= i && i + run_len(s, i, p) < s.len() ==> !p(s[i + run_len(s, i, p)]),
    decreases s.len() - i,
{
    if i < 0 || i >= s.len() || !p(s[i]) {
    } else {
        lemma_run_len_bounds(s, i + 1, p);
    }
}

pub proof fn lemma_find_char_bounds(s: Seq<char>, i: int, c: char)
    ensures
        find_char(s, i, c) matches Some(j) ==> i <= j < s.len() && 0 <= j && s[j] == c,
    decreases s.len() - i,
{
    if i < 0 || i >= s.len() {
    } else if s[i] == c {
    } else {
        lemma_find_char_bounds(s, i + 1, c);
    }
}

pub proof fn lemma_string_close_bounds(s: Seq<char>, i: int, escaped: bool)
    ensures
        string_close(s, i, escaped) matches Some(j) ==> i <= j < s.len() && 0 <= j,
    decreases s.len() - i,
{
    if i < 0 || i >= s.len() {
    } else if escaped {
        lemma_string_close_bounds(s, i + 1, false);
    } else if s[i] == '\\' {
        lemma_string_close_bounds(s, i + 1, true);
    } else if s[i] == '\'' {
    } else {
        lemma_string_close_bounds(s, i + 1, false);
    }
}

pub proof fn lemma_scan_token_len(s: Seq<char>, i: int)
    ensures
        scan_token(s, i) matches Some((t, n)) ==> n >= 1 && i + n <= s.len(),
{
    if 0 <= i < s.len() {
        let c = s[i];
        lemma_run_len_bounds(s, i + 1, |x: char| is_ident_char(x));
        lemma_run_len_bounds(s, i + 1, |x: char| is_digit(x));
        let n = 1 + run_len(s, i + 1, |x: char| is_digit(x));
        lemma_run_len_bounds(s, i + n + 1, |x: char| is_digit(x));
        lemma_run_len_bounds(s, i, |x: char| is_op_char(x));
        lemma_string_close_bounds(s, i + 1, false);
    }
}

// ---------------------------------------------------------------------------
// Executable lexer
// ---------------------------------------------------------------------------

fn char_is_space(c: char) -> (r: bool)
    ensures
        r == is_space(c),
{
    c == ' ' || c == '\t' || c == '\r' || c == '\n' || c == '\x0c'
}

fn char_is_letter(c: char) -> (r: bool)
    ensures
        r == is_letter(c),
{
    ('a' <= c && c <= 'z') || ('A' <= c && c <= 'Z')
}

fn char_is_digit(c: char) -> (r: bool)
    ensures
        r == is_digit(c),
{
    '0' <= c && c <= '9'
}

fn char_is_ident(c: char) -> (r: bool)
    ensures
        r == is_ident_char(c),
{
    char_is_letter(c) || char_is_digit(c) || c == '_'
}

fn char_is_op(c: char) -> (r: bool)
    ensures
        r == is_op_char(c),
{
    c == '~' || c == '&' || c == '|' || c == '*' || c == '/' || c == '\\' || c == '+' || c == '>'
        || c == '=' || c == '<' || c == '@' || c == '%' || c == '!' || c == '-'
}

/// Which character class a run is made of.
#[derive(Clone, Copy)]
enum RunClass {
    Ident,
    Digit,
    Op,
    Dash,
}

spec fn class_pred(k: RunClass) -> spec_fn(char) -> bool {
    match k {
        RunClass::Ident => |x: char| is_ident_char(x),
        RunClass::Digit => |x: char| is_digit(x),
        RunClass::Op => |x: char| is_op_char(x),
        RunClass::Dash => |x: char| is_dash(x),
    }
}

fn in_class(k: RunClass, c: char) -> (r: bool)
    ensures
        r == (class_pred(k))(c),
{
    match k {
        RunClass::Ident => char_is_ident(c),
        RunClass::Digit => char_is_digit(c),
        RunClass::Op => char_is_op(c),
        RunClass::Dash => c == '-',
    }
}

proof fn lemma_run_len_step(s: Seq<char>, i: int, j: int, p: spec_fn(char) -> bool)
    requires
        0 <= i <= j <= s.len(),
        forall|k: int| i <= k < j ==> p(#[trigger] s[k]),
    ensures
        run_len(s, i, p) == (j - i) + run_len(s, j, p),
    decreases j - i,
{
    if i < j {
        lemma_run_len_step(s, i + 1, j, p);
    }
}

fn exec_run_len(s: &Vec<char>, i: usize, k: RunClass) -> (n: usize)
    requires
        i <= s.len(),
    ensures
        n == run_len(s@, i as int, class_pred(k)),
        i + n <= s.len(),
{
    let mut j = i;
    while j < s.len() && in_class(k, s[j])
        invariant
            i <= j <= s.len(),
            forall|m: int| i <= m < j ==> (class_pred(k))(#[trigger] s@[m]),
        decreases s.len() - j,
    {
        j = j + 1;
    }
    proof {
        lemma_run_len_step(s@, i as int, j as int, class_pred(k));
    }
    j - i
}

fn exec_find_char(s: &Vec<char>, i: usize, c: char) -> (r: Option<usize>)
    requires
        i <= s.len(),
    ensures
        match r {
            Some(j) => find_char(s@, i as int, c) == Some(j as int),
            None => find_char(s@, i as int, c) is None,
        },
{
    let mut j = i;
    while j < s.len()
        invariant
            i <= j <= s.len(),
            find_char(s@, i as int, c) == find_char(s@, j as int, c),
        decreases s.len() - j,
    {
        if s[j] == c {
            return Some(j);
        }
        j = j + 1;
    }
    None
}

fn exec_string_close(s: &Vec<char>, i: usize) -> (r: Option<usize>)
    requires
        i <= s.len(),
    ensures
        match r {
            Some(j) => string_close(s@, i as int, false) == Some(j as int),
            None => string_close(s@, i as int, false) is None,
        },
{
    let mut j = i;
    let mut escaped = false;
    while j < s.len()
        invariant
            i <= j <= s.len(),
            string_close(s@, i as int, false) == string_close(s@, j as int, escaped),
        decreases s.len() - j,
    {
        let c = s[j];
        if escaped {
            escaped = false;
        } else if c == '\\' {
            escaped = true;
        } else if c == '\'' {
            return Some(j);
        }
        j = j + 1;
    }
    None
}

fn exec_single_op_token(c: char) -> (t: Token)
    ensures
        t == single_op_token(c),
{
    if c == '=' {
        Token::Equal
    } else if c == '|' {
        Token::Or
    } else if c == '-' {
        Token::Minus
    } else if c == '~' {
        Token::Not
    } else if c == '&' {
        Token::And
    } else if c == '*' {
        Token::Star
    } else if c == '/' {
        Token::Div
    } else if c == '\\' {
        Token::Mod
    } else if c == '+' {
        Token::Plus
    } else if c == '>' {
        Token::More
    } else if c == '<' {
        Token::Less
    } else if c == '@' {
        Token::At
    } else if c == '%' {
        Token::Per
    } else {
        Token::OperatorSequence
    }
}

fn exec_is_primitive_word(s: &Vec<char>, i: usize, n: usize) -> (r: bool)
    requires
        i + n <= s.len(),
    ensures
        r == is_primitive_word(s@, i as int, n as int),
{
    if n != 9 {
        return false;
    }
    let r = s[i] == 'p' && s[i + 1] == 'r' && s[i + 2] == 'i' && s[i + 3] == 'm' && s[i + 4] == 'i'
        && s[i + 5] == 't' && s[i + 6] == 'i' && s[i + 7] == 'v' && s[i + 8] == 'e';
    proof {
        let w = seq!['p', 'r', 'i', 'm', 'i', 't', 'i', 'v', 'e'];
        let sub = s@.subrange(i as int, i + 9);
        if r {
            assert(sub =~= w);
        } else if sub =~= w {
            assert(sub[0] == w[0] && sub[1] == w[1] && sub[2] == w[2] && sub[3] == w[3]);
            assert(sub[4] == w[4] && sub[5] == w[5] && sub[6] == w[6] && sub[7] == w[7]);
            assert(sub[8] == w[8]);
        }
    }
    r
}

/// The longest token starting at `i`, as the token and its length.
fn exec_scan_token(s: &Vec<char>, i: usize) -> (r: Option<(Token, usize)>)
    requires
        i < s.len(),
    ensures
        match r {
            Some((t, n)) => scan_token(s@, i as int) == Some((t, n as nat)),
            None => scan_token(s@, i as int) is None,
        },
{
    proof {
        lemma_scan_token_len(s@, i as int);
    }
    let c = s[i];
    if char_is_letter(c) {
        let n = 1 + exec_run_len(s, i + 1, RunClass::Ident);
        if i + n < s.len() && s[i + n] == ':' {
            Some((Token::Keyword, n + 1))
        } else if exec_is_primitive_word(s, i, n) {
            Some((Token::Primitive, n))
        } else {
            Some((Token::Identifier, n))
        }
    } else if char_is_digit(c) {
        let n = 1 + exec_run_len(s, i + 1, RunClass::Digit);
        if i + n < s.len() && i + n + 1 < s.len() && s[i + n] == '.' && char_is_digit(s[i + n + 1]) {
            let m = exec_run_len(s, i + n + 1, RunClass::Digit);
            Some((Token::Double, n + 1 + m))
        } else {
            Some((Token::Integer, n))
        }
    } else if c == '\'' {
        match exec_string_close(s, i + 1) {
            Some(q) => {
                proof {
                    lemma_string_close_bounds(s@, i + 1, false);
                }
                Some((Token::STString, q + 1 - i))
            },
            None => None,
        }
    } else if c == ':' {
        if i + 1 < s.len() && s[i + 1] == '=' {
            Some((Token::Assign, 2))
        } else {
            Some((Token::Colon, 1))
        }
    } else if c == '(' {
        Some((Token::NewTerm, 1))
    } else if c == ')' {
        Some((Token::EndTerm, 1))
    } else if c == '[' {
        Some((Token::NewBlock, 1))
    } else if c == ']' {
        Some((Token::EndBlock, 1))
    } else if c == '#' {
        Some((Token::Pound, 1))
    } else if c == '^' {
        Some((Token::Exit, 1))
    } else if c == '.' {
        Some((Token::Period, 1))
    } else if c == ',' {
        Some((Token::Comma, 1))
    } else if char_is_op(c) {
        let n = exec_run_len(s, i, RunClass::Op);
        let d = exec_run_len(s, i, RunClass::Dash);
        if n == 1 {
            Some((exec_single_op_token(c), 1))
        } else if d >= 4 && d == n {
            Some((Token::Separator, n))
        } else {
            Some((Token::OperatorSequence, n))
        }
    } else {
        None
    }
}

/// Splits a source text into tokens, skipping blanks, comments (text between
/// double quotes) and quotes that no later quote closes; characters at which
/// no token starts give error items.
pub fn tokenize(s: &Vec<char>) -> (r: Vec<Lexeme>)
    ensures
        r@ == lex(s@),
{
    let mut out: Vec<Lexeme> = Vec::new();
    let mut i: usize = 0;
    while i < s.len()
        invariant
            i <= s.len(),
            lex(s@) == out@ + lex_from(s@, i as int),
        decreases s.len() - i,
    {
        let c = s[i];
        if char_is_space(c) {
            i = i + 1;
        } else if c == '"' {
            match exec_find_char(s, i + 1, '"') {
                Some(j) => {
                    proof {
                        lemma_find_char_bounds(s@, i + 1, '"');
                    }
                    i = j + 1;
                },
                None => {
                    let lx = Lexeme { token: None, start: i, end: s.len() };
                    out.push(lx);
                    assert(lex_from(s@, i as int) == seq![lx]);
                    assert(lex(s@) =~= out@);
                    return out;
                },
            }
        } else if c == '\'' && exec_string_close(s, i + 1).is_none() {
            i = i + 1;
        } else {
            match exec_scan_token(s, i) {
                None => {
                    let lx = Lexeme { token: None, start: i, end: i + 1 };
                    let ghost old_out = out@;
                    out.push(lx);
                    proof {
                        let rest = lex_from(s@, (i + 1) as int);
                        assert(lex_from(s@, i as int) == seq![lx] + rest);
                        assert(old_out + (seq![lx] + rest) =~= out@ + rest);
                    }
                    i = i + 1;
                },
                Some((t, n)) => {
                    proof {
                        lemma_scan_token_len(s@, i as int);
                    }
                    let lx = Lexeme { token: Some(t), start: i, end: i + n };
                    let ghost old_out = out@;
                    out.push(lx);
                    proof {
                        let rest = lex_from(s@, (i + n) as int);
                        assert(lex_from(s@, i as int) == seq![lx] + rest);
                        assert(old_out + (seq![lx] + rest) =~= out@ + rest);
                    }
                    i = i + n;
                },
            }
        }
    }
    assert(out@ + Seq::<Lexeme>::empty() =~= out@);
    out
}


/// A run of `n` characters satisfying `p` that ends the text or is followed
/// by one that does not is scanned as `n` long.
proof fn lemma_run_len_exact(s: Seq<char>, i: int, n: int, p: spec_fn(char) -> bool)
    requires
        0 <= i,
        0 <= n,
        i + n <= s.len(),
        forall|k: int| i <= k < i + n ==> p(#[trigger] s[k]),
        i + n == s.len() || !p(s[i + n]),
    ensures
        run_len(s, i, p) == n,
{
    lemma_run_len_step(s, i, i + n, p);
}

/// Four or more dashes in a row, not followed by another operator
/// character, are one separator token as long as the run; whatever the
/// class-side separator's length.
pub proof fn law_dash_run_is_separator(s: Seq<char>, i: int, n: int)
    requires
        0 <= i,
        n >= 4,
        i + n <= s.len(),
        forall|k: int| i <= k < i + n ==> #[trigger] s[k] == '-',
        i + n == s.len() || !is_op_char(s[i + n]),
    ensures
        scan_token(s, i) == Some((Token::Separator, n as nat)),
{
    assert(s[i] == '-');
    let op = |x: char| is_op_char(x);
    let dash = |x: char| is_dash(x);
    lemma_run_len_exact(s, i, n, op);
    if i + n < s.len() {
        assert(!is_dash(s[i + n]));
    }
    lemma_run_len_exact(s, i, n, dash);
}

} // verus!

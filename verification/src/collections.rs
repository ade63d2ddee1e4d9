use vstd::prelude::*;
use crate::object::{CellV, Heap, HeapCell, Value, ValueV, value_ok, values_view};
use crate::serialize::{integer_digits, integer_text_ok};
use crate::text::{chars_of, push_char};

verus! {

/// The largest array that `Array new:` makes.
pub const MAX_ARRAY_SIZE: usize = 100_000_000;

/// Why a primitive on strings or arrays failed.
#[derive(Debug, Clone, Copy, PartialEq, Eq, Structural)]
pub enum PrimitiveError {
    /// `Array new:` with a negative size.
    NegativeSize,
    /// `Array new:` with a size above [`MAX_ARRAY_SIZE`].
    SizeTooLarge,
    /// An index below 1 or above the size of the array.
    IndexOutOfBounds,
}

// ---------------------------------------------------------------------------
// Numbers
// ---------------------------------------------------------------------------

pub open spec fn digit_value(c: char) -> int {
    c as int - '0' as int
}

/// The number that a string of decimal digits denotes.
pub open spec fn digits_value(d: Seq<char>) -> int
    decreases d.len(),
{
    if d.len() == 0 {
        0
    } else {
        digits_value(d.drop_last()) * 10 + digit_value(d.last())
    }
}

/// The integer that an integer text denotes.
pub open spec fn integer_value(t: Seq<char>) -> int {
    if t.len() > 0 && t[0] == '-' {
        -digits_value(t.drop_first())
    } else {
        digits_value(t)
    }
}

/// The integer as an `i64`, when it fits.
pub open spec fn to_i64(t: Seq<char>) -> Option<i64> {
    let v = integer_value(t);
    if i64::MIN <= v <= i64::MAX {
        Some(v as i64)
    } else {
        None
    }
}

pub open spec fn digit_char(d: int) -> char {
    if d == 0 {
        '0'
    } else if d == 1 {
        '1'
    } else if d == 2 {
        '2'
    } else if d == 3 {
        '3'
    } else if d == 4 {
        '4'
    } else if d == 5 {
        '5'
    } else if d == 6 {
        '6'
    } else if d == 7 {
        '7'
    } else if d == 8 {
        '8'
    } else {
        '9'
    }
}

/// The decimal text of a natural number.
pub open spec fn decimal(n: nat) -> Seq<char>
    decreases n,
{
    if n < 10 {
        seq![digit_char(n as int)]
    } else {
        decimal(n / 10).push(digit_char((n % 10) as int))
    }
}

pub(crate) fn exec_digit_char(d: usize) -> (c: char)
    requires
        d < 10,
    ensures
        c == digit_char(d as int),
{
    if d == 0 {
        '0'
    } else if d == 1 {
        '1'
    } else if d == 2 {
        '2'
    } else if d == 3 {
        '3'
    } else if d == 4 {
        '4'
    } else if d == 5 {
        '5'
    } else if d == 6 {
        '6'
    } else if d == 7 {
        '7'
    } else if d == 8 {
        '8'
    } else {
        '9'
    }
}

/// The decimal text of `n`.
pub fn decimal_text(n: usize) -> (s: String)
    ensures
        s@ == decimal(n as nat),
    decreases n,
{
    if n < 10 {
        let mut s = String::new();
        push_char(&mut s, exec_digit_char(n));
        assert(s@ =~= seq![digit_char(n as int)]);
        s
    } else {
        let mut s = decimal_text(n / 10);
        push_char(&mut s, exec_digit_char(n % 10));
        s
    }
}

/// A bound above every `i64`, at which the value of a long text is held.
pub open spec fn cap() -> int {
    0x8000_0000_0000_0001
}

pub open spec fn capped(v: int) -> int {
    if v < cap() {
        v
    } else {
        cap()
    }
}

proof fn lemma_digits_value_nonneg(d: Seq<char>)
    requires
        forall|i: int| 0 <= i < d.len() ==> '0' <= #[trigger] d[i] <= '9',
    ensures
        digits_value(d) >= 0,
    decreases d.len(),
{
    if d.len() > 0 {
        lemma_digits_value_nonneg(d.drop_last());
    }
}

/// The value of the digits of `t` (after an optional `-`), held at `cap()`
/// when larger.
fn capped_digits(t: &String) -> (r: u128)
    requires
        integer_text_ok(t@),
    ensures
        r == capped(digits_value(integer_digits(t@))),
{
    let c = chars_of(t.as_str());
    let n = c.len();
    let start: usize = if n > 0 && c[0] == '-' { 1 } else { 0 };
    let ghost d = integer_digits(t@);
    assert(d =~= c@.subrange(start as int, n as int));
    let mut acc: u128 = 0;
    let mut i = start;
    while i < n
        invariant
            start <= i <= n,
            n == c@.len(),
            d == integer_digits(t@),
            d == c@.subrange(start as int, n as int),
            integer_text_ok(t@),
            acc == capped(digits_value(c@.subrange(start as int, i as int))),
        decreases n - i,
    {
        let ch = c[i];
        assert(d[i - start] == ch);
        let dg: u128 = if ch == '0' {
            0
        } else if ch == '1' {
            1
        } else if ch == '2' {
            2
        } else if ch == '3' {
            3
        } else if ch == '4' {
            4
        } else if ch == '5' {
            5
        } else if ch == '6' {
            6
        } else if ch == '7' {
            7
        } else if ch == '8' {
            8
        } else {
            9
        };
        let ghost pre = c@.subrange(start as int, i as int);
        let ghost next = c@.subrange(start as int, i + 1);
        assert(next.drop_last() =~= pre);
        assert(next.last() == ch);
        assert(dg == digit_value(ch));
        proof {
            assert(forall|k: int| 0 <= k < pre.len() ==> '0' <= #[trigger] pre[k] <= '9') by {
                assert forall|k: int| 0 <= k < pre.len() implies '0' <= #[trigger] pre[k] <= '9' by {
                    assert(pre[k] == d[k]);
                }
            }
            lemma_digits_value_nonneg(pre);
        }
        if acc >= 0x8000_0000_0000_0001 {
            acc = 0x8000_0000_0000_0001;
        } else {
            let v = acc * 10 + dg;
            if v >= 0x8000_0000_0000_0001 {
                acc = 0x8000_0000_0000_0001;
            } else {
                acc = v;
            }
        }
        i = i + 1;
    }
    acc
}

/// The integer that `t` denotes, as an `i64` when it fits.
pub fn integer_to_i64(t: &String) -> (r: Option<i64>)
    requires
        integer_text_ok(t@),
    ensures
        r == to_i64(t@),
{
    let neg = {
        let c = chars_of(t.as_str());
        c.len() > 0 && c[0] == '-'
    };
    let acc = capped_digits(t);
    proof {
        lemma_digits_value_nonneg(integer_digits(t@));
    }
    if neg {
        if acc <= 0x8000_0000_0000_0000 {
            let v: i128 = -(acc as i128);
            Some(v as i64)
        } else {
            None
        }
    } else {
        if acc <= 0x7fff_ffff_ffff_ffff {
            Some(acc as i64)
        } else {
            None
        }
    }
}

// ---------------------------------------------------------------------------
// Values
// ---------------------------------------------------------------------------

impl Value {
    /// A copy of this value (a cell is shared, not copied).
    pub fn copy(&self) -> (r: Value)
        ensures
            r@ == self@,
    {
        match self {
            Value::Nil => Value::Nil,
            Value::Boolean(b) => Value::Boolean(*b),
            Value::Integer(t) => Value::Integer(t.clone()),
            Value::Double(d) => Value::Double(*d),
            Value::Symbol(s) => Value::Symbol(s.clone()),
            Value::String(c) => Value::String(*c),
            Value::Array(c) => Value::Array(*c),
            Value::Object(c) => Value::Object(*c),
            Value::Class(c) => Value::Class(*c),
            Value::Method(m) => Value::Method(*m),
            Value::Block(b) => Value::Block(*b),
            Value::Runtime => Value::Runtime,
        }
    }
}

/// A value that a primitive can take: it refers to a cell of the right kind,
/// and an integer is written as an integer.
pub open spec fn valid_value(cells: Seq<CellV>, v: ValueV) -> bool {
    &&& value_ok(cells, v)
    &&& v matches ValueV::Integer(t) ==> integer_text_ok(t)
}

pub open spec fn valid_args(cells: Seq<CellV>, args: Seq<Value>) -> bool {
    forall|i: int| 0 <= i < args.len() ==> valid_value(cells, #[trigger] args[i]@)
}

/// The text of a string or a symbol.
pub open spec fn text_of(cells: Seq<CellV>, v: ValueV) -> Option<Seq<char>> {
    match v {
        ValueV::String(c) => match cells[c as int] {
            CellV::Str(t) => Some(t),
            _ => None,
        },
        ValueV::Symbol(s) => Some(s),
        _ => None,
    }
}

pub(crate) fn text_of_value(heap: &Heap, v: &Value) -> (r: Option<String>)
    requires
        value_ok(heap@, v@),
    ensures
        match r {
            Some(s) => text_of(heap@, v@) == Some(s@),
            None => text_of(heap@, v@) is None,
        },
{
    match v {
        Value::String(c) => {
            proof {
                assert(heap@[*c as int] == heap.cells@[*c as int]@);
            }
            match &heap.cells[*c] {
                HeapCell::Str(s) => Some(s.clone()),
                _ => None,
            }
        },
        Value::Symbol(s) => Some(s.clone()),
        _ => None,
    }
}

/// Puts a new string holding `s` in the heap.
pub(crate) fn new_string(heap: &mut Heap, s: String) -> (v: Value)
    ensures
        final(heap)@ == old(heap)@.push(CellV::Str(s@)),
        v@ == ValueV::String(old(heap)@.len() as usize),
{
    let c = heap.cells.len();
    let ghost before = heap@;
    let ghost sv = s@;
    heap.cells.push(HeapCell::Str(s));
    assert(heap@ =~= before.push(CellV::Str(sv)));
    Value::String(c)
}

// ---------------------------------------------------------------------------
// Strings
// ---------------------------------------------------------------------------

/// `String>>concatenate:`: a new string holding the receiver's text followed by
/// the argument's; nil when either is neither a string nor a symbol.
pub open spec fn str_concat_spec(cells: Seq<CellV>, recv: ValueV, args: Seq<ValueV>) -> (ValueV, Seq<CellV>) {
    match text_of(cells, recv) {
        None => (ValueV::Nil, cells),
        Some(s1) => if args.len() == 0 {
            (ValueV::Nil, cells)
        } else {
            match text_of(cells, args[0]) {
                None => (ValueV::Nil, cells),
                Some(s2) => (ValueV::String(cells.len() as usize), cells.push(CellV::Str(s1 + s2))),
            }
        },
    }
}

pub fn str_concat(heap: &mut Heap, receiver: &Value, args: &Vec<Value>) -> (r: Value)
    requires
        valid_value(old(heap)@, receiver@),
        valid_args(old(heap)@, args@),
    ensures
        (r@, final(heap)@) == str_concat_spec(old(heap)@, receiver@, values_view(args@)),
{
    let s1 = match text_of_value(heap, receiver) {
        Some(s) => s,
        None => {
            return Value::Nil;
        },
    };
    if args.len() == 0 {
        return Value::Nil;
    }
    assert(values_view(args@)[0] == args@[0]@);
    assert(valid_value(heap@, args@[0]@));
    match text_of_value(heap, &args[0]) {
        None => Value::Nil,
        Some(s2) => {
            let mut s = s1;
            s.append(s2.as_str());
            new_string(heap, s)
        },
    }
}

/// `String>>length`: the number of characters.
pub open spec fn str_len_spec(cells: Seq<CellV>, recv: ValueV) -> ValueV {
    match text_of(cells, recv) {
        Some(t) => ValueV::Integer(decimal(t.len())),
        None => ValueV::Nil,
    }
}

pub fn str_len(heap: &Heap, receiver: &Value) -> (r: Value)
    requires
        valid_value(heap@, receiver@),
    ensures
        r@ == str_len_spec(heap@, receiver@),
{
    match text_of_value(heap, receiver) {
        Some(s) => {
            let n = s.as_str().unicode_len();
            Value::Integer(decimal_text(n))
        },
        None => Value::Nil,
    }
}

/// `String>>=`: whether the argument has the same text; false when either is
/// neither a string nor a symbol.
pub open spec fn str_eq_spec(cells: Seq<CellV>, recv: ValueV, args: Seq<ValueV>) -> ValueV {
    match text_of(cells, recv) {
        None => ValueV::Boolean(false),
        Some(s1) => if args.len() == 0 {
            ValueV::Boolean(false)
        } else {
            match text_of(cells, args[0]) {
                None => ValueV::Boolean(false),
                Some(s2) => ValueV::Boolean(s1 == s2),
            }
        },
    }
}

pub fn str_eq(heap: &Heap, receiver: &Value, args: &Vec<Value>) -> (r: Value)
    requires
        valid_value(heap@, receiver@),
        valid_args(heap@, args@),
    ensures
        r@ == str_eq_spec(heap@, receiver@, values_view(args@)),
{
    let s1 = match text_of_value(heap, receiver) {
        Some(s) => s,
        None => {
            return Value::Boolean(false);
        },
    };
    if args.len() == 0 {
        return Value::Boolean(false);
    }
    assert(values_view(args@)[0] == args@[0]@);
    assert(valid_value(heap@, args@[0]@));
    match text_of_value(heap, &args[0]) {
        None => Value::Boolean(false),
        Some(s2) => Value::Boolean(s1 == s2),
    }
}

/// `String>>asSymbol`: the symbol with the same text.
pub fn str_as_symbol(heap: &Heap, receiver: &Value) -> (r: Value)
    requires
        valid_value(heap@, receiver@),
    ensures
        r@ == match text_of(heap@, receiver@) {
            Some(t) => ValueV::Symbol(t),
            None => ValueV::Nil,
        },
{
    match text_of_value(heap, receiver) {
        Some(s) => Value::Symbol(s),
        None => Value::Nil,
    }
}

/// Characters with the Unicode White_Space property.
pub open spec fn white_space(c: char) -> bool {
    ('\t' <= c && c <= '\r') || c == ' ' || c == '\u{85}' || c == '\u{a0}' || c == '\u{1680}' || ('\u{2000}' <= c
        && c <= '\u{200a}') || c == '\u{2028}' || c == '\u{2029}' || c == '\u{202f}' || c == '\u{205f}' || c
        == '\u{3000}'
}

/// What `char::is_alphabetic` says of `c`: whether it has the Unicode
/// Alphabetic property.
pub uninterp spec fn alphabetic(c: char) -> bool;

/// Whether `c` has the Unicode Alphabetic property (`char::is_alphabetic`,
/// decided by std's Unicode tables). The result is named, not stated: it
/// depends on `c` alone.
#[verifier::external_body]
fn char_is_alphabetic(c: char) -> (r: bool)
    ensures
        r == alphabetic(c),
{
    c.is_alphabetic()
}

/// The classes of characters that the predicates on strings test.
pub enum CharClass {
    WhiteSpace,
    Letter,
    Digit,
}

pub open spec fn in_class(k: CharClass, c: char) -> bool {
    match k {
        CharClass::WhiteSpace => white_space(c),
        CharClass::Letter => letter(c),
        CharClass::Digit => '0' <= c <= '9',
    }
}

/// Whether `char::is_alphabetic` holds of `c`: up to U+007F exactly the
/// ASCII letters (the only ASCII characters with the Unicode Alphabetic
/// property), beyond it the property as std's tables give it.
pub open spec fn letter(c: char) -> bool {
    if c <= '\u{7f}' {
        ('a' <= c && c <= 'z') || ('A' <= c && c <= 'Z')
    } else {
        alphabetic(c)
    }
}

fn char_in_class(k: &CharClass, c: char) -> (r: bool)
    ensures
        r == in_class(*k, c),
{
    match k {
        CharClass::WhiteSpace => ('\t' <= c && c <= '\r') || c == ' ' || c == '\u{85}' || c == '\u{a0}' || c
            == '\u{1680}' || ('\u{2000}' <= c && c <= '\u{200a}') || c == '\u{2028}' || c == '\u{2029}' || c
            == '\u{202f}' || c == '\u{205f}' || c == '\u{3000}',
        CharClass::Letter => if c <= '\u{7f}' {
            ('a' <= c && c <= 'z') || ('A' <= c && c <= 'Z')
        } else {
            char_is_alphabetic(c)
        },
        CharClass::Digit => '0' <= c && c <= '9',
    }
}

/// `String>>isWhiteSpace`, `isLetters` and `isDigits`: whether the text is not
/// empty and all its characters are of the class; false when the receiver is
/// neither a string nor a symbol.
pub open spec fn str_is_class_spec(cells: Seq<CellV>, recv: ValueV, k: CharClass) -> bool {
    match text_of(cells, recv) {
        Some(t) => t.len() > 0 && forall|i: int| 0 <= i < t.len() ==> in_class(k, #[trigger] t[i]),
        None => false,
    }
}

pub fn str_is_class(heap: &Heap, receiver: &Value, k: CharClass) -> (r: Value)
    requires
        valid_value(heap@, receiver@),
    ensures
        r@ == ValueV::Boolean(str_is_class_spec(heap@, receiver@, k)),
{
    match text_of_value(heap, receiver) {
        None => Value::Boolean(false),
        Some(s) => {
            let c = chars_of(s.as_str());
            if c.len() == 0 {
                return Value::Boolean(false);
            }
            let mut i: usize = 0;
            while i < c.len()
                invariant
                    i <= c.len(),
                    c@ == s@,
                    text_of(heap@, receiver@) == Some(s@),
                    forall|j: int| 0 <= j < i ==> in_class(k, #[trigger] c@[j]),
                decreases c.len() - i,
            {
                if !char_in_class(&k, c[i]) {
                    assert(s@[i as int] == c@[i as int]);
                    assert(!in_class(k, s@[i as int]));
                    return Value::Boolean(false);
                }
                i = i + 1;
            }
            Value::Boolean(true)
        },
    }
}

pub fn str_is_whitespace(heap: &Heap, receiver: &Value) -> (r: Value)
    requires
        valid_value(heap@, receiver@),
    ensures
        r@ == ValueV::Boolean(str_is_class_spec(heap@, receiver@, CharClass::WhiteSpace)),
{
    str_is_class(heap, receiver, CharClass::WhiteSpace)
}

pub fn str_is_letters(heap: &Heap, receiver: &Value) -> (r: Value)
    requires
        valid_value(heap@, receiver@),
    ensures
        r@ == ValueV::Boolean(str_is_class_spec(heap@, receiver@, CharClass::Letter)),
{
    str_is_class(heap, receiver, CharClass::Letter)
}

pub fn str_is_digits(heap: &Heap, receiver: &Value) -> (r: Value)
    requires
        valid_value(heap@, receiver@),
    ensures
        r@ == ValueV::Boolean(str_is_class_spec(heap@, receiver@, CharClass::Digit)),
{
    str_is_class(heap, receiver, CharClass::Digit)
}

/// `isLetters` answers false for any text that holds an ASCII character
/// other than a letter (a blank, a digit, a punctuation mark, a control
/// character), and true for a text made of ASCII letters alone.
pub proof fn law_letters_of_ascii_text(cells: Seq<CellV>, recv: ValueV)
    requires
        text_of(cells, recv) is Some,
    ensures
        ({
            let t = text_of(cells, recv).unwrap();
            &&& (exists|i: int|
                0 <= i < t.len() && #[trigger] t[i] <= '\u{7f}' && !(('a' <= t[i] && t[i] <= 'z') || ('A' <= t[i]
                    && t[i] <= 'Z'))) ==> !str_is_class_spec(cells, recv, CharClass::Letter)
            &&& t.len() > 0 && (forall|i: int|
                0 <= i < t.len() ==> ('a' <= #[trigger] t[i] && t[i] <= 'z') || ('A' <= t[i] && t[i] <= 'Z'))
                ==> str_is_class_spec(cells, recv, CharClass::Letter)
        }),
{
    let t = text_of(cells, recv).unwrap();
    if exists|i: int|
        0 <= i < t.len() && #[trigger] t[i] <= '\u{7f}' && !(('a' <= t[i] && t[i] <= 'z') || ('A' <= t[i]
            && t[i] <= 'Z')) {
        let i = choose|i: int|
            0 <= i < t.len() && #[trigger] t[i] <= '\u{7f}' && !(('a' <= t[i] && t[i] <= 'z') || ('A' <= t[i]
                && t[i] <= 'Z'));
        assert(!in_class(CharClass::Letter, t[i]));
    }
    if t.len() > 0 && (forall|i: int| 0 <= i < t.len() ==> ('a' <= #[trigger] t[i] && t[i] <= 'z') || ('A' <= t[i] && t[i] <= 'Z')) {
        assert forall|i: int| 0 <= i < t.len() implies in_class(CharClass::Letter, #[trigger] t[i]) by {
            assert(('a' <= t[i] && t[i] <= 'z') || ('A' <= t[i] && t[i] <= 'Z'));
        }
    }
}

/// The integer argument `i`, as an `i64` held at the nearest end when it does not fit.
pub open spec fn clamped_i64(t: Seq<char>) -> i64 {
    match to_i64(t) {
        Some(v) => v,
        None => if integer_value(t) < 0 {
            i64::MIN
        } else {
            i64::MAX
        },
    }
}

/// `String>>primSubstringFrom:to:`: a new string holding the characters from
/// `start` to `end` (counted from 1, both included); empty when `end` comes
/// before `start`; nil when `start` is below 1 or `end` past the text, or when
/// the arguments are not integers.
pub open spec fn str_substring_spec(cells: Seq<CellV>, recv: ValueV, args: Seq<ValueV>) -> (ValueV, Seq<CellV>) {
    match text_of(cells, recv) {
        None => (ValueV::Nil, cells),
        Some(t) => if args.len() < 2 {
            (ValueV::Nil, cells)
        } else {
            match (args[0], args[1]) {
                (ValueV::Integer(a), ValueV::Integer(b)) => {
                    let start = clamped_i64(a) as int;
                    let end = clamped_i64(b) as int;
                    if start < 1 || end > t.len() {
                        (ValueV::Nil, cells)
                    } else if end < start {
                        (ValueV::String(cells.len() as usize), cells.push(CellV::Str(Seq::empty())))
                    } else {
                        (ValueV::String(cells.len() as usize), cells.push(CellV::Str(t.subrange(start - 1, end))))
                    }
                },
                _ => (ValueV::Nil, cells),
            }
        },
    }
}

fn clamped(t: &String) -> (r: i64)
    requires
        integer_text_ok(t@),
    ensures
        r == clamped_i64(t@),
{
    match integer_to_i64(t) {
        Some(v) => v,
        None => {
            let c = chars_of(t.as_str());
            let neg = c.len() > 0 && c[0] == '-';
            proof {
                lemma_digits_value_nonneg(integer_digits(t@));
            }
            if neg {
                i64::MIN
            } else {
                i64::MAX
            }
        },
    }
}

pub fn str_substring(heap: &mut Heap, receiver: &Value, args: &Vec<Value>) -> (r: Value)
    requires
        valid_value(old(heap)@, receiver@),
        valid_args(old(heap)@, args@),
    ensures
        (r@, final(heap)@) == str_substring_spec(old(heap)@, receiver@, values_view(args@)),
{
    let s = match text_of_value(heap, receiver) {
        Some(s) => s,
        None => {
            return Value::Nil;
        },
    };
    if args.len() < 2 {
        return Value::Nil;
    }
    assert(values_view(args@)[0] == args@[0]@);
    assert(values_view(args@)[1] == args@[1]@);
    assert(valid_value(heap@, args@[0]@));
    assert(valid_value(heap@, args@[1]@));
    match (&args[0], &args[1]) {
        (Value::Integer(a), Value::Integer(b)) => {
            let start = clamped(a);
            let end = clamped(b);
            let chars = chars_of(s.as_str());
            let len = chars.len();
            if start < 1 || end as i128 > len as i128 {
                Value::Nil
            } else if end < start {
                new_string(heap, String::new())
            } else {
                let piece = crate::text::string_of(&chars, (start - 1) as usize, end as usize);
                new_string(heap, piece)
            }
        },
        _ => Value::Nil,
    }
}

// ---------------------------------------------------------------------------
// Arrays
// ---------------------------------------------------------------------------

/// A SOM index (counted from 1) into an array of `len` elements, as a
/// position counted from 0; `None` when it is out of bounds.
pub open spec fn resolved_index(idx: Seq<char>, len: int) -> Option<int> {
    match to_i64(idx) {
        None => None,
        Some(i) => if i < 1 || i > len {
            None
        } else {
            Some(i - 1)
        },
    }
}

pub fn resolve_index(idx: &String, len: usize) -> (r: Option<usize>)
    requires
        integer_text_ok(idx@),
    ensures
        match r {
            Some(i) => resolved_index(idx@, len as int) == Some(i as int),
            None => resolved_index(idx@, len as int) is None,
        },
{
    match integer_to_i64(idx) {
        None => None,
        Some(i) => if i < 1 || i as u64 > len as u64 {
            None
        } else {
            Some((i - 1) as usize)
        },
    }
}

/// `Array class>>new:`: a new array of that many nils.
pub open spec fn arr_new_spec(cells: Seq<CellV>, args: Seq<ValueV>) -> Result<(ValueV, Seq<CellV>), PrimitiveError> {
    if args.len() == 0 {
        Ok((ValueV::Nil, cells))
    } else {
        match args[0] {
            ValueV::Integer(t) => {
                let n = integer_value(t);
                if n < 0 {
                    Err(PrimitiveError::NegativeSize)
                } else if n > MAX_ARRAY_SIZE {
                    Err(PrimitiveError::SizeTooLarge)
                } else {
                    Ok((ValueV::Array(cells.len() as usize), cells.push(CellV::Array(crate::serialize::nils(n as nat)))))
                }
            },
            _ => Ok((ValueV::Nil, cells)),
        }
    }
}

pub fn arr_new(heap: &mut Heap, args: &Vec<Value>) -> (r: Result<Value, PrimitiveError>)
    requires
        valid_args(old(heap)@, args@),
    ensures
        match r {
            Ok(v) => arr_new_spec(old(heap)@, values_view(args@)) == Ok::<(ValueV, Seq<CellV>), PrimitiveError>(
                (v@, final(heap)@),
            ),
            Err(e) => arr_new_spec(old(heap)@, values_view(args@)) == Err::<(ValueV, Seq<CellV>), PrimitiveError>(e)
                && final(heap)@ == old(heap)@,
        },
{
    if args.len() == 0 {
        return Ok(Value::Nil);
    }
    assert(values_view(args@)[0] == args@[0]@);
    assert(valid_value(heap@, args@[0]@));
    match &args[0] {
        Value::Integer(t) => {
            let c = chars_of(t.as_str());
            let neg = c.len() > 0 && c[0] == '-';
            let acc = capped_digits(t);
            proof {
                lemma_digits_value_nonneg(integer_digits(t@));
            }
            if neg && acc > 0 {
                Err(PrimitiveError::NegativeSize)
            } else if acc > 100_000_000 {
                Err(PrimitiveError::SizeTooLarge)
            } else {
                let n = acc as usize;
                let shell = nil_vec(n);
                let cell = heap.cells.len();
                let ghost before = heap@;
                heap.cells.push(HeapCell::Array(shell));
                assert(heap@ =~= before.push(CellV::Array(crate::serialize::nils(n as nat))));
                Ok(Value::Array(cell))
            }
        },
        _ => Ok(Value::Nil),
    }
}

fn nil_vec(n: usize) -> (r: Vec<Value>)
    ensures
        values_view(r@) == crate::serialize::nils(n as nat),
{
    let mut v: Vec<Value> = Vec::new();
    let mut i: usize = 0;
    while i < n
        invariant
            i <= n,
            values_view(v@) =~= crate::serialize::nils(i as nat),
        decreases n - i,
    {
        let ghost before = v@;
        v.push(Value::Nil);
        assert(values_view(v@) =~= values_view(before).push(ValueV::Nil));
        assert(crate::serialize::nils((i + 1) as nat) =~= crate::serialize::nils(i as nat).push(ValueV::Nil));
        i = i + 1;
    }
    v
}

/// The elements of an array cell.
pub open spec fn elements_of(cells: Seq<CellV>, c: usize) -> Seq<ValueV> {
    match cells[c as int] {
        CellV::Array(vs) => vs,
        _ => Seq::empty(),
    }
}

/// `Array>>at:`: the element at a SOM index.
pub open spec fn arr_at_spec(cells: Seq<CellV>, recv: ValueV, args: Seq<ValueV>) -> Result<ValueV, PrimitiveError> {
    if args.len() == 0 {
        Ok(ValueV::Nil)
    } else {
        match (recv, args[0]) {
            (ValueV::Array(c), ValueV::Integer(t)) => match resolved_index(t, elements_of(cells, c).len() as int) {
                Some(i) => Ok(elements_of(cells, c)[i]),
                None => Err(PrimitiveError::IndexOutOfBounds),
            },
            _ => Ok(ValueV::Nil),
        }
    }
}

pub fn arr_at(heap: &Heap, receiver: &Value, args: &Vec<Value>) -> (r: Result<Value, PrimitiveError>)
    requires
        valid_value(heap@, receiver@),
        valid_args(heap@, args@),
    ensures
        match r {
            Ok(v) => arr_at_spec(heap@, receiver@, values_view(args@)) == Ok::<ValueV, PrimitiveError>(v@),
            Err(e) => arr_at_spec(heap@, receiver@, values_view(args@)) == Err::<ValueV, PrimitiveError>(e),
        },
{
    if args.len() == 0 {
        return Ok(Value::Nil);
    }
    assert(values_view(args@)[0] == args@[0]@);
    assert(valid_value(heap@, args@[0]@));
    match (receiver, &args[0]) {
        (Value::Array(c), Value::Integer(t)) => {
            proof {
                assert(heap@[*c as int] == heap.cells@[*c as int]@);
            }
            match &heap.cells[*c] {
                HeapCell::Array(elems) => match resolve_index(t, elems.len()) {
                    Some(i) => {
                        assert(values_view(elems@)[i as int] == elems@[i as int]@);
                        Ok(elems[i].copy())
                    },
                    None => Err(PrimitiveError::IndexOutOfBounds),
                },
                _ => {
                    proof {
                        assert(false);
                    }
                    Ok(Value::Nil)
                },
            }
        },
        _ => Ok(Value::Nil),
    }
}

/// `Array>>at:put:`: stores the value at a SOM index, and gives it back.
pub open spec fn arr_at_put_spec(cells: Seq<CellV>, recv: ValueV, args: Seq<ValueV>) -> Result<
    (ValueV, Seq<CellV>),
    PrimitiveError,
> {
    if args.len() < 2 {
        Ok((ValueV::Nil, cells))
    } else {
        match (recv, args[0]) {
            (ValueV::Array(c), ValueV::Integer(t)) => match resolved_index(t, elements_of(cells, c).len() as int) {
                Some(i) => Ok((args[1], cells.update(c as int, CellV::Array(elements_of(cells, c).update(i, args[1]))))),
                None => Err(PrimitiveError::IndexOutOfBounds),
            },
            _ => Ok((ValueV::Nil, cells)),
        }
    }
}

pub fn arr_at_put(heap: &mut Heap, receiver: &Value, args: &Vec<Value>) -> (r: Result<Value, PrimitiveError>)
    requires
        valid_value(old(heap)@, receiver@),
        valid_args(old(heap)@, args@),
    ensures
        match r {
            Ok(v) => arr_at_put_spec(old(heap)@, receiver@, values_view(args@)) == Ok::<
                (ValueV, Seq<CellV>),
                PrimitiveError,
            >((v@, final(heap)@)),
            Err(e) => arr_at_put_spec(old(heap)@, receiver@, values_view(args@)) == Err::<
                (ValueV, Seq<CellV>),
                PrimitiveError,
            >(e) && final(heap)@ == old(heap)@,
        },
{
    if args.len() < 2 {
        return Ok(Value::Nil);
    }
    assert(values_view(args@)[0] == args@[0]@);
    assert(values_view(args@)[1] == args@[1]@);
    assert(valid_value(heap@, args@[0]@));
    match (receiver, &args[0]) {
        (Value::Array(c), Value::Integer(t)) => {
            let c = *c;
            proof {
                assert(heap@[c as int] == heap.cells@[c as int]@);
            }
            let len = match &heap.cells[c] {
                HeapCell::Array(elems) => elems.len(),
                _ => {
                    proof {
                        assert(false);
                    }
                    0
                },
            };
            match resolve_index(t, len) {
                None => Err(PrimitiveError::IndexOutOfBounds),
                Some(i) => {
                    let ghost before = heap@;
                    let mut cell = HeapCell::Str(String::new());
                    heap.cells.set_and_swap(c, &mut cell);
                    let result = args[1].copy();
                    let updated = match cell {
                        HeapCell::Array(mut elems) => {
                            let ghost ev = values_view(elems@);
                            elems.set(i, args[1].copy());
                            assert(values_view(elems@) =~= ev.update(i as int, args@[1]@));
                            HeapCell::Array(elems)
                        },
                        other => other,
                    };
                    heap.cells.set(c, updated);
                    assert(heap@ =~= before.update(
                        c as int,
                        CellV::Array(elements_of(before, c).update(i as int, args@[1]@)),
                    ));
                    Ok(result)
                },
            }
        },
        _ => Ok(Value::Nil),
    }
}

/// `Array>>length`: the number of elements.
pub fn arr_len(heap: &Heap, receiver: &Value) -> (r: Value)
    requires
        valid_value(heap@, receiver@),
    ensures
        r@ == match receiver@ {
            ValueV::Array(c) => ValueV::Integer(decimal(elements_of(heap@, c).len())),
            _ => ValueV::Nil,
        },
{
    match receiver {
        Value::Array(c) => {
            proof {
                assert(heap@[*c as int] == heap.cells@[*c as int]@);
            }
            match &heap.cells[*c] {
                HeapCell::Array(elems) => Value::Integer(decimal_text(elems.len())),
                _ => {
                    proof {
                        assert(false);
                    }
                    Value::Nil
                },
            }
        },
        _ => Value::Nil,
    }
}

// ---------------------------------------------------------------------------
// Laws
// ---------------------------------------------------------------------------

/// Reading an index of an array after storing a value at it gives the value
/// back; the other elements and the size of the array stay as they were.
pub proof fn law_at_after_put(cells: Seq<CellV>, arr: ValueV, idx: ValueV, v: ValueV, cells2: Seq<CellV>, r: ValueV)
    requires
        value_ok(cells, arr),
        arr is Array,
        idx is Integer,
        arr_at_put_spec(cells, arr, seq![idx, v]) == Ok::<(ValueV, Seq<CellV>), PrimitiveError>((r, cells2)),
    ensures
        r == v,
        arr_at_spec(cells2, arr, seq![idx]) == Ok::<ValueV, PrimitiveError>(v),
        elements_of(cells2, arr->Array_0).len() == elements_of(cells, arr->Array_0).len(),
        forall|j: int|
            0 <= j < elements_of(cells, arr->Array_0).len() && (idx matches ValueV::Integer(t) && resolved_index(
                t,
                elements_of(cells, arr->Array_0).len() as int,
            ) != Some(j)) ==> elements_of(cells2, arr->Array_0)[j] == elements_of(cells, arr->Array_0)[j],
{
    let args = seq![idx, v];
    assert(args[0] == idx);
    assert(args[1] == v);
    assert(seq![idx][0] == idx);
}

/// A store at an index out of bounds fails and a read there fails too.
pub proof fn law_out_of_bounds(cells: Seq<CellV>, c: usize, t: Seq<char>, v: ValueV)
    requires
        resolved_index(t, elements_of(cells, c).len() as int) is None,
    ensures
        arr_at_spec(cells, ValueV::Array(c), seq![ValueV::Integer(t)]) == Err::<ValueV, PrimitiveError>(
            PrimitiveError::IndexOutOfBounds,
        ),
        arr_at_put_spec(cells, ValueV::Array(c), seq![ValueV::Integer(t), v]) == Err::<
            (ValueV, Seq<CellV>),
            PrimitiveError,
        >(PrimitiveError::IndexOutOfBounds),
{
}

} // verus!

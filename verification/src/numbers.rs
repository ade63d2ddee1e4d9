//! The primitives of class `Integer`. An integer value holds its decimal
//! text; the arithmetic on arbitrarily large integers is that of `num-bigint`,
//! reached through the functions at the end of this file, each of which reads
//! integer texts and gives back the decimal text of its result.
use vstd::prelude::*;
use num_bigint::BigInt;
use num_integer::Integer;
use num_traits::{Signed, ToPrimitive, Zero};
use crate::collections::{decimal, digits_value, integer_to_i64, integer_value};
use crate::object::{values_view, CellV, Heap, HeapCell, Value, ValueV};
use crate::serialize::{integer_digits, integer_text_ok};

verus! {

/// Why an integer primitive gives no value.
#[derive(Debug, Clone, Copy, PartialEq, Eq, Structural)]
pub enum NumError {
    /// `/` with a zero divisor.
    DivisionByZero,
    /// `%` or `rem:` with a zero divisor.
    ModuloByZero,
    /// The argument is a double: the result is a double, computed with
    /// floating-point arithmetic, which is not done here.
    DoubleOperand,
}

/// The decimal text of an integer: a `-` before the digits of a negative one.
pub open spec fn int_text(v: int) -> Seq<char> {
    if v < 0 {
        seq!['-'] + decimal((-v) as nat)
    } else {
        decimal(v as nat)
    }
}

/// Division rounded towards negative infinity.
pub open spec fn floor_div(a: int, b: int) -> int {
    if b > 0 {
        a / b
    } else {
        (-a) / (-b)
    }
}

/// The remainder of `floor_div`: zero or of the sign of `b`.
pub open spec fn floor_mod(a: int, b: int) -> int {
    a - b * floor_div(a, b)
}

pub open spec fn abs(a: int) -> int {
    if a < 0 {
        -a
    } else {
        a
    }
}

/// Division rounded towards zero.
pub open spec fn trunc_div(a: int, b: int) -> int {
    let q = abs(a) / abs(b);
    if (a < 0) != (b < 0) {
        -q
    } else {
        q
    }
}

/// The remainder of `trunc_div`: zero or of the sign of `a`.
pub open spec fn trunc_rem(a: int, b: int) -> int {
    a - b * trunc_div(a, b)
}

/// Bitwise and of two integers in two's complement, with as many bits as
/// either needs (a negative integer has infinitely many leading ones).
pub open spec fn bit_and(a: int, b: int) -> int
    decreases abs(a) + abs(b),
{
    if a == 0 || b == 0 {
        0
    } else if a == -1 {
        b
    } else if b == -1 {
        a
    } else {
        2 * bit_and(a / 2, b / 2) + (a % 2) * (b % 2)
    }
}

/// Bitwise exclusive or of two integers in two's complement.
pub open spec fn bit_xor(a: int, b: int) -> int
    decreases abs(a) + abs(b),
{
    if a == 0 {
        b
    } else if b == 0 {
        a
    } else if a == -1 {
        -1 - b
    } else if b == -1 {
        -1 - a
    } else {
        2 * bit_xor(a / 2, b / 2) + (a % 2 + b % 2) % 2
    }
}

/// The text with the sign `BigInt`'s parser strips: a leading `-`, unless a
/// `+` follows it.
pub open spec fn parse_unsigned(s: Seq<char>) -> Seq<char> {
    if s.len() > 0 && s[0] == '-' && !(s.len() > 1 && s[1] == '+') {
        s.drop_first()
    } else {
        s
    }
}

/// The digits that `BigInt`'s parser reads: the text after the sign, and
/// after a leading `+`, unless another `+` follows that.
pub open spec fn parse_body(s: Seq<char>) -> Seq<char> {
    let t = parse_unsigned(s);
    if t.len() > 0 && t[0] == '+' && !(t.len() > 1 && t[1] == '+') {
        t.drop_first()
    } else {
        t
    }
}

/// A text that `BigInt` parses: digits and underscores after an optional
/// sign, starting with a digit.
pub open spec fn big_text_ok(s: Seq<char>) -> bool {
    let b = parse_body(s);
    &&& b.len() > 0
    &&& b[0] != '_'
    &&& forall|i: int| 0 <= i < b.len() ==> ('0' <= #[trigger] b[i] <= '9' || b[i] == '_')
}

/// The integer such a text denotes; underscores are skipped.
pub open spec fn big_text_value(s: Seq<char>) -> int {
    let m = digits_value(parse_body(s).filter(|c: char| c != '_'));
    if s.len() > 0 && s[0] == '-' {
        -m
    } else {
        m
    }
}

/// The first argument, if any.
pub open spec fn first(args: Seq<ValueV>) -> Option<ValueV> {
    if args.len() > 0 {
        Some(args[0])
    } else {
        None
    }
}

/// An integer is written as an integer.
pub open spec fn number_ok(v: ValueV) -> bool {
    v matches ValueV::Integer(t) ==> integer_text_ok(t)
}

pub open spec fn numbers_ok(args: Seq<Value>) -> bool {
    forall|i: int| 0 <= i < args.len() ==> number_ok(#[trigger] args[i]@)
}

/// An arithmetic primitive: `op` on two integers; a double argument is left
/// to floating-point arithmetic; nil for anything else.
pub open spec fn arith_spec(recv: ValueV, args: Seq<ValueV>, op: spec_fn(int, int) -> int) -> Result<ValueV, NumError> {
    match (recv, first(args)) {
        (ValueV::Integer(a), Some(ValueV::Integer(b))) => Ok(
            ValueV::Integer(int_text(op(integer_value(a), integer_value(b)))),
        ),
        (ValueV::Integer(_), Some(ValueV::Double(_))) => Err(NumError::DoubleOperand),
        _ => Ok(ValueV::Nil),
    }
}

/// A dividing primitive: as `arith_spec`, with `err` for a zero divisor.
pub open spec fn division_spec(
    recv: ValueV,
    args: Seq<ValueV>,
    op: spec_fn(int, int) -> int,
    err: NumError,
) -> Result<ValueV, NumError> {
    match (recv, first(args)) {
        (ValueV::Integer(a), Some(ValueV::Integer(b))) => if integer_value(b) == 0 {
            Err(err)
        } else {
            Ok(ValueV::Integer(int_text(op(integer_value(a), integer_value(b)))))
        },
        (ValueV::Integer(_), Some(ValueV::Double(_))) => Err(NumError::DoubleOperand),
        _ => Ok(ValueV::Nil),
    }
}

/// A comparing primitive: `op` on two integers; a double argument is left to
/// floating-point arithmetic; false for anything else.
pub open spec fn compare_spec(recv: ValueV, args: Seq<ValueV>, op: spec_fn(int, int) -> bool) -> Result<ValueV, NumError> {
    match (recv, first(args)) {
        (ValueV::Integer(a), Some(ValueV::Integer(b))) => Ok(
            ValueV::Boolean(op(integer_value(a), integer_value(b))),
        ),
        (ValueV::Integer(_), Some(ValueV::Double(_))) => Err(NumError::DoubleOperand),
        _ => Ok(ValueV::Boolean(false)),
    }
}

/// A bitwise primitive: `op` on two integers; nil for anything else.
pub open spec fn bitwise_spec(recv: ValueV, args: Seq<ValueV>, op: spec_fn(int, int) -> int) -> ValueV {
    match (recv, first(args)) {
        (ValueV::Integer(a), Some(ValueV::Integer(b))) => ValueV::Integer(
            int_text(op(integer_value(a), integer_value(b))),
        ),
        _ => ValueV::Nil,
    }
}

/// `Integer>>min:`: the receiver unless the argument is smaller.
pub open spec fn int_min_spec(recv: ValueV, args: Seq<ValueV>) -> Result<ValueV, NumError> {
    match (recv, first(args)) {
        (ValueV::Integer(a), Some(ValueV::Integer(b))) => Ok(
            if integer_value(a) <= integer_value(b) {
                recv
            } else {
                args[0]
            },
        ),
        (ValueV::Integer(_), Some(ValueV::Double(_))) => Err(NumError::DoubleOperand),
        _ => Ok(ValueV::Nil),
    }
}

/// `Integer>>max:`: the argument unless it is smaller than the receiver.
pub open spec fn int_max_spec(recv: ValueV, args: Seq<ValueV>) -> Result<ValueV, NumError> {
    match (recv, first(args)) {
        (ValueV::Integer(a), Some(ValueV::Integer(b))) => Ok(
            if integer_value(a) <= integer_value(b) {
                args[0]
            } else {
                recv
            },
        ),
        (ValueV::Integer(_), Some(ValueV::Double(_))) => Err(NumError::DoubleOperand),
        _ => Ok(ValueV::Nil),
    }
}

/// The `u32` an integer converts to, 0 when it does not fit.
pub open spec fn u32_or_zero(v: int) -> int {
    if 0 <= v <= u32::MAX {
        v
    } else {
        0
    }
}

/// `v & mask`, read back as an unsigned integer of at most `mask` (0 if it
/// did not fit), `mask` being the largest value of that unsigned type.
pub open spec fn low_bits(v: int, mask: int) -> int {
    let m = bit_and(v, mask);
    if 0 <= m <= mask {
        m
    } else {
        0
    }
}

/// `Integer>><<`: the receiver times 2 to the power of the argument (0 when
/// the argument is not a `u32`); nil unless both are integers.
pub open spec fn int_shl_spec(recv: ValueV, args: Seq<ValueV>) -> ValueV {
    match (recv, first(args)) {
        (ValueV::Integer(a), Some(ValueV::Integer(b))) => ValueV::Integer(
            int_text(integer_value(a) * vstd::arithmetic::power2::pow2(u32_or_zero(integer_value(b)) as nat)),
        ),
        _ => ValueV::Nil,
    }
}

/// `Integer>>>>`: the low 64 bits of the receiver, as an unsigned number,
/// shifted right by the argument (0 when the argument is not a `u32`); nil
/// unless both are integers.
pub open spec fn int_shr_spec(recv: ValueV, args: Seq<ValueV>) -> ValueV {
    match (recv, first(args)) {
        (ValueV::Integer(a), Some(ValueV::Integer(b))) => ValueV::Integer(
            int_text(
                ((low_bits(integer_value(a), u64::MAX as int) as u64) >> (u32_or_zero(integer_value(b)) as u64)) as int,
            ),
        ),
        _ => ValueV::Nil,
    }
}

/// The low 32 bits of `v`, read as a signed 32-bit integer.
pub open spec fn signed32(v: int) -> int {
    let u = low_bits(v, u32::MAX as int);
    if u >= 0x8000_0000 {
        u - 0x1_0000_0000
    } else {
        u
    }
}

/// The text of a string or a symbol that `Integer class>>fromString:` reads
/// as an integer; nil when it is no integer text.
pub open spec fn int_from_string_spec(cells: Seq<CellV>, args: Seq<ValueV>) -> ValueV {
    match first(args) {
        Some(v) => match crate::collections::text_of(cells, v) {
            Some(t) => if big_text_ok(t) {
                ValueV::Integer(int_text(big_text_value(t)))
            } else {
                ValueV::Nil
            },
            None => ValueV::Nil,
        },
        None => ValueV::Nil,
    }
}

pub proof fn lemma_digit_char(d: int)
    requires
        0 <= d < 10,
    ensures
        crate::collections::digit_value(crate::collections::digit_char(d)) == d,
        '0' <= crate::collections::digit_char(d) <= '9',
{
}

/// The decimal text of `n` is digits that denote `n`.
pub proof fn lemma_decimal(n: nat)
    ensures
        decimal(n).len() > 0,
        forall|i: int| 0 <= i < decimal(n).len() ==> '0' <= #[trigger] decimal(n)[i] <= '9',
        digits_value(decimal(n)) == n,
    decreases n,
{
    if n < 10 {
        lemma_digit_char(n as int);
        assert(decimal(n).drop_last() =~= Seq::<char>::empty());
        assert(digits_value(decimal(n)) == digits_value(decimal(n).drop_last()) * 10 + crate::collections::digit_value(
            decimal(n).last(),
        ));
    } else {
        lemma_decimal(n / 10);
        lemma_digit_char((n % 10) as int);
        assert(decimal(n).drop_last() =~= decimal(n / 10));
        assert(decimal(n).last() == crate::collections::digit_char((n % 10) as int));
        assert(digits_value(decimal(n)) == digits_value(decimal(n / 10)) * 10 + crate::collections::digit_value(
            decimal(n).last(),
        ));
        assert(n == (n / 10) * 10 + n % 10);
    }
}

/// `/` and `%` agree: the quotient times the divisor plus the remainder is
/// the dividend, and the remainder is zero or of the divisor's sign and
/// smaller than the divisor.
pub proof fn law_floor_division(a: int, b: int)
    requires
        b != 0,
    ensures
        b * floor_div(a, b) + floor_mod(a, b) == a,
        b > 0 ==> 0 <= floor_mod(a, b) < b,
        b < 0 ==> b < floor_mod(a, b) <= 0,
{
    if b > 0 {
        vstd::arithmetic::div_mod::lemma_fundamental_div_mod(a, b);
        vstd::arithmetic::div_mod::lemma_mod_bound(a, b);
    } else {
        vstd::arithmetic::div_mod::lemma_fundamental_div_mod(-a, -b);
        vstd::arithmetic::div_mod::lemma_mod_bound(-a, -b);
        let q = (-a) / (-b);
        assert(floor_div(a, b) == q);
        assert(b * q == -((-b) * q)) by (nonlinear_arith);
    }
}

/// `rem:` and the division rounded towards zero agree, and the remainder is
/// zero or of the dividend's sign and smaller than the divisor in magnitude.
pub proof fn law_truncated_division(a: int, b: int)
    requires
        b != 0,
    ensures
        b * trunc_div(a, b) + trunc_rem(a, b) == a,
        a >= 0 ==> 0 <= trunc_rem(a, b) < abs(b),
        a < 0 ==> -abs(b) < trunc_rem(a, b) <= 0,
{
    vstd::arithmetic::div_mod::lemma_fundamental_div_mod(abs(a), abs(b));
    vstd::arithmetic::div_mod::lemma_mod_bound(abs(a), abs(b));
    let q = abs(a) / abs(b);
    assert(b * trunc_div(a, b) == if a >= 0 { abs(b) * q } else { -(abs(b) * q) }) by (nonlinear_arith)
        requires
            q == abs(a) / abs(b),
            abs(a) == if a < 0 { -a } else { a },
            abs(b) == if b < 0 { -b } else { b },
            trunc_div(a, b) == if (a < 0) != (b < 0) { -q } else { q },
    ;
}

/// The text of an integer is an integer text that denotes it.
pub proof fn lemma_int_text(v: int)
    ensures
        integer_text_ok(int_text(v)),
        integer_value(int_text(v)) == v,
{
    if v < 0 {
        lemma_decimal((-v) as nat);
        assert(int_text(v).drop_first() =~= decimal((-v) as nat));
    } else {
        lemma_decimal(v as nat);
    }
}

/// The decimal text of `n`.
pub fn decimal_u64(n: u64) -> (s: String)
    ensures
        s@ == decimal(n as nat),
    decreases n,
{
    if n < 10 {
        let mut s = String::new();
        crate::text::push_char(&mut s, crate::collections::exec_digit_char(n as usize));
        assert(s@ =~= seq![crate::collections::digit_char(n as int)]);
        s
    } else {
        let mut s = decimal_u64(n / 10);
        crate::text::push_char(&mut s, crate::collections::exec_digit_char((n % 10) as usize));
        s
    }
}

/// The text of a signed integer.
fn signed_text(v: i64) -> (s: String)
    requires
        v > i64::MIN,
    ensures
        s@ == int_text(v as int),
{
    if v < 0 {
        let digits = decimal_u64((-v) as u64);
        let mut s = String::from_str("-");
        proof {
            reveal_strlit("-");
        }
        s.append(digits.as_str());
        assert(s@ =~= seq!['-'] + decimal((-v) as nat));
        s
    } else {
        decimal_u64(v as u64)
    }
}

/// The text of the largest value of an unsigned type, as an integer text.
fn mask_text(mask: u64) -> (s: String)
    ensures
        integer_text_ok(s@),
        integer_value(s@) == mask,
{
    let s = decimal_u64(mask);
    proof {
        lemma_decimal(mask as nat);
        assert(integer_digits(s@) == s@);
    }
    s
}

/// The view of a primitive's result.
pub open spec fn result_view(r: Result<Value, NumError>) -> Result<ValueV, NumError> {
    match r {
        Ok(v) => Ok(v@),
        Err(e) => Err(e),
    }
}


/// `Integer>>+`: the sum.
pub fn int_plus(receiver: &Value, args: &Vec<Value>) -> (r: Result<Value, NumError>)
    requires
        number_ok(receiver@),
        numbers_ok(args@),
    ensures
        result_view(r) == arith_spec(receiver@, values_view(args@), |a: int, b: int| a + b),
{
    if args.len() == 0 {
        return Ok(Value::Nil);
    }
    assert(values_view(args@)[0] == args@[0]@);
    assert(number_ok(args@[0]@));
    match (receiver, &args[0]) {
        (Value::Integer(a), Value::Integer(b)) => Ok(Value::Integer(big_add(a, b))),
        (Value::Integer(_), Value::Double(_)) => Err(NumError::DoubleOperand),
        _ => Ok(Value::Nil),
    }
}

/// `Integer>>-`: the difference.
pub fn int_minus(receiver: &Value, args: &Vec<Value>) -> (r: Result<Value, NumError>)
    requires
        number_ok(receiver@),
        numbers_ok(args@),
    ensures
        result_view(r) == arith_spec(receiver@, values_view(args@), |a: int, b: int| a - b),
{
    if args.len() == 0 {
        return Ok(Value::Nil);
    }
    assert(values_view(args@)[0] == args@[0]@);
    assert(number_ok(args@[0]@));
    match (receiver, &args[0]) {
        (Value::Integer(a), Value::Integer(b)) => Ok(Value::Integer(big_sub(a, b))),
        (Value::Integer(_), Value::Double(_)) => Err(NumError::DoubleOperand),
        _ => Ok(Value::Nil),
    }
}

/// `Integer>>*`: the product.
pub fn int_mul(receiver: &Value, args: &Vec<Value>) -> (r: Result<Value, NumError>)
    requires
        number_ok(receiver@),
        numbers_ok(args@),
    ensures
        result_view(r) == arith_spec(receiver@, values_view(args@), |a: int, b: int| a * b),
{
    if args.len() == 0 {
        return Ok(Value::Nil);
    }
    assert(values_view(args@)[0] == args@[0]@);
    assert(number_ok(args@[0]@));
    match (receiver, &args[0]) {
        (Value::Integer(a), Value::Integer(b)) => Ok(Value::Integer(big_mul(a, b))),
        (Value::Integer(_), Value::Double(_)) => Err(NumError::DoubleOperand),
        _ => Ok(Value::Nil),
    }
}

/// `Integer>>/`: the quotient, rounded towards negative infinity.
pub fn int_div(receiver: &Value, args: &Vec<Value>) -> (r: Result<Value, NumError>)
    requires
        number_ok(receiver@),
        numbers_ok(args@),
    ensures
        result_view(r) == division_spec(receiver@, values_view(args@), |a: int, b: int| floor_div(a, b), NumError::DivisionByZero),
{
    if args.len() == 0 {
        return Ok(Value::Nil);
    }
    assert(values_view(args@)[0] == args@[0]@);
    assert(number_ok(args@[0]@));
    match (receiver, &args[0]) {
        (Value::Integer(a), Value::Integer(b)) => {
            if big_is_zero(b) {
                Err(NumError::DivisionByZero)
            } else {
                Ok(Value::Integer(big_div_floor(a, b)))
            }
        },
        (Value::Integer(_), Value::Double(_)) => Err(NumError::DoubleOperand),
        _ => Ok(Value::Nil),
    }
}

/// `Integer>>%`: the remainder of `/`, of the divisor's sign.
pub fn int_mod(receiver: &Value, args: &Vec<Value>) -> (r: Result<Value, NumError>)
    requires
        number_ok(receiver@),
        numbers_ok(args@),
    ensures
        result_view(r) == division_spec(receiver@, values_view(args@), |a: int, b: int| floor_mod(a, b), NumError::ModuloByZero),
{
    if args.len() == 0 {
        return Ok(Value::Nil);
    }
    assert(values_view(args@)[0] == args@[0]@);
    assert(number_ok(args@[0]@));
    match (receiver, &args[0]) {
        (Value::Integer(a), Value::Integer(b)) => {
            if big_is_zero(b) {
                Err(NumError::ModuloByZero)
            } else {
                Ok(Value::Integer(big_mod_floor(a, b)))
            }
        },
        (Value::Integer(_), Value::Double(_)) => Err(NumError::DoubleOperand),
        _ => Ok(Value::Nil),
    }
}

/// `Integer>>rem:`: the remainder of the division rounded towards zero, of
/// the receiver's sign.
pub fn int_rem(receiver: &Value, args: &Vec<Value>) -> (r: Result<Value, NumError>)
    requires
        number_ok(receiver@),
        numbers_ok(args@),
    ensures
        result_view(r) == division_spec(receiver@, values_view(args@), |a: int, b: int| trunc_rem(a, b), NumError::ModuloByZero),
{
    if args.len() == 0 {
        return Ok(Value::Nil);
    }
    assert(values_view(args@)[0] == args@[0]@);
    assert(number_ok(args@[0]@));
    match (receiver, &args[0]) {
        (Value::Integer(a), Value::Integer(b)) => {
            if big_is_zero(b) {
                Err(NumError::ModuloByZero)
            } else {
                Ok(Value::Integer(big_rem(a, b)))
            }
        },
        (Value::Integer(_), Value::Double(_)) => Err(NumError::DoubleOperand),
        _ => Ok(Value::Nil),
    }
}

/// `Integer>>=`: whether the argument is the same integer.
pub fn int_eq(receiver: &Value, args: &Vec<Value>) -> (r: Result<Value, NumError>)
    requires
        number_ok(receiver@),
        numbers_ok(args@),
    ensures
        result_view(r) == compare_spec(receiver@, values_view(args@), |a: int, b: int| a == b),
{
    if args.len() == 0 {
        return Ok(Value::Boolean(false));
    }
    assert(values_view(args@)[0] == args@[0]@);
    assert(number_ok(args@[0]@));
    match (receiver, &args[0]) {
        (Value::Integer(a), Value::Integer(b)) => Ok(Value::Boolean(big_eq(a, b))),
        (Value::Integer(_), Value::Double(_)) => Err(NumError::DoubleOperand),
        _ => Ok(Value::Boolean(false)),
    }
}

/// `Integer>><`.
pub fn int_lt(receiver: &Value, args: &Vec<Value>) -> (r: Result<Value, NumError>)
    requires
        number_ok(receiver@),
        numbers_ok(args@),
    ensures
        result_view(r) == compare_spec(receiver@, values_view(args@), |a: int, b: int| a < b),
{
    if args.len() == 0 {
        return Ok(Value::Boolean(false));
    }
    assert(values_view(args@)[0] == args@[0]@);
    assert(number_ok(args@[0]@));
    match (receiver, &args[0]) {
        (Value::Integer(a), Value::Integer(b)) => Ok(Value::Boolean(big_lt(a, b))),
        (Value::Integer(_), Value::Double(_)) => Err(NumError::DoubleOperand),
        _ => Ok(Value::Boolean(false)),
    }
}

/// `Integer>><=`.
pub fn int_le(receiver: &Value, args: &Vec<Value>) -> (r: Result<Value, NumError>)
    requires
        number_ok(receiver@),
        numbers_ok(args@),
    ensures
        result_view(r) == compare_spec(receiver@, values_view(args@), |a: int, b: int| a <= b),
{
    if args.len() == 0 {
        return Ok(Value::Boolean(false));
    }
    assert(values_view(args@)[0] == args@[0]@);
    assert(number_ok(args@[0]@));
    match (receiver, &args[0]) {
        (Value::Integer(a), Value::Integer(b)) => Ok(Value::Boolean(big_le(a, b))),
        (Value::Integer(_), Value::Double(_)) => Err(NumError::DoubleOperand),
        _ => Ok(Value::Boolean(false)),
    }
}

/// `Integer>>&`: bitwise and, in two's complement.
pub fn int_bit_and(receiver: &Value, args: &Vec<Value>) -> (r: Value)
    requires
        number_ok(receiver@),
        numbers_ok(args@),
    ensures
        r@ == bitwise_spec(receiver@, values_view(args@), |a: int, b: int| bit_and(a, b)),
{
    if args.len() == 0 {
        return Value::Nil;
    }
    assert(values_view(args@)[0] == args@[0]@);
    assert(number_ok(args@[0]@));
    match (receiver, &args[0]) {
        (Value::Integer(a), Value::Integer(b)) => Value::Integer(big_and(a, b)),
        _ => Value::Nil,
    }
}

/// `Integer>>bitXor:`: bitwise exclusive or, in two's complement.
pub fn int_bit_xor(receiver: &Value, args: &Vec<Value>) -> (r: Value)
    requires
        number_ok(receiver@),
        numbers_ok(args@),
    ensures
        r@ == bitwise_spec(receiver@, values_view(args@), |a: int, b: int| bit_xor(a, b)),
{
    if args.len() == 0 {
        return Value::Nil;
    }
    assert(values_view(args@)[0] == args@[0]@);
    assert(number_ok(args@[0]@));
    match (receiver, &args[0]) {
        (Value::Integer(a), Value::Integer(b)) => Value::Integer(big_xor(a, b)),
        _ => Value::Nil,
    }
}

/// `Integer>>min:`.
pub fn int_min(receiver: &Value, args: &Vec<Value>) -> (r: Result<Value, NumError>)
    requires
        number_ok(receiver@),
        numbers_ok(args@),
    ensures
        result_view(r) == int_min_spec(receiver@, values_view(args@)),
{
    if args.len() == 0 {
        return Ok(Value::Nil);
    }
    assert(values_view(args@)[0] == args@[0]@);
    assert(number_ok(args@[0]@));
    match (receiver, &args[0]) {
        (Value::Integer(a), Value::Integer(b)) => if big_le(a, b) {
            Ok(receiver.copy())
        } else {
            Ok(args[0].copy())
        },
        (Value::Integer(_), Value::Double(_)) => Err(NumError::DoubleOperand),
        _ => Ok(Value::Nil),
    }
}

/// `Integer>>max:`.
pub fn int_max(receiver: &Value, args: &Vec<Value>) -> (r: Result<Value, NumError>)
    requires
        number_ok(receiver@),
        numbers_ok(args@),
    ensures
        result_view(r) == int_max_spec(receiver@, values_view(args@)),
{
    if args.len() == 0 {
        return Ok(Value::Nil);
    }
    assert(values_view(args@)[0] == args@[0]@);
    assert(number_ok(args@[0]@));
    match (receiver, &args[0]) {
        (Value::Integer(a), Value::Integer(b)) => if big_le(a, b) {
            Ok(args[0].copy())
        } else {
            Ok(receiver.copy())
        },
        (Value::Integer(_), Value::Double(_)) => Err(NumError::DoubleOperand),
        _ => Ok(Value::Nil),
    }
}

/// `Integer>>abs`: the absolute value; nil for a receiver that is not an integer.
pub fn int_abs(receiver: &Value) -> (r: Value)
    requires
        number_ok(receiver@),
    ensures
        r@ == match receiver@ {
            ValueV::Integer(a) => ValueV::Integer(int_text(abs(integer_value(a)))),
            _ => ValueV::Nil,
        },
{
    match receiver {
        Value::Integer(a) => Value::Integer(big_abs(a)),
        _ => Value::Nil,
    }
}

/// `Integer>>round`: the receiver.
pub fn int_round(receiver: &Value) -> (r: Value)
    ensures
        r@ == receiver@,
{
    receiver.copy()
}

/// The `u32` that an integer converts to, 0 when it does not fit.
pub(crate) fn u32_or_zero_of(t: &String) -> (r: u32)
    requires
        integer_text_ok(t@),
    ensures
        r == u32_or_zero(integer_value(t@)),
{
    match integer_to_i64(t) {
        Some(x) => if 0 <= x && x <= 0xFFFF_FFFF {
            x as u32
        } else {
            0
        },
        None => 0,
    }
}

/// `v & mask`, read back as an unsigned integer of at most `mask`.
fn low_bits_of(t: &String, mask: u64) -> (r: u64)
    requires
        integer_text_ok(t@),
    ensures
        r == low_bits(integer_value(t@), mask as int),
{
    let m = mask_text(mask);
    let masked = big_and(t, &m);
    proof {
        lemma_int_text(bit_and(integer_value(t@), mask as int));
    }
    match big_to_u64(&masked) {
        Some(x) => if x <= mask {
            x
        } else {
            0
        },
        None => 0,
    }
}

/// `Integer>><<`.
pub fn int_shl(receiver: &Value, args: &Vec<Value>) -> (r: Value)
    requires
        number_ok(receiver@),
        numbers_ok(args@),
    ensures
        r@ == int_shl_spec(receiver@, values_view(args@)),
{
    if args.len() == 0 {
        return Value::Nil;
    }
    assert(values_view(args@)[0] == args@[0]@);
    assert(number_ok(args@[0]@));
    match (receiver, &args[0]) {
        (Value::Integer(a), Value::Integer(b)) => {
            let shift = u32_or_zero_of(b);
            Value::Integer(big_shl(a, shift))
        },
        _ => Value::Nil,
    }
}

/// `Integer>>>>`. A shift by 64 or more overflows a `u64` shift.
pub fn int_shr(receiver: &Value, args: &Vec<Value>) -> (r: Value)
    requires
        number_ok(receiver@),
        numbers_ok(args@),
        (receiver@, first(values_view(args@))) matches (ValueV::Integer(_), Some(ValueV::Integer(b))) ==> u32_or_zero(
            integer_value(b),
        ) < 64,
    ensures
        r@ == int_shr_spec(receiver@, values_view(args@)),
{
    if args.len() == 0 {
        return Value::Nil;
    }
    assert(values_view(args@)[0] == args@[0]@);
    assert(number_ok(args@[0]@));
    match (receiver, &args[0]) {
        (Value::Integer(a), Value::Integer(b)) => {
            let shift = u32_or_zero_of(b);
            let v = low_bits_of(a, 0xFFFF_FFFF_FFFF_FFFF);
            Value::Integer(decimal_u64(v >> shift))
        },
        _ => Value::Nil,
    }
}

/// `Integer>>as32BitUnsignedValue`: the low 32 bits, as an unsigned number;
/// nil for a receiver that is not an integer.
pub fn int_as_32bit_unsigned(receiver: &Value) -> (r: Value)
    requires
        number_ok(receiver@),
    ensures
        r@ == match receiver@ {
            ValueV::Integer(a) => ValueV::Integer(int_text(low_bits(integer_value(a), u32::MAX as int))),
            _ => ValueV::Nil,
        },
{
    match receiver {
        Value::Integer(a) => {
            let v = low_bits_of(a, 0xFFFF_FFFF);
            Value::Integer(decimal_u64(v))
        },
        _ => Value::Nil,
    }
}

/// `Integer>>as32BitSignedValue`: the low 32 bits, as a signed number; nil
/// for a receiver that is not an integer.
pub fn int_as_32bit_signed(receiver: &Value) -> (r: Value)
    requires
        number_ok(receiver@),
    ensures
        r@ == match receiver@ {
            ValueV::Integer(a) => ValueV::Integer(int_text(signed32(integer_value(a)))),
            _ => ValueV::Nil,
        },
{
    match receiver {
        Value::Integer(a) => {
            let u = low_bits_of(a, 0xFFFF_FFFF);
            let v: i64 = if u >= 0x8000_0000 {
                u as i64 - 0x1_0000_0000
            } else {
                u as i64
            };
            Value::Integer(signed_text(v))
        },
        _ => Value::Nil,
    }
}

/// `Integer class>>fromString:`.
pub fn int_from_string(heap: &Heap, args: &Vec<Value>) -> (r: Value)
    requires
        crate::collections::valid_args(heap@, args@),
    ensures
        r@ == int_from_string_spec(heap@, values_view(args@)),
{
    if args.len() == 0 {
        return Value::Nil;
    }
    assert(values_view(args@)[0] == args@[0]@);
    assert(crate::collections::valid_value(heap@, args@[0]@));
    match crate::collections::text_of_value(heap, &args[0]) {
        Some(t) => match big_parse(&t) {
            Some(i) => Value::Integer(i),
            None => Value::Nil,
        },
        None => Value::Nil,
    }
}

/// `Integer>>asString`: a new string holding the integer's decimal text; nil
/// for a receiver that is not an integer.
pub fn int_as_string(heap: &mut Heap, receiver: &Value) -> (r: Value)
    requires
        number_ok(receiver@),
    ensures
        match receiver@ {
            ValueV::Integer(a) => r@ == ValueV::String(old(heap)@.len() as usize) && final(heap)@ == old(heap)@.push(
                CellV::Str(int_text(integer_value(a))),
            ),
            _ => r@ == ValueV::Nil && final(heap)@ == old(heap)@,
        },
{
    match receiver {
        Value::Integer(a) => {
            let t = big_to_string(a);
            crate::collections::new_string(heap, t)
        },
        _ => Value::Nil,
    }
}

// ---------------------------------------------------------------------------
// num-bigint
// ---------------------------------------------------------------------------

/// `BigInt` addition (`+`): the sum of the two integers.
#[verifier::external_body]
fn big_add(a: &String, b: &String) -> (r: String)
    requires
        integer_text_ok(a@),
        integer_text_ok(b@),
    ensures
        r@ == int_text(integer_value(a@) + integer_value(b@)),
{
    let x: BigInt = a.parse().unwrap();
    let y: BigInt = b.parse().unwrap();
    (x + y).to_string()
}

/// `BigInt` subtraction (`-`): the difference of the two integers.
#[verifier::external_body]
fn big_sub(a: &String, b: &String) -> (r: String)
    requires
        integer_text_ok(a@),
        integer_text_ok(b@),
    ensures
        r@ == int_text(integer_value(a@) - integer_value(b@)),
{
    let x: BigInt = a.parse().unwrap();
    let y: BigInt = b.parse().unwrap();
    (x - y).to_string()
}

/// `BigInt` multiplication (`*`): the product of the two integers.
#[verifier::external_body]
fn big_mul(a: &String, b: &String) -> (r: String)
    requires
        integer_text_ok(a@),
        integer_text_ok(b@),
    ensures
        r@ == int_text(integer_value(a@) * integer_value(b@)),
{
    let x: BigInt = a.parse().unwrap();
    let y: BigInt = b.parse().unwrap();
    (x * y).to_string()
}

/// `Integer::div_floor` of num-integer on `BigInt`: the quotient rounded
/// towards negative infinity (it panics on a zero divisor).
#[verifier::external_body]
fn big_div_floor(a: &String, b: &String) -> (r: String)
    requires
        integer_text_ok(a@),
        integer_text_ok(b@),
        integer_value(b@) != 0,
    ensures
        r@ == int_text(floor_div(integer_value(a@), integer_value(b@))),
{
    let x: BigInt = a.parse().unwrap();
    let y: BigInt = b.parse().unwrap();
    x.div_floor(&y).to_string()
}

/// `Integer::mod_floor` of num-integer on `BigInt`: the remainder of the
/// division rounded towards negative infinity, of the divisor's sign.
#[verifier::external_body]
fn big_mod_floor(a: &String, b: &String) -> (r: String)
    requires
        integer_text_ok(a@),
        integer_text_ok(b@),
        integer_value(b@) != 0,
    ensures
        r@ == int_text(floor_mod(integer_value(a@), integer_value(b@))),
{
    let x: BigInt = a.parse().unwrap();
    let y: BigInt = b.parse().unwrap();
    x.mod_floor(&y).to_string()
}

/// `BigInt` remainder (`%`): the remainder of the division rounded towards
/// zero, of the dividend's sign.
#[verifier::external_body]
fn big_rem(a: &String, b: &String) -> (r: String)
    requires
        integer_text_ok(a@),
        integer_text_ok(b@),
        integer_value(b@) != 0,
    ensures
        r@ == int_text(trunc_rem(integer_value(a@), integer_value(b@))),
{
    let x: BigInt = a.parse().unwrap();
    let y: BigInt = b.parse().unwrap();
    (x % y).to_string()
}

/// `BigInt` equality (`==`).
#[verifier::external_body]
pub(crate) fn big_eq(a: &String, b: &String) -> (r: bool)
    requires
        integer_text_ok(a@),
        integer_text_ok(b@),
    ensures
        r == (integer_value(a@) == integer_value(b@)),
{
    let x: BigInt = a.parse().unwrap();
    let y: BigInt = b.parse().unwrap();
    x == y
}

/// `Zero::is_zero` on `BigInt`: whether the integer is zero.
#[verifier::external_body]
fn big_is_zero(a: &String) -> (r: bool)
    requires
        integer_text_ok(a@),
    ensures
        r == (integer_value(a@) == 0),
{
    let x: BigInt = a.parse().unwrap();
    x.is_zero()
}

/// `BigInt` ordering (`<`).
#[verifier::external_body]
fn big_lt(a: &String, b: &String) -> (r: bool)
    requires
        integer_text_ok(a@),
        integer_text_ok(b@),
    ensures
        r == (integer_value(a@) < integer_value(b@)),
{
    let x: BigInt = a.parse().unwrap();
    let y: BigInt = b.parse().unwrap();
    x < y
}

/// `BigInt` ordering (`<=`).
#[verifier::external_body]
fn big_le(a: &String, b: &String) -> (r: bool)
    requires
        integer_text_ok(a@),
        integer_text_ok(b@),
    ensures
        r == (integer_value(a@) <= integer_value(b@)),
{
    let x: BigInt = a.parse().unwrap();
    let y: BigInt = b.parse().unwrap();
    x <= y
}

/// `BigInt` bitwise and (`&`), in two's complement.
#[verifier::external_body]
fn big_and(a: &String, b: &String) -> (r: String)
    requires
        integer_text_ok(a@),
        integer_text_ok(b@),
    ensures
        r@ == int_text(bit_and(integer_value(a@), integer_value(b@))),
{
    let x: BigInt = a.parse().unwrap();
    let y: BigInt = b.parse().unwrap();
    (x & y).to_string()
}

/// `BigInt` bitwise exclusive or (`^`), in two's complement.
#[verifier::external_body]
fn big_xor(a: &String, b: &String) -> (r: String)
    requires
        integer_text_ok(a@),
        integer_text_ok(b@),
    ensures
        r@ == int_text(bit_xor(integer_value(a@), integer_value(b@))),
{
    let x: BigInt = a.parse().unwrap();
    let y: BigInt = b.parse().unwrap();
    (x ^ y).to_string()
}

/// `BigInt` shift to the left (`<<` by a `u32`): the integer times 2^shift.
#[verifier::external_body]
fn big_shl(a: &String, shift: u32) -> (r: String)
    requires
        integer_text_ok(a@),
    ensures
        r@ == int_text(integer_value(a@) * vstd::arithmetic::power2::pow2(shift as nat)),
{
    let x: BigInt = a.parse().unwrap();
    (x << shift).to_string()
}

/// `ToPrimitive::to_u64` on `BigInt`: the integer when it fits in a `u64`.
#[verifier::external_body]
fn big_to_u64(a: &String) -> (r: Option<u64>)
    requires
        integer_text_ok(a@),
    ensures
        match r {
            Some(v) => v == integer_value(a@),
            None => !(0 <= integer_value(a@) <= u64::MAX),
        },
{
    let x: BigInt = a.parse().unwrap();
    x.to_u64()
}

/// `ToPrimitive::to_usize` on `BigInt`: the integer when it fits in a `usize`.
#[verifier::external_body]
pub(crate) fn big_to_usize(a: &String) -> (r: Option<usize>)
    requires
        integer_text_ok(a@),
    ensures
        match r {
            Some(v) => v == integer_value(a@),
            None => !(0 <= integer_value(a@) <= usize::MAX),
        },
{
    let x: BigInt = a.parse().unwrap();
    x.to_usize()
}

/// `Signed::abs` on `BigInt`: the absolute value.
#[verifier::external_body]
fn big_abs(a: &String) -> (r: String)
    requires
        integer_text_ok(a@),
    ensures
        r@ == int_text(abs(integer_value(a@))),
{
    let x: BigInt = a.parse().unwrap();
    x.abs().to_string()
}

/// `BigInt`'s `Display` (`to_string`): the decimal text of the integer,
/// without leading zeros, with a `-` when it is negative.
#[verifier::external_body]
fn big_to_string(a: &String) -> (r: String)
    requires
        integer_text_ok(a@),
    ensures
        r@ == int_text(integer_value(a@)),
{
    let x: BigInt = a.parse().unwrap();
    x.to_string()
}

/// `BigInt`'s `FromStr` (`parse`): the integer a text denotes, given back
/// as its decimal text; `None` when the text is not one that it accepts.
#[verifier::external_body]
fn big_parse(s: &String) -> (r: Option<String>)
    ensures
        r is Some <==> big_text_ok(s@),
        r matches Some(t) ==> t@ == int_text(big_text_value(s@)),
{
    match s.parse::<BigInt>() {
        Ok(x) => Some(x.to_string()),
        Err(_) => None,
    }
}

/// The hash code of an integer: its remainder by 2^31 - 1, of its sign, cut
/// to its low 31 bits as two's complement has them.
pub open spec fn integer_hash(x: int) -> int {
    trunc_rem(x, 0x7FFF_FFFF) % 0x8000_0000
}

/// The 64-bit hash of a text that std's default hasher, built unseeded by
/// `BuildHasherDefault`, gives.
pub uninterp spec fn default_hash(s: Seq<char>) -> u64;

/// The hash code of a value: of an integer, `integer_hash`; of a double, the
/// low 31 bits of its bits; of a string or symbol, the low 31 bits of the
/// default hash of its text; 1 for true and 0 for false and nil; of what is
/// kept in a table, the low 31 bits of its index there, which tells it from
/// every other thing of its kind as an address would.
pub open spec fn hash_code(cells: Seq<CellV>, v: ValueV) -> int {
    match v {
        ValueV::Integer(t) => integer_hash(integer_value(t)),
        ValueV::Double(b) => (b % 0x8000_0000) as int,
        ValueV::String(c) => match cells[c as int] {
            CellV::Str(t) => (default_hash(t) % 0x8000_0000) as int,
            _ => 0,
        },
        ValueV::Symbol(t) => (default_hash(t) % 0x8000_0000) as int,
        ValueV::Boolean(b) => if b {
            1
        } else {
            0
        },
        ValueV::Nil => 0,
        ValueV::Object(c) => (c % 0x8000_0000) as int,
        ValueV::Array(c) => (c % 0x8000_0000) as int,
        ValueV::Class(k) => (k % 0x8000_0000) as int,
        ValueV::Method(m) => (m % 0x8000_0000) as int,
        ValueV::Block(b) => (b % 0x8000_0000) as int,
        ValueV::Runtime => 0,
    }
}

/// Hashes a text with std's default hasher, unseeded (`BuildHasher::hash_one`
/// on `BuildHasherDefault<DefaultHasher>`); the contract names the result
/// and says nothing of the algorithm.
#[verifier::external_body]
fn hash_text(s: &str) -> (r: u64)
    ensures
        r == default_hash(s@),
{
    std::hash::BuildHasher::hash_one(&std::hash::BuildHasherDefault::<std::collections::hash_map::DefaultHasher>::default(), s)
}

/// The low 31 bits of `x`.
fn low31(x: u64) -> (r: u64)
    ensures
        r == x % 0x8000_0000,
{
    let r = x & 0x7FFF_FFFF;
    assert(x & 0x7FFF_FFFF == x % 0x8000_0000) by (bit_vector);
    r
}

/// `integer_hash` of the integer written `t`.
fn integer_hashcode(t: &String) -> (r: u64)
    requires
        integer_text_ok(t@),
    ensures
        r == integer_hash(integer_value(t@)),
{
    let m = decimal_u64(0x7FFF_FFFF);
    proof {
        lemma_int_text(0x7FFF_FFFF);
    }
    let rem = big_rem(t, &m);
    let ghost x = integer_value(t@);
    let ghost q = trunc_rem(x, 0x7FFF_FFFF);
    proof {
        law_truncated_division(x, 0x7FFF_FFFF);
        lemma_int_text(q);
    }
    match integer_to_i64(&rem) {
        Some(v) => {
            assert(v == q);
            if v >= 0 {
                v as u64
            } else {
                (v + 0x8000_0000) as u64
            }
        },
        None => {
            assert(false);
            0
        },
    }
}

/// `Object>>hashcode` and `String>>hashcode`: the receiver's `hash_code`.
pub fn obj_hashcode(heap: &Heap, receiver: &Value) -> (r: Value)
    requires
        crate::collections::valid_value(heap@, receiver@),
    ensures
        r@ == ValueV::Integer(decimal(hash_code(heap@, receiver@) as nat)),
{
    let h: u64 = match receiver {
        Value::Integer(t) => integer_hashcode(t),
        Value::Double(b) => low31(*b),
        Value::String(_) | Value::Symbol(_) => match crate::collections::text_of_value(heap, receiver) {
            Some(t) => low31(hash_text(t.as_str())),
            None => 0,
        },
        Value::Boolean(b) => if *b {
            1
        } else {
            0
        },
        Value::Nil => 0,
        Value::Object(c) => low31(*c as u64),
        Value::Array(c) => low31(*c as u64),
        Value::Class(k) => low31(*k as u64),
        Value::Method(m) => low31(*m as u64),
        Value::Block(b) => low31(*b as u64),
        Value::Runtime => 0,
    };
    Value::Integer(decimal_u64(h))
}

/// `Integer>>atRandom` given a count of nanoseconds `nanos`: for a receiver
/// that fits an `i64` and is positive, `nanos` modulo the receiver, plus 1; 1
/// for any other integer; nil for a receiver that is not an integer.
pub open spec fn at_random_spec(recv: ValueV, nanos: u128) -> ValueV {
    match recv {
        ValueV::Integer(a) => {
            let v = integer_value(a);
            let limit = if i64::MIN <= v <= i64::MAX { v } else { 1 };
            ValueV::Integer(int_text(if limit > 0 { (nanos as int) % limit + 1 } else { 1 }))
        },
        _ => ValueV::Nil,
    }
}

/// The nanoseconds since the Unix epoch, as the system clock reads them (0
/// for a clock set before the epoch); nothing is promised of the reading.
#[verifier::external_body]
fn clock_nanos() -> (r: u128) {
    match std::time::SystemTime::now().duration_since(std::time::UNIX_EPOCH) {
        Ok(d) => d.as_nanos(),
        Err(_) => 0,
    }
}

/// `Integer>>atRandom`, from a clock reading `nanos`, as `at_random_spec` says.
pub fn int_at_random_from(receiver: &Value, nanos: u128) -> (r: Value)
    requires
        number_ok(receiver@),
    ensures
        r@ == at_random_spec(receiver@, nanos),
{
    match receiver {
        Value::Integer(a) => {
            let limit: i64 = match integer_to_i64(a) {
                Some(v) => v,
                None => 1,
            };
            let v: u64 = if limit > 0 {
                (nanos % (limit as u128)) as u64 + 1
            } else {
                1
            };
            Value::Integer(decimal_u64(v))
        },
        _ => Value::Nil,
    }
}

/// `Integer>>atRandom`: a number from 1 to the receiver, taken from the
/// system clock, as `int_at_random_from` computes it from the clock's reading.
pub fn int_at_random(receiver: &Value) -> (r: Value)
    requires
        number_ok(receiver@),
    ensures
        exists|nanos: u128| r@ == at_random_spec(receiver@, nanos),
{
    let nanos = clock_nanos();
    let r = int_at_random_from(receiver, nanos);
    assert(r@ == at_random_spec(receiver@, nanos));
    r
}

/// The decimal text of a `u128`.
fn decimal_u128(n: u128) -> (s: String)
    ensures
        s@ == decimal(n as nat),
    decreases n,
{
    if n < 10 {
        let mut s = String::new();
        crate::text::push_char(&mut s, crate::collections::exec_digit_char(n as usize));
        assert(s@ =~= seq![crate::collections::digit_char(n as int)]);
        s
    } else {
        let mut s = decimal_u128(n / 10);
        crate::text::push_char(&mut s, crate::collections::exec_digit_char((n % 10) as usize));
        s
    }
}

/// The text of the whole units of `per` nanoseconds in `nanos`.
pub open spec fn clock_text(nanos: u128, per: u128) -> Seq<char> {
    decimal((nanos / per) as nat)
}

/// `System>>time` and `System>>ticks` from a clock reading `nanos`: the
/// milliseconds (`per` 1000000) or microseconds (`per` 1000) it counts.
pub fn clock_value(nanos: u128, per: u128) -> (r: Value)
    requires
        per > 0,
    ensures
        r@ == ValueV::Integer(clock_text(nanos, per)),
{
    Value::Integer(decimal_u128(nanos / per))
}

/// `System>>time`: the milliseconds since the Unix epoch, as the system
/// clock reads them.
pub fn sys_time() -> (r: Value)
    ensures
        exists|nanos: u128| r@ == ValueV::Integer(#[trigger] clock_text(nanos, 1_000_000)),
{
    let nanos = clock_nanos();
    clock_value(nanos, 1_000_000)
}

/// `System>>ticks`: the microseconds since the Unix epoch, as the system
/// clock reads them.
pub fn sys_ticks() -> (r: Value)
    ensures
        exists|nanos: u128| r@ == ValueV::Integer(#[trigger] clock_text(nanos, 1_000)),
{
    let nanos = clock_nanos();
    clock_value(nanos, 1_000)
}

/// The exit code that `System>>exit:` asks for: the argument when it is an
/// integer that fits an `i32`, 0 for another integer; `None` (the answer is
/// nil) for anything else.
pub open spec fn exit_code(args: Seq<ValueV>) -> Option<i32> {
    match first(args) {
        Some(ValueV::Integer(t)) => Some(
            if i32::MIN <= integer_value(t) <= i32::MAX {
                integer_value(t) as i32
            } else {
                0
            },
        ),
        _ => None,
    }
}

/// `System>>exit:`, as `exit_code` says; the caller ends the program.
pub fn sys_exit_code(args: &Vec<Value>) -> (r: Option<i32>)
    requires
        numbers_ok(args@),
    ensures
        r == exit_code(values_view(args@)),
{
    if args.len() == 0 {
        return None;
    }
    assert(values_view(args@)[0] == args@[0]@);
    assert(number_ok(args@[0]@));
    match &args[0] {
        Value::Integer(t) => match integer_to_i64(t) {
            Some(v) => Some(
                if i32::MIN as i64 <= v && v <= i32::MAX as i64 {
                    v as i32
                } else {
                    0
                },
            ),
            None => Some(0),
        },
        _ => None,
    }
}

} // verus!

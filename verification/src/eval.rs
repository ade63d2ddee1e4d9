//! The interpreter proper: evaluating expressions in an activation, running
//! methods and blocks, and sending messages, over the state of `runtime`.
//!
//! Evaluations and sends nest at most `MAX_DEPTH` and `MAX_SEND_DEPTH` deep,
//! as a stack of calls would; that bound is what ends every recursion here.
//! What is proved of each step is that it keeps the state well formed, keeps
//! every activation there was, and answers only returns to activations that
//! exist.
use vstd::prelude::*;
use crate::ast::{Block, ClassDef, Expression, Literal, LiteralV, Message, lemma_literal_views_push, literal_view, literal_views};
use crate::numbers::{
    abs, arith_spec, bit_and, bit_xor, bitwise_spec, compare_spec, division_spec, floor_div, floor_mod, int_max_spec,
    int_min_spec, int_shl_spec, int_shr_spec, int_text, low_bits, number_ok, numbers_ok, signed32, trunc_rem, NumError,
};
use crate::object::{values_view, CellV, HeapCell, Value, ValueV};
use crate::collections::PrimitiveError;
use crate::runtime::{
    class_fields_ok, deactivate, ref_ok, BlockClosure, BlockV, Dispatch, MethodCode, Outcome, Store, StoreV,
    SuperError,
};

verus! {

/// How deep evaluations may nest.
pub const MAX_DEPTH: usize = 2000;

/// How deep message sends may nest.
pub const MAX_SEND_DEPTH: usize = 1000;

/// Why an evaluation stopped without an answer.
#[derive(Debug, PartialEq, Eq)]
pub enum EvalError {
    /// Evaluations nested deeper than `MAX_DEPTH`.
    RecursionLimit,
    /// Message sends nested deeper than `MAX_SEND_DEPTH`.
    SendLimit,
    /// An assignment to a name that is no variable.
    CannotAssign(String),
    /// A `^` or a `super` send outside any method.
    NoMethodActivation,
    /// A `super` send from a class that has no superclass.
    NoSuperclass,
    /// A `super` send that no superclass answers.
    NotFound(String),
    /// The class of a receiver cannot be found.
    NoClass,
    /// A value that refers to something the state does not hold.
    BadReference,
    /// Arithmetic with a zero divisor.
    Arithmetic(NumError),
    /// An index (its text) outside an array of the given size.
    IndexOutOfBounds(String, usize),
    /// `Array new:` with a negative size.
    NegativeSize,
    /// `Array new:` with a size above the largest array.
    SizeTooLarge,
    /// A right shift of a 64-bit word by 64 bits or more.
    ShiftOverflow,
    /// `System>>exit:` asked the program to end with this code.
    Exit(i32),
    /// Assembling this class would leave the state ill formed (a class among
    /// its own superclasses, say); it is left unassembled.
    IllFormedClass(String),
    /// A primitive, or a literal, that needs what this interpreter does not
    /// do (floating point, files, the network, a window).
    Unavailable(String),
    /// A loop that ran more rounds than a 64-bit counter counts.
    LoopLimit,
    /// A return out of a method, or a restart, that left the send it was
    /// made in.
    Escaped,
    /// A message that the receiver does not understand: its selector.
    NotUnderstood(String),
    /// `Object>>error:` stopped the run with this message.
    Raised(String),
}

/// The text that reports error `e`: a nesting limit reads as a stack
/// overflow, and an error that names a selector, a class, a key or a message
/// ends with it.
pub open spec fn error_text(e: EvalError) -> Seq<char> {
    match e {
        EvalError::RecursionLimit => "Stack overflow: evaluations nest too deeply"@,
        EvalError::SendLimit => "Stack overflow: message sends nest too deeply"@,
        EvalError::CannotAssign(n) => "Cannot assign to "@ + n@,
        EvalError::NoMethodActivation => "A return or super send outside any method"@,
        EvalError::NoSuperclass => "A super send from a class without a superclass"@,
        EvalError::NotFound(n) => "Method not found: "@ + n@,
        EvalError::NoClass => "The receiver has no class"@,
        EvalError::BadReference => "A value refers to what the state does not hold"@,
        EvalError::Arithmetic(NumError::DivisionByZero) => "Division by zero"@,
        EvalError::Arithmetic(NumError::ModuloByZero) => "Modulo by zero"@,
        EvalError::Arithmetic(NumError::DoubleOperand) => "Floating-point arithmetic is not available"@,
        EvalError::IndexOutOfBounds(i, _) => "Index out of bounds: "@ + i@,
        EvalError::NegativeSize => "An array of negative size"@,
        EvalError::SizeTooLarge => "An array too large to make"@,
        EvalError::ShiftOverflow => "Shift by 64 bits or more"@,
        EvalError::Exit(_) => "The program asked to exit"@,
        EvalError::IllFormedClass(n) => "Ill-formed class: "@ + n@,
        EvalError::Unavailable(k) => "Not available here: "@ + k@,
        EvalError::LoopLimit => "A loop ran too many rounds"@,
        EvalError::Escaped => "A return or restart escaped its send"@,
        EvalError::NotUnderstood(n) => "Message not understood: "@ + n@,
        EvalError::Raised(m) => "Error: "@ + m@,
    }
}

impl EvalError {
    /// The text that reports this error, as `error_text` says.
    pub fn message(&self) -> (r: String)
        ensures
            r@ == error_text(*self),
    {
        match self {
            EvalError::RecursionLimit => String::from_str("Stack overflow: evaluations nest too deeply"),
            EvalError::SendLimit => String::from_str("Stack overflow: message sends nest too deeply"),
            EvalError::CannotAssign(n) => {
                let mut t = String::from_str("Cannot assign to ");
                t.append(n.as_str());
                t
            },
            EvalError::NoMethodActivation => String::from_str("A return or super send outside any method"),
            EvalError::NoSuperclass => String::from_str("A super send from a class without a superclass"),
            EvalError::NotFound(n) => {
                let mut t = String::from_str("Method not found: ");
                t.append(n.as_str());
                t
            },
            EvalError::NoClass => String::from_str("The receiver has no class"),
            EvalError::BadReference => String::from_str("A value refers to what the state does not hold"),
            EvalError::Arithmetic(NumError::DivisionByZero) => String::from_str("Division by zero"),
            EvalError::Arithmetic(NumError::ModuloByZero) => String::from_str("Modulo by zero"),
            EvalError::Arithmetic(NumError::DoubleOperand) => String::from_str("Floating-point arithmetic is not available"),
            EvalError::IndexOutOfBounds(i, _) => {
                let mut t = String::from_str("Index out of bounds: ");
                t.append(i.as_str());
                t
            },
            EvalError::NegativeSize => String::from_str("An array of negative size"),
            EvalError::SizeTooLarge => String::from_str("An array too large to make"),
            EvalError::ShiftOverflow => String::from_str("Shift by 64 bits or more"),
            EvalError::Exit(_) => String::from_str("The program asked to exit"),
            EvalError::IllFormedClass(n) => {
                let mut t = String::from_str("Ill-formed class: ");
                t.append(n.as_str());
                t
            },
            EvalError::Unavailable(k) => {
                let mut t = String::from_str("Not available here: ");
                t.append(k.as_str());
                t
            },
            EvalError::LoopLimit => String::from_str("A loop ran too many rounds"),
            EvalError::Escaped => String::from_str("A return or restart escaped its send"),
            EvalError::NotUnderstood(n) => {
                let mut t = String::from_str("Message not understood: ");
                t.append(n.as_str());
                t
            },
            EvalError::Raised(m) => {
                let mut t = String::from_str("Error: ");
                t.append(m.as_str());
                t
            },
        }
    }
}

/// `t` comes after `s` in a run: it is well formed and keeps every
/// activation of `s`.
pub open spec fn follows(s: StoreV, t: StoreV) -> bool {
    &&& t.wf()
    &&& s.acts.len() <= t.acts.len()
}

/// A return out of a method names an activation of `t`.
pub open spec fn fits(t: StoreV, r: Result<Outcome, EvalError>) -> bool {
    r matches Ok(Outcome::NonLocalReturn(_, target)) ==> target < t.acts.len()
}

/// What evaluating a literal makes of state `s`: its value (an integer in
/// its decimal form, without leading zeros or a sign on zero), and the state
/// with the cells the literal needs, those of an array's elements first and
/// then the array's own; `None` for a literal that holds a double.
pub open spec fn literal_result(s: StoreV, l: LiteralV) -> Option<(ValueV, StoreV)>
    decreases l, 1nat,
{
    match l {
        LiteralV::Integer(t) => Some((ValueV::Integer(crate::compiler::canonical_integer(t)), s)),
        LiteralV::Double(_) => None,
        LiteralV::String(t) => Some((ValueV::String(s.cells.len() as usize), crate::reflect::push_cell(s, CellV::Str(t)))),
        LiteralV::Symbol(t) => Some((ValueV::Symbol(t), s)),
        LiteralV::Array(elems) => match literals_result(s, elems) {
            Some((vals, t)) => Some(
                (ValueV::Array(t.cells.len() as usize), crate::reflect::push_cell(t, CellV::Array(vals))),
            ),
            None => None,
        },
    }
}

/// The values of literals evaluated in order from state `s`, and the state
/// after the last.
pub open spec fn literals_result(s: StoreV, ls: Seq<LiteralV>) -> Option<(Seq<ValueV>, StoreV)>
    decreases ls, 0nat,
{
    if ls.len() == 0 {
        Some((Seq::empty(), s))
    } else {
        proof {
            assert(decreases_to!(ls => ls[ls.len() - 1]));
        }
        match literals_result(s, ls.drop_last()) {
            Some((vs, t)) => match literal_result(t, ls.last()) {
                Some((v, u)) => Some((vs.push(v), u)),
                None => None,
            },
            None => None,
        }
    }
}

/// Once a prefix of the literals fails to evaluate, all of them do.
proof fn lemma_literals_none_extends(s: StoreV, ls: Seq<Literal>, n: int)
    requires
        0 <= n <= ls.len(),
        literals_result(s, literal_views(ls.take(n))) is None,
    ensures
        literals_result(s, literal_views(ls)) is None,
    decreases ls.len() - n,
{
    if n < ls.len() {
        lemma_literal_views_push(ls.take(n), ls[n]);
        assert(ls.take(n + 1) =~= ls.take(n).push(ls[n]));
        let xs = literal_views(ls.take(n + 1));
        assert(xs.drop_last() =~= literal_views(ls.take(n)));
        lemma_literals_none_extends(s, ls, n + 1);
    } else {
        assert(ls.take(n) =~= ls);
    }
}

/// What evaluating `e` in activation `a` of `s` gives where no message is
/// sent: the value of a literal (with the cells it needs), the value of a
/// variable that is bound, a new block closure made of a block.
pub open spec fn direct_outcome(s: StoreV, e: Expression, a: int, r: Result<Outcome, EvalError>, t: StoreV) -> bool {
    match e {
        Expression::Literal(l) => match literal_result(s, literal_view(l)) {
            Some((v, u)) => r matches Ok(Outcome::Value(x)) && x@ == v && t == u,
            None => r is Err,
        },
        Expression::Variable(n) => n@ != "super"@ && crate::runtime::lookup_var(s, n@, a) is Some ==> (r matches Ok(
            Outcome::Value(x),
        ) && Some(x@) == crate::runtime::lookup_var(s, n@, a) && t == s),
        Expression::Block(_) => r matches Ok(Outcome::Value(x)) && x@ == ValueV::Block(s.blocks.len() as usize),
        _ => true,
    }
}

/// What sending a message to `recv` gives where no code runs: no class
/// to look the selector up in, an integer asked for itself, or a selector
/// that no class up the chain answers, which stops the run with an error
/// naming it. A method or block that runs pushes its activation.
pub open spec fn direct_send(
    s: StoreV,
    recv: ValueV,
    sel: Seq<char>,
    args: Seq<ValueV>,
    d: int,
    r: Result<Outcome, EvalError>,
    t: StoreV,
) -> bool {
    &&& !ref_ok(s, recv) ==> (r matches Err(EvalError::BadReference) && t == s)
    &&& ref_ok(s, recv) ==> match crate::runtime::dispatch_of(s, recv, sel) {
        Dispatch::NoClass => r matches Err(EvalError::NoClass) && t == s,
        Dispatch::Receiver => r matches Ok(Outcome::Value(x)) && x@ == recv && t == s,
        Dispatch::NotUnderstood => r matches Err(EvalError::NotUnderstood(n)) && n@ == sel && t == s,
        Dispatch::Run(m) => {
            &&& m >= s.methods.len() ==> (r matches Err(EvalError::BadReference) && t == s)
            &&& m < s.methods.len() ==> runs_method(s, m as int, recv, args, d, r, t)
        },
        Dispatch::RunBlock(b) => b < s.blocks.len() ==> t.acts.len() > s.acts.len(),
    }
}

/// The text that the first of `args` names as a string or symbol; empty
/// for any other argument, or none.
pub open spec fn named_text(cells: Seq<CellV>, args: Seq<ValueV>) -> Seq<char> {
    if args.len() > 0 {
        match crate::collections::text_of(cells, args[0]) {
            Some(t) => t,
            None => Seq::empty(),
        }
    } else {
        Seq::empty()
    }
}

/// Marks a result and the state after it that an evaluation passes
/// through, for the quantifiers that name them.
pub open spec fn stage<A, B>(r: A, t: B) -> bool {
    true
}

/// What `Integer>>to:do:` (`up`) or `Integer>>downTo:do:` gives from the
/// counter `cur` toward the limit `lim`, with block `b`, receiver `recv`
/// and `fuel` rounds left. Once the counter is past the limit (above it
/// counting up, below it counting down) the loop answers the receiver;
/// otherwise the block runs with the counter as its argument and, where it
/// answers a value, the loop goes on with the next integer up or down; any
/// other outcome of the block ends the loop with it. `runs` are the
/// counters the block ran with, in order.
pub open spec fn counted(
    s: StoreV,
    b: int,
    recv: ValueV,
    cur: Seq<char>,
    lim: int,
    up: bool,
    d: int,
    fuel: nat,
    runs: Seq<int>,
    r: Result<Outcome, EvalError>,
    t: StoreV,
) -> bool
    decreases fuel,
{
    if fuel == 0 {
        runs.len() == 0 && (r matches Err(EvalError::LoopLimit) && t == s)
    } else if !crate::serialize::integer_text_ok(cur) {
        runs.len() == 0 && (r matches Err(EvalError::BadReference) && t == s)
    } else if (up && crate::collections::integer_value(cur) > lim) || (!up && crate::collections::integer_value(cur) < lim) {
        runs.len() == 0 && (r matches Ok(Outcome::Value(x)) && x@ == recv && t == s)
    } else if b < 0 || b >= s.blocks.len() {
        runs.len() == 0 && (r matches Err(EvalError::BadReference) && t == s)
    } else {
        let a = crate::collections::integer_value(cur);
        let next = int_text(if up { a + 1 } else { a - 1 });
        &&& runs.len() > 0
        &&& runs[0] == a
        &&& exists|r1: Result<Outcome, EvalError>, s1: StoreV|
            #[trigger] stage(r1, s1) && runs_block(s, b, seq![ValueV::Integer(cur)], d, r1, s1) && match r1 {
                Ok(Outcome::Value(_)) => counted(s1, b, recv, next, lim, up, d, (fuel - 1) as nat, runs.drop_first(), r, t),
                _ => runs.len() == 1 && r == r1 && t == s1,
            }
    }
}

/// A counting loop that ends with a value ran its block once with each
/// integer from the counter to the limit, in order (the limit included,
/// none where the counter is already past it), and answered the receiver:
/// `a to: b do:` runs it with `a`, `a + 1`, ..., `b`; `a downTo: b do:`
/// with `a`, `a - 1`, ..., `b`.
pub proof fn law_counted_runs_each_integer(
    s: StoreV,
    b: int,
    recv: ValueV,
    cur: Seq<char>,
    lim: int,
    up: bool,
    d: int,
    fuel: nat,
    runs: Seq<int>,
    r: Result<Outcome, EvalError>,
    t: StoreV,
)
    requires
        counted(s, b, recv, cur, lim, up, d, fuel, runs, r, t),
        r matches Ok(Outcome::Value(_)),
    ensures
        r matches Ok(Outcome::Value(x)) && x@ == recv,
        ({
            let a = crate::collections::integer_value(cur);
            &&& up ==> runs == Seq::new(if lim >= a { (lim - a + 1) as nat } else { 0 }, |k: int| a + k)
            &&& !up ==> runs == Seq::new(if a >= lim { (a - lim + 1) as nat } else { 0 }, |k: int| a - k)
        }),
    decreases fuel,
{
    let a = crate::collections::integer_value(cur);
    if (up && a > lim) || (!up && a < lim) {
        assert(runs =~= Seq::new(0, |k: int| a + k));
        assert(runs =~= Seq::new(0, |k: int| a - k));
    } else {
        let next = int_text(if up { a + 1 } else { a - 1 });
        let (r1, s1) = choose|r1: Result<Outcome, EvalError>, s1: StoreV|
            #[trigger] stage(r1, s1) && runs_block(s, b, seq![ValueV::Integer(cur)], d, r1, s1) && match r1 {
                Ok(Outcome::Value(_)) => counted(s1, b, recv, next, lim, up, d, (fuel - 1) as nat, runs.drop_first(), r, t),
                _ => runs.len() == 1 && r == r1 && t == s1,
            };
        crate::numbers::lemma_int_text(if up { a + 1 } else { a - 1 });
        assert(r1 matches Ok(Outcome::Value(_)));
        law_counted_runs_each_integer(s1, b, recv, next, lim, up, d, (fuel - 1) as nat, runs.drop_first(), r, t);
        let rest = runs.drop_first();
        assert(runs.len() == rest.len() + 1);
        assert forall|k: int| 0 < k < runs.len() implies runs[k] == rest[k - 1] by {}
        if up {
            assert(runs =~= Seq::new((lim - a + 1) as nat, |k: int| a + k));
        } else {
            assert(runs =~= Seq::new((a - lim + 1) as nat, |k: int| a - k));
        }
    }
}

/// What a send from depth `d` gives: the send limit where `d` is already
/// at it, else the send one level deeper.
pub open spec fn send_from(
    s: StoreV,
    recv: ValueV,
    sel: Seq<char>,
    args: Seq<ValueV>,
    d: int,
    r: Result<Outcome, EvalError>,
    t: StoreV,
) -> bool {
    if d + 1 > MAX_SEND_DEPTH {
        r matches Err(EvalError::SendLimit) && t == s
    } else {
        direct_send(s, recv, sel, args, d + 1, r, t)
    }
}

/// What a send to `super` in activation `a` gives: the method found from
/// the superclass of the class that holds `a`'s method runs on the
/// receiver, or an error says why there is none.
pub open spec fn super_send(
    s: StoreV,
    a: int,
    recv: ValueV,
    sel: Seq<char>,
    args: Seq<ValueV>,
    d: int,
    r: Result<Outcome, EvalError>,
    t: StoreV,
) -> bool {
    match crate::runtime::super_method_of(s, a, sel) {
        Ok(m) => runs_method(s, m as int, recv, args, d, r, t),
        Err(SuperError::NoMethodActivation) => r matches Err(EvalError::NoMethodActivation) && t == s,
        Err(SuperError::NoSuperclass) => r matches Err(EvalError::NoSuperclass) && t == s,
        Err(SuperError::NotFound) => r matches Err(EvalError::NotFound(n)) && n@ == sel && t == s,
    }
}

/// What evaluating `e` nested in an evaluation at depth `d` gives: the
/// recursion limit where `d` is already at it, else `evaluates` one level
/// deeper.
pub open spec fn nested_eval(s: StoreV, e: Expression, a: int, d: int, r: Result<Outcome, EvalError>, t: StoreV) -> bool
    decreases e, 2nat,
{
    if d + 1 > MAX_DEPTH {
        r matches Err(EvalError::RecursionLimit) && t == s
    } else {
        evaluates(s, e, a, d + 1, r, t)
    }
}

/// The values of keyword arguments evaluated left to right from `s`:
/// `Ok` with their values where each gives one, else `Err` with the first
/// outcome that is no value (an error, a return, a restart); `t` is the
/// state after the last evaluated.
pub open spec fn evaluates_parts(
    s: StoreV,
    parts: Seq<(String, Box<Expression>)>,
    a: int,
    d: int,
    res: Result<Seq<ValueV>, Result<Outcome, EvalError>>,
    t: StoreV,
) -> bool
    decreases parts, 0nat,
{
    if parts.len() == 0 {
        res == Ok::<Seq<ValueV>, Result<Outcome, EvalError>>(Seq::empty()) && t == s
    } else {
        proof {
            assert(decreases_to!(parts => parts[parts.len() - 1]));
        }
        exists|res1: Result<Seq<ValueV>, Result<Outcome, EvalError>>, s1: StoreV|
            #[trigger] stage(res1, s1) && evaluates_parts(s, parts.drop_last(), a, d, res1, s1) && match res1 {
                Err(stop) => res == Err::<Seq<ValueV>, Result<Outcome, EvalError>>(stop) && t == s1,
                Ok(vs) => exists|r2: Result<Outcome, EvalError>|
                    #[trigger] stage(r2, t) && nested_eval(s1, *parts.last().1, a, d, r2, t) && match r2 {
                        Ok(Outcome::Value(x)) => res == Ok::<Seq<ValueV>, Result<Outcome, EvalError>>(vs.push(x@)),
                        _ => res == Err::<Seq<ValueV>, Result<Outcome, EvalError>>(r2),
                    },
            }
    }
}

/// The arguments of message `m` evaluated from `s`, as `evaluates_parts`
/// gives them.
pub open spec fn evaluates_args(
    s: StoreV,
    m: Message,
    a: int,
    d: int,
    res: Result<Seq<ValueV>, Result<Outcome, EvalError>>,
    t: StoreV,
) -> bool
    decreases m, 1nat,
{
    match m {
        Message::Unary(_) => res == Ok::<Seq<ValueV>, Result<Outcome, EvalError>>(Seq::empty()) && t == s,
        Message::Binary(_, arg) => exists|r2: Result<Outcome, EvalError>|
            #[trigger] stage(r2, t) && nested_eval(s, *arg, a, d, r2, t) && match r2 {
                Ok(Outcome::Value(x)) => res == Ok::<Seq<ValueV>, Result<Outcome, EvalError>>(seq![x@]),
                _ => res == Err::<Seq<ValueV>, Result<Outcome, EvalError>>(r2),
            },
        Message::Keyword(parts) => {
            proof {
                assert(decreases_to!(m => parts));
                assert(decreases_to!(parts => parts@));
            }
            evaluates_parts(s, parts@, a, d, res, t)
        },
    }
}

/// What evaluating `e` in activation `a` of `s` at depth `d` gives, and the
/// state `t` after it. A bound variable gives its value and `super` the
/// receiver; an unbound one sends `unknownGlobal:` with its name to the
/// receiver. An assignment evaluates its value and writes it to the slot
/// the name finds (an error naming it where there is none). A message
/// evaluates its receiver, then its arguments left to right, and sends
/// the selector to the receiver with their values; to `super`, the method
/// is found from the superclass of the holder of `a`'s method. A return
/// evaluates its value and returns it out of the method that `a` runs in.
/// Any evaluation that ends with no value (an error, a return, a restart)
/// ends the whole with that outcome.
pub open spec fn evaluates(s: StoreV, e: Expression, a: int, d: int, r: Result<Outcome, EvalError>, t: StoreV) -> bool
    decreases e, 1nat,
{
    &&& direct_outcome(s, e, a, r, t)
    &&& match e {
        Expression::Variable(n) => if n@ == "super"@ {
            r matches Ok(Outcome::Value(x)) && x@ == s.acts[a].self_val && t == s
        } else {
            crate::runtime::lookup_var(s, n@, a) is None ==> send_from(
                s,
                s.acts[a].self_val,
                "unknownGlobal:"@,
                seq![ValueV::Symbol(n@)],
                d,
                r,
                t,
            )
        },
        Expression::Assignment(n, v) => exists|r1: Result<Outcome, EvalError>, s1: StoreV|
            #[trigger] stage(r1, s1) && nested_eval(s, *v, a, d, r1, s1) && match r1 {
                Ok(Outcome::Value(x)) => match crate::runtime::var_slot(s1, n@, a) {
                    Some(sl) => r matches Ok(Outcome::Value(y)) && y@ == x@ && t == crate::runtime::put_slot(s1, sl, x@),
                    None => r matches Err(EvalError::CannotAssign(m)) && m@ == n@ && t == s1,
                },
                _ => r == r1 && t == s1,
            },
        Expression::Message(recv, m) => exists|r0: Result<Outcome, EvalError>, s0: StoreV|
            #[trigger] stage(r0, s0) && receiver_eval(s, *recv, a, d, r0, s0) && match r0 {
                Ok(Outcome::Value(x)) => exists|res: Result<Seq<ValueV>, Result<Outcome, EvalError>>, s1: StoreV|
                    #[trigger] stage(res, s1) && evaluates_args(s0, m, a, d, res, s1) && match res {
                    Err(stop) => r == stop && t == s1,
                    Ok(vals) => if crate::compiler::is_super_var(*recv) {
                        super_send(s1, a, x@, m.spec_selector(), vals, d, r, t)
                    } else {
                        send_from(s1, x@, m.spec_selector(), vals, d, r, t)
                    },
                },
                _ => r == r0 && t == s0,
            },
        Expression::Return(v) => exists|r1: Result<Outcome, EvalError>, s1: StoreV|
            #[trigger] stage(r1, s1) && nested_eval(s, *v, a, d, r1, s1) && match r1 {
                Ok(Outcome::Value(x)) => match crate::runtime::method_act(s1, a) {
                    Some(m) => r matches Ok(Outcome::NonLocalReturn(y, q)) && y@ == x@ && q == m && t == s1,
                    None => r matches Err(EvalError::NoMethodActivation) && t == s1,
                },
                _ => r == r1 && t == s1,
            },
        _ => true,
    }
}

/// The receiver of a message: `super` stands for the receiver of
/// activation `a`; any other expression is evaluated.
pub open spec fn receiver_eval(s: StoreV, e: Expression, a: int, d: int, r: Result<Outcome, EvalError>, t: StoreV) -> bool
    decreases e, 3nat,
{
    if crate::compiler::is_super_var(e) {
        r matches Ok(Outcome::Value(x)) && x@ == s.acts[a].self_val && t == s
    } else {
        nested_eval(s, e, a, d, r, t)
    }
}

/// Keyword arguments that stop at one stop the whole with it.
proof fn lemma_parts_stop_extends(
    s: StoreV,
    parts: Seq<(String, Box<Expression>)>,
    a: int,
    d: int,
    stop: Result<Outcome, EvalError>,
    t: StoreV,
    n: int,
)
    requires
        0 <= n <= parts.len(),
        evaluates_parts(s, parts.take(n), a, d, Err(stop), t),
    ensures
        evaluates_parts(s, parts, a, d, Err(stop), t),
    decreases parts.len() - n,
{
    if n < parts.len() {
        assert(parts.take(n + 1).drop_last() =~= parts.take(n));
        assert(evaluates_parts(s, parts.take(n + 1).drop_last(), a, d, Err(stop), t));
        assert(parts.take(n + 1).len() > 0);
        assert(stage(Err::<Seq<ValueV>, Result<Outcome, EvalError>>(stop), t));
        assert(evaluates_parts(s, parts.take(n + 1), a, d, Err(stop), t));
        lemma_parts_stop_extends(s, parts, a, d, stop, t, n + 1);
    } else {
        assert(parts.take(n) =~= parts);
    }
}

/// What evaluating `e` in activation `a` with `d` nested evaluations gives
/// where it returns a literal: the literal's value, returned out of the
/// method that `a` runs in (an error where `a` runs in none).
pub open spec fn literal_return(s: StoreV, e: Expression, a: int, d: int, r: Result<Outcome, EvalError>, t: StoreV) -> bool {
    match e {
        Expression::Return(v) => match *v {
            Expression::Literal(l) => if d + 1 > MAX_DEPTH {
                r matches Err(EvalError::RecursionLimit) && t == s
            } else {
                match literal_result(s, literal_view(l)) {
                    None => r is Err,
                    Some((x, u)) => match crate::runtime::method_act(u, a) {
                        Some(m) => r matches Ok(Outcome::NonLocalReturn(y, q)) && y@ == x && q == m && t == u,
                        None => r matches Err(EvalError::NoMethodActivation) && t == u,
                    },
                }
            },
            _ => true,
        },
        _ => true,
    }
}

/// The literal that a block of statements `b` returns as its only
/// statement, when it is an integer, a string or a symbol.
pub open spec fn returned_literal(b: crate::ast::BlockV) -> Option<LiteralV> {
    if b.body.len() == 1 {
        match b.body[0] {
            crate::ast::ExprV::Return(v) => match *v {
                crate::ast::ExprV::Literal(l) => match l {
                    LiteralV::Integer(_) | LiteralV::String(_) | LiteralV::Symbol(_) => Some(l),
                    _ => None,
                },
                _ => None,
            },
            _ => None,
        }
    } else {
        None
    }
}

/// `r` is the error that a primitive on arrays ends with when it fails with
/// `e`: for an index outside the array, the index's text and the array's
/// size.
pub open spec fn array_error_of(cells: Seq<CellV>, recv: ValueV, args: Seq<ValueV>, e: PrimitiveError, r: EvalError) -> bool {
    match e {
        PrimitiveError::NegativeSize => r == EvalError::NegativeSize,
        PrimitiveError::SizeTooLarge => r == EvalError::SizeTooLarge,
        PrimitiveError::IndexOutOfBounds => r matches EvalError::IndexOutOfBounds(i, n) && i@ == (if args.len() > 0
            && args[0] is Integer {
            args[0]->Integer_0
        } else {
            Seq::empty()
        }) && n == (match recv {
            ValueV::Array(c) => if c < cells.len() {
                crate::collections::elements_of(cells, c).len()
            } else {
                0
            },
            _ => 0,
        }),
    }
}

/// What `System>>printStackTrace` prints of the first `n` activations of
/// `s`, newest first: a line naming the class of each method still running.
pub open spec fn stack_lines(s: StoreV, n: int) -> Seq<char>
    decreases n,
{
    if n <= 0 {
        Seq::empty()
    } else {
        let act = s.acts[n - 1];
        let line = if act.is_active && act.holder is Some && act.holder->Some_0 < s.classes.len() {
            "at "@ + s.classes[act.holder->Some_0 as int].name + "\n"@
        } else {
            Seq::empty()
        };
        line + stack_lines(s, n - 1)
    }
}

/// Each of `args` is a value a primitive can take.
pub open spec fn args_valid(cells: Seq<CellV>, args: Seq<ValueV>) -> bool {
    forall|i: int| 0 <= i < args.len() ==> crate::collections::valid_value(cells, #[trigger] args[i])
}

proof fn lemma_args_valid_views(cells: Seq<CellV>, a: Seq<Value>)
    ensures
        crate::collections::valid_args(cells, a) == args_valid(cells, values_view(a)),
{
    assert forall|i: int| 0 <= i < a.len() implies values_view(a)[i] == a[i]@ by {}
    if crate::collections::valid_args(cells, a) {
        assert forall|i: int| 0 <= i < values_view(a).len() implies crate::collections::valid_value(
            cells,
            #[trigger] values_view(a)[i],
        ) by {
            assert(crate::collections::valid_value(cells, a[i]@));
        }
    }
    if args_valid(cells, values_view(a)) {
        assert forall|i: int| 0 <= i < a.len() implies crate::collections::valid_value(cells, #[trigger] a[i]@) by {
            assert(crate::collections::valid_value(cells, values_view(a)[i]));
        }
    }
}

proof fn lemma_refs_views(s: StoreV, a: Seq<Value>)
    ensures
        (forall|j: int| 0 <= j < a.len() ==> ref_ok(s, #[trigger] a[j]@)) == (forall|j: int|
            0 <= j < values_view(a).len() ==> ref_ok(s, #[trigger] values_view(a)[j])),
{
    assert forall|i: int| 0 <= i < a.len() implies values_view(a)[i] == a[i]@ by {}
    if forall|j: int| 0 <= j < a.len() ==> ref_ok(s, #[trigger] a[j]@) {
        assert forall|j: int| 0 <= j < values_view(a).len() implies ref_ok(s, #[trigger] values_view(a)[j]) by {
            assert(ref_ok(s, a[j]@));
        }
    }
    if forall|j: int| 0 <= j < values_view(a).len() ==> ref_ok(s, #[trigger] values_view(a)[j]) {
        assert forall|j: int| 0 <= j < a.len() implies ref_ok(s, #[trigger] a[j]@) by {
            assert(ref_ok(s, values_view(a)[j]));
        }
    }
}

/// What the primitive under key `k`, among those on the state that run no
/// code, answers on `recv` and `args` in state `s` (`r`, with `t` the state
/// after it): a boolean's negation, a full collection, the messages of
/// `error:`, what is printed as output or error output, the receiver for
/// `inspect`, a field by name for `instVarNamed:`.
pub open spec fn state_outcome(s: StoreV, k: Seq<char>, recv: ValueV, args: Seq<ValueV>, r: Result<Outcome, EvalError>, t: StoreV) -> bool {
    let ok = args_valid(s.cells, args);
    let text = named_text(s.cells, args);
    &&& k == "True>>not"@ ==> (r matches Ok(Outcome::Value(x)) && x@ == ValueV::Boolean(false) && t == s)
    &&& k == "False>>not"@ ==> (r matches Ok(Outcome::Value(x)) && x@ == ValueV::Boolean(true) && t == s)
    &&& k == "System>>fullGC"@ ==> (r matches Ok(Outcome::Value(x)) && x@ == ValueV::Boolean(true) && t == s)
    &&& k == "Object>>error:"@ ==> t == s && (ok ==> (r matches Err(EvalError::Raised(m)) && m@ == text)) && (!ok ==> (r
        matches Err(EvalError::BadReference)))
    &&& k == "Object>>inspect"@ ==> (r matches Ok(Outcome::Value(x)) && x@ == recv && t == s)
    &&& k == "System>>errorPrint:"@ ==> if ok {
        r matches Ok(Outcome::Value(x)) && x@ == ValueV::Nil && t == (StoreV { errors: s.errors + text, ..s })
    } else {
        r matches Err(EvalError::BadReference) && t == s
    }
    &&& k == "System>>errorPrintln:"@ ==> if ok {
        r matches Ok(Outcome::Value(x)) && x@ == ValueV::Nil && t == (StoreV { errors: (s.errors + text).push('\n'), ..s })
    } else {
        r matches Err(EvalError::BadReference) && t == s
    }
    &&& k == "System>>printStackTrace"@ ==> (r matches Ok(Outcome::Value(x)) && x@ == ValueV::Nil && t == (StoreV {
        errors: s.errors + stack_lines(s, s.acts.len() as int),
        ..s
    }))
    &&& k == "System>>printString:"@ ==> if ok {
        r matches Ok(Outcome::Value(x)) && x@ == ValueV::Nil && t == (StoreV { transcript: s.transcript + text, ..s })
    } else {
        r matches Err(EvalError::BadReference) && t == s
    }
    &&& k == "System>>printNewline"@ ==> (r matches Ok(Outcome::Value(x)) && x@ == ValueV::Nil && t == (StoreV {
        transcript: s.transcript.push('\n'),
        ..s
    }))
    &&& k == "Object>>instVarNamed:"@ ==> t == s && (if ok && ref_ok(s, recv) && (recv matches ValueV::Class(c) ==> class_fields_ok(
        s,
        c as int,
    )) {
        match crate::runtime::field_slot(s, recv, text) {
            Some(sl) => r matches Ok(Outcome::Value(x)) && x@ == crate::runtime::read_slot(s, sl),
            None => r matches Err(EvalError::NotFound(m)) && m@ == text,
        }
    } else {
        r matches Err(EvalError::BadReference)
    })
}

/// Each of `args` that is an integer is written as one.
pub open spec fn all_numbers_ok(args: Seq<ValueV>) -> bool {
    forall|i: int| 0 <= i < args.len() ==> number_ok(#[trigger] args[i])
}

proof fn lemma_numbers_ok_views(a: Seq<Value>)
    ensures
        numbers_ok(a) == all_numbers_ok(values_view(a)),
{
    assert forall|i: int| 0 <= i < a.len() implies values_view(a)[i] == a[i]@ by {}
    if numbers_ok(a) {
        assert forall|i: int| 0 <= i < values_view(a).len() implies number_ok(#[trigger] values_view(a)[i]) by {
            assert(number_ok(a[i]@));
        }
    }
    if all_numbers_ok(values_view(a)) {
        assert forall|i: int| 0 <= i < a.len() implies number_ok(#[trigger] a[i]@) by {
            assert(number_ok(values_view(a)[i]));
        }
    }
}

/// What evaluating `e` with `d` nested evaluations gives where it sends a
/// unary or binary message to a literal, with a literal argument: the
/// receiver is evaluated first, then the argument, and the message is sent
/// to the receiver's value (as `direct_send` says) unless sends nest too
/// deeply.
pub open spec fn literal_send(s: StoreV, e: Expression, d: int, r: Result<Outcome, EvalError>, t: StoreV) -> bool {
    match e {
        Expression::Message(recv, msg) => match (*recv, msg) {
            (Expression::Literal(l), Message::Unary(sel)) => if d + 1 > MAX_DEPTH {
                r matches Err(EvalError::RecursionLimit) && t == s
            } else {
                match literal_result(s, literal_view(l)) {
                    None => r is Err,
                    Some((v, u)) => if d + 1 > MAX_SEND_DEPTH {
                        r matches Err(EvalError::SendLimit) && t == u
                    } else {
                        direct_send(u, v, sel@, Seq::empty(), d + 1, r, t)
                    },
                }
            },
            (Expression::Literal(l), Message::Binary(sel, arg)) => match *arg {
                Expression::Literal(la) => if d + 1 > MAX_DEPTH {
                    r matches Err(EvalError::RecursionLimit) && t == s
                } else {
                    match literal_result(s, literal_view(l)) {
                        None => r is Err,
                        Some((v, u)) => match literal_result(u, literal_view(la)) {
                            None => r is Err,
                            Some((w, u2)) => if d + 1 > MAX_SEND_DEPTH {
                                r matches Err(EvalError::SendLimit) && t == u2
                            } else {
                                direct_send(u2, v, sel@, seq![w], d + 1, r, t)
                            },
                        },
                    }
                },
                _ => true,
            },
            _ => true,
        },
        _ => true,
    }
}

/// What running method `m` on `recv` with `args` gives, as far as it is
/// fixed without following the code: a primitive with no implementation
/// answers nil, an integer primitive answers its `integer_outcome`, and a method of code
/// (on a receiver that refers to what `s` holds) runs in a new activation,
/// which is inactive once the method has returned; such a method never
/// answers a restart, a return aimed at its activation ends there, and a
/// method with no statements answers its receiver.
pub open spec fn runs_method(
    s: StoreV,
    m: int,
    recv: ValueV,
    args: Seq<ValueV>,
    d: int,
    r: Result<Outcome, EvalError>,
    t: StoreV,
) -> bool
    decreases MAX_DEPTH - d, 3int,
{
    let meth = s.methods[m];
    let entered = crate::runtime::push_act(s, crate::runtime::method_activation(s, m, recv, args));
    &&& match meth.key {
        Some(k) => {
            &&& integer_key(k) ==> t == s && (!(number_ok(recv) && all_numbers_ok(args)) ==> (r matches Err(
                EvalError::BadReference,
            ))) && (number_ok(recv) && all_numbers_ok(args) ==> integer_outcome(k, recv, args, r))
            &&& !integer_key(k) && state_key(k) ==> state_outcome(s, k, recv, args, r, t)
            &&& !integer_key(k) && !state_key(k) && control_key(k) ==> control_outcome(s, k, recv, args, d, r, t)
            &&& !integer_key(k) && !state_key(k) && !control_key(k) ==> (r matches Err(EvalError::Unavailable(n)) && n@
                == k && t == s)
        },
        None => true,
    }
    &&& meth.primitive && meth.key is None ==> (r matches Ok(Outcome::Value(x)) && x@ == ValueV::Nil && t == s)
    &&& !meth.primitive && !ref_ok(s, recv) ==> (r matches Err(EvalError::BadReference) && t == s)
    &&& (!meth.primitive && ref_ok(s, recv) && (recv matches ValueV::Class(k) ==> class_fields_ok(s, k as int)))
        ==> ({
        &&& t.acts.len() > s.acts.len()
        &&& !t.acts[s.acts.len() as int].is_active
        &&& !(r matches Ok(Outcome::Restart))
        &&& (r matches Ok(Outcome::NonLocalReturn(_, target)) ==> target != s.acts.len())
        &&& match meth.block {
            Some(bl) => {
                &&& crate::ast::block_view(bl).body.len() == 0 ==> (r matches Ok(Outcome::Value(x)) && x@ == recv)
                &&& d + 2 <= MAX_DEPTH ==> match returned_literal(crate::ast::block_view(bl)) {
                    Some(lv) => match literal_result(entered, lv) {
                        Some(p) => r matches Ok(Outcome::Value(y)) && y@ == p.0 && t.cells == p.1.cells,
                        None => true,
                    },
                    None => true,
                }
            },
            None => true,
        }
    })
}

/// The arguments a block primitive under key `k` runs its block with: the
/// message's own for `value`, none for the conditionals.
pub open spec fn block_args(k: Seq<char>, args: Seq<ValueV>) -> Seq<ValueV> {
    if k == "Block>>value"@ || k == "Block>>value:"@ || k == "Block>>value:with:"@ {
        args
    } else {
        Seq::empty()
    }
}

/// What running block closure `b` of `s` with `args` gives, as far as it is
/// fixed without following the code: it runs in a new activation, never
/// answers a restart; with no statements it answers nil, and with one it
/// gives what `direct_outcome` fixes of it.
pub open spec fn runs_block(s: StoreV, b: int, args: Seq<ValueV>, d: int, r: Result<Outcome, EvalError>, t: StoreV) -> bool {
    let u = crate::runtime::push_act(s, crate::runtime::block_activation(s, b, args));
    let st = s.blocks[b].statements;
    &&& t.acts.len() > s.acts.len()
    &&& !(r matches Ok(Outcome::Restart))
    &&& st.len() == 0 ==> (r matches Ok(Outcome::Value(x)) && x@ == ValueV::Nil && t == u)
    &&& st.len() == 1 && d + 1 <= MAX_DEPTH ==> exists|e: Expression|
        #[trigger] crate::ast::expr_view(e) == st[0] && direct_outcome(u, e, s.acts.len() as int, r, t)
}

/// What the primitive under key `k` among those that run code answers on
/// `recv` and `args` in state `s` with `d` nested evaluations: a restart
/// for `restart`; nil, a bad reference or the block's run for the
/// conditionals and `value`; the method looked up from the given class for
/// `perform:withArguments:inSuperclass:`; the receiving method run on the
/// first argument for `invokeOn:with:`.
pub open spec fn control_outcome(
    s: StoreV,
    k: Seq<char>,
    recv: ValueV,
    args: Seq<ValueV>,
    d: int,
    r: Result<Outcome, EvalError>,
    t: StoreV,
) -> bool
    decreases MAX_DEPTH - d, 2int,
{
    &&& k == "Block>>restart"@ ==> (r matches Ok(Outcome::Restart) && t == s)
    &&& chosen_block(k, recv, args) == Some(None::<usize>) ==> (r == Ok::<Outcome, EvalError>(Outcome::Value(Value::Nil))
        && t == s)
    &&& match chosen_block(k, recv, args) {
        Some(Some(b)) => if b >= s.blocks.len() {
            r matches Err(EvalError::BadReference) && t == s
        } else {
            runs_block(s, b as int, block_args(k, args), d, r, t)
        },
        _ => true,
    }
    &&& k == "Object>>perform:withArguments:inSuperclass:"@ ==> perform_outcome(s, recv, args, d, r, t)
    &&& (k == "Method>>invokeOn:with:"@ || k == "Primitive>>invokeOn:with:"@) ==> invoke_outcome(s, recv, args, d, r, t)
    &&& k == "Integer>>to:do:"@ && counting_args(recv, args) ==> exists|runs: Seq<int>|
        #[trigger] counted(s, args[1]->Block_0 as int, recv, recv->Integer_0, crate::collections::integer_value(args[0]->Integer_0), true, d, u64::MAX as nat, runs, r, t)
    &&& k == "Integer>>downTo:do:"@ && counting_args(recv, args) ==> exists|runs: Seq<int>|
        #[trigger] counted(s, args[1]->Block_0 as int, recv, recv->Integer_0, crate::collections::integer_value(args[0]->Integer_0), false, d, u64::MAX as nat, runs, r, t)
}

/// Arguments a counting loop runs with: an integer receiver, an integer
/// limit and a block.
pub open spec fn counting_args(recv: ValueV, args: Seq<ValueV>) -> bool {
    &&& recv is Integer
    &&& args.len() >= 2
    &&& args[0] is Integer
    &&& args[1] is Block
    &&& crate::serialize::integer_text_ok(args[0]->Integer_0)
}

/// What `Object>>perform:withArguments:inSuperclass:` gives: the method that
/// the class given as third argument answers the selector named by the
/// first with, run on the receiver with the elements of the second; nil
/// unless the arguments name a selector and a class.
pub open spec fn perform_outcome(s: StoreV, recv: ValueV, a: Seq<ValueV>, d: int, r: Result<Outcome, EvalError>, t: StoreV) -> bool
    decreases MAX_DEPTH - d, 1int,
{
    if !(args_valid(s.cells, a) && forall|j: int| 0 <= j < a.len() ==> ref_ok(s, #[trigger] a[j])) {
        r matches Err(EvalError::BadReference) && t == s
    } else if a.len() >= 3 && a[2] is Class && crate::collections::text_of(s.cells, a[0]) is Some {
        let sel = crate::collections::text_of(s.cells, a[0]).unwrap();
        match crate::runtime::method_in(s, a[2]->Class_0 as int, sel) {
            Some(m) => if d + 1 > MAX_DEPTH {
                r matches Err(EvalError::RecursionLimit) && t == s
            } else {
                runs_method(s, m as int, recv, crate::reflect::perform_args(s.cells, a), d + 1, r, t)
            },
            None => r matches Err(EvalError::NotFound(n)) && n@ == sel && t == s,
        }
    } else {
        r == Ok::<Outcome, EvalError>(Outcome::Value(Value::Nil)) && t == s
    }
}

/// What `Method>>invokeOn:with:` and `Primitive>>invokeOn:with:` give: the
/// receiving method run on the first argument with the elements of the
/// second; nil for a receiver that is no method, or with no argument.
pub open spec fn invoke_outcome(s: StoreV, recv: ValueV, a: Seq<ValueV>, d: int, r: Result<Outcome, EvalError>, t: StoreV) -> bool
    decreases MAX_DEPTH - d, 1int,
{
    if !(args_valid(s.cells, a) && ref_ok(s, recv)) {
        r matches Err(EvalError::BadReference) && t == s
    } else if recv is Method && a.len() >= 1 {
        if d + 1 > MAX_DEPTH {
            r matches Err(EvalError::RecursionLimit) && t == s
        } else {
            runs_method(s, recv->Method_0 as int, a[0], crate::reflect::perform_args(s.cells, a), d + 1, r, t)
        }
    } else {
        r == Ok::<Outcome, EvalError>(Outcome::Value(Value::Nil)) && t == s
    }
}

/// The depth at which `dispatch_limited` starts a run with nesting `limit`.
pub open spec fn start_depth(limit: usize) -> int {
    if limit < MAX_SEND_DEPTH {
        MAX_SEND_DEPTH - limit
    } else {
        0
    }
}

/// The keys of the integer primitives.
pub open spec fn integer_key(k: Seq<char>) -> bool {
    ||| k == "Integer>>+"@
    ||| k == "Integer>>-"@
    ||| k == "Integer>>*"@
    ||| k == "Integer>>/"@
    ||| k == "Integer>>%"@
    ||| k == "Integer>>rem:"@
    ||| k == "Integer>>min:"@
    ||| k == "Integer>>max:"@
    ||| k == "Integer>>="@
    ||| k == "Integer>><"@
    ||| k == "Integer>><="@
    ||| k == "Integer>>&"@
    ||| k == "Integer>>bitXor:"@
    ||| k == "Integer>><<"@
    ||| k == "Integer>>abs"@
    ||| k == "Integer>>round"@
    ||| k == "Integer>>as32BitSignedValue"@
    ||| k == "Integer>>as32BitUnsignedValue"@
    ||| k == "Integer>>>>"@
    ||| k == "Integer>>atRandom"@
}

/// What the integer primitive under key `k` computes, as `numbers` states
/// it; `None` for `atRandom`, which reads the clock, and for any other key.
pub open spec fn integer_answer(k: Seq<char>, recv: ValueV, args: Seq<ValueV>) -> Option<Result<ValueV, NumError>> {
    if k == "Integer>>>>"@ {
        Some(Ok(int_shr_spec(recv, args)))
    } else if k == "Integer>>+"@ {
        Some(arith_spec(recv, args, |a: int, b: int| a + b))
    } else if k == "Integer>>-"@ {
        Some(arith_spec(recv, args, |a: int, b: int| a - b))
    } else if k == "Integer>>*"@ {
        Some(arith_spec(recv, args, |a: int, b: int| a * b))
    } else if k == "Integer>>/"@ {
        Some(division_spec(recv, args, |a: int, b: int| floor_div(a, b), NumError::DivisionByZero))
    } else if k == "Integer>>%"@ {
        Some(division_spec(recv, args, |a: int, b: int| floor_mod(a, b), NumError::ModuloByZero))
    } else if k == "Integer>>rem:"@ {
        Some(division_spec(recv, args, |a: int, b: int| trunc_rem(a, b), NumError::ModuloByZero))
    } else if k == "Integer>>min:"@ {
        Some(int_min_spec(recv, args))
    } else if k == "Integer>>max:"@ {
        Some(int_max_spec(recv, args))
    } else if k == "Integer>>="@ {
        Some(compare_spec(recv, args, |a: int, b: int| a == b))
    } else if k == "Integer>><"@ {
        Some(compare_spec(recv, args, |a: int, b: int| a < b))
    } else if k == "Integer>><="@ {
        Some(compare_spec(recv, args, |a: int, b: int| a <= b))
    } else if k == "Integer>>&"@ {
        Some(Ok(bitwise_spec(recv, args, |a: int, b: int| bit_and(a, b))))
    } else if k == "Integer>>bitXor:"@ {
        Some(Ok(bitwise_spec(recv, args, |a: int, b: int| bit_xor(a, b))))
    } else if k == "Integer>><<"@ {
        Some(Ok(int_shl_spec(recv, args)))
    } else if k == "Integer>>abs"@ {
        Some(
            Ok(
                match recv {
                    ValueV::Integer(a) => ValueV::Integer(int_text(abs(crate::collections::integer_value(a)))),
                    _ => ValueV::Nil,
                },
            ),
        )
    } else if k == "Integer>>round"@ {
        Some(Ok(recv))
    } else if k == "Integer>>atRandom"@ {
        None
    } else if k == "Integer>>as32BitSignedValue"@ {
        Some(
            Ok(
                match recv {
                    ValueV::Integer(a) => ValueV::Integer(int_text(signed32(crate::collections::integer_value(a)))),
                    _ => ValueV::Nil,
                },
            ),
        )
    } else if k == "Integer>>as32BitUnsignedValue"@ {
        Some(
            Ok(
                match recv {
                    ValueV::Integer(a) => ValueV::Integer(
                        int_text(low_bits(crate::collections::integer_value(a), u32::MAX as int)),
                    ),
                    _ => ValueV::Nil,
                },
            ),
        )
    } else {
        None
    }
}

/// A right shift whose amount a 64-bit word cannot be shifted by.
pub open spec fn shift_overflows(k: Seq<char>, recv: ValueV, args: Seq<ValueV>) -> bool {
    &&& k == "Integer>>>>"@
    &&& recv is Integer
    &&& args.len() > 0
    &&& args[0] is Integer
    &&& crate::numbers::u32_or_zero(crate::collections::integer_value(args[0]->Integer_0)) >= 64
}

/// The outcome that a primitive's numeric answer `ans` gives: its value; an
/// error for a double operand, which asks for floating point; the
/// arithmetic error itself.
pub open spec fn answer_fits(k: Seq<char>, ans: Result<ValueV, NumError>, o: Result<Outcome, EvalError>) -> bool {
    match ans {
        Ok(v) => o matches Ok(Outcome::Value(w)) && w@ == v,
        Err(NumError::DoubleOperand) => o matches Err(EvalError::Unavailable(t)) && t@ == k,
        Err(e) => o matches Err(EvalError::Arithmetic(f)) && f == e,
    }
}

/// What the integer primitive under key `k` answers, on a receiver and
/// arguments that are well-written numbers: its `integer_answer`, a refused
/// shift, or for `atRandom` a number the clock chose.
pub open spec fn integer_outcome(k: Seq<char>, recv: ValueV, args: Seq<ValueV>, o: Result<Outcome, EvalError>) -> bool {
    if shift_overflows(k, recv, args) {
        o matches Err(EvalError::ShiftOverflow)
    } else {
        match integer_answer(k, recv, args) {
            Some(ans) => answer_fits(k, ans, o),
            None => o matches Ok(Outcome::Value(v)) && exists|nanos: u128| v@ == crate::numbers::at_random_spec(recv, nanos),
        }
    }
}

/// The keys of the primitives on strings, arrays, objects, classes, methods, globals and the system, which run no code.
pub open spec fn state_key(k: Seq<char>) -> bool {
    ||| k == "Object>>error:"@
    ||| k == "System>>errorPrint:"@
    ||| k == "System>>errorPrintln:"@
    ||| k == "System>>printStackTrace"@
    ||| k == "Object>>inspect"@
    ||| k == "Object>>instVarNamed:"@
    ||| k == "Object>>=="@
    ||| k == "Object>>objectSize"@
    ||| k == "System>>printString:"@
    ||| k == "System>>printNewline"@
    ||| k == "System>>global:put:"@
    ||| k == "System>>time"@
    ||| k == "System>>ticks"@
    ||| k == "System>>fullGC"@
    ||| k == "System>>exit:"@
    ||| k == "System>>load:"@
    ||| k == "System>>defineClass:"@
    ||| k == "System>>classNames"@
    ||| k == "Object>>halt"@
    ||| k == "Debugger class>>halt"@
    ||| k == "Debugger>>resume"@
    ||| k == "Debugger>>stepInto"@
    ||| k == "Debugger>>currentFrames"@
    ||| k == "True>>not"@
    ||| k == "False>>not"@
    ||| k == "Object>>class"@
    ||| k == "Object>>respondsTo:"@
    ||| k == "Object>>hashcode"@
    ||| k == "String>>hashcode"@
    ||| k == "Object>>instVarAt:"@
    ||| k == "Object>>instVarAt:put:"@
    ||| k == "Class>>new"@
    ||| k == "Class>>name"@
    ||| k == "Class>>superclass"@
    ||| k == "Class>>hasMethod:"@
    ||| k == "Class>>fields"@
    ||| k == "Class>>methods"@
    ||| k == "Class>>selectors"@
    ||| k == "Method>>signature"@
    ||| k == "Method>>holder"@
    ||| k == "Primitive>>signature"@
    ||| k == "Primitive>>holder"@
    ||| k == "Nil>>asString"@
    ||| k == "Symbol>>asString"@
    ||| k == "Integer>>asString"@
    ||| k == "Integer class>>fromString:"@
    ||| k == "String>>concatenate:"@
    ||| k == "String>>length"@
    ||| k == "String>>="@
    ||| k == "String>>asSymbol"@
    ||| k == "String>>isWhiteSpace"@
    ||| k == "String>>isLetters"@
    ||| k == "String>>isDigits"@
    ||| k == "String>>primSubstringFrom:to:"@
    ||| k == "Array>>at:"@
    ||| k == "Array>>at:put:"@
    ||| k == "Array>>length"@
    ||| k == "Array class>>new:"@
    ||| k == "System>>global:"@
    ||| k == "System>>hasGlobal:"@
    ||| k == "System>>compileMethod:inClass:"@
    ||| k == "System>>installMethod:inClass:"@
}

/// For the conditional and block primitives, the block that key `k` runs on
/// this receiver and these arguments, or `None` where it runs none and
/// answers nil; `None` for every other key.
pub open spec fn chosen_block(k: Seq<char>, recv: ValueV, args: Seq<ValueV>) -> Option<Option<usize>> {
    if k == "True>>ifTrue:"@ || k == "False>>ifTrue:"@ {
        Some(
            match (recv, crate::numbers::first(args)) {
                (ValueV::Boolean(true), Some(ValueV::Block(b))) => Some(b),
                _ => None,
            },
        )
    } else if k == "True>>ifFalse:"@ || k == "False>>ifFalse:"@ {
        Some(
            match (recv, crate::numbers::first(args)) {
                (ValueV::Boolean(false), Some(ValueV::Block(b))) => Some(b),
                _ => None,
            },
        )
    } else if k == "Boolean>>ifTrue:ifFalse:"@ {
        Some(
            if args.len() >= 2 {
                match (recv, args[0], args[1]) {
                    (ValueV::Boolean(c), ValueV::Block(t), ValueV::Block(f)) => Some(if c { t } else { f }),
                    _ => None,
                }
            } else {
                None
            },
        )
    } else if k == "Block>>value"@ || k == "Block>>value:"@ || k == "Block>>value:with:"@ {
        Some(
            match recv {
                ValueV::Block(b) => Some(b),
                _ => None,
            },
        )
    } else {
        None
    }
}

/// The text of the string that `System>>defineClass:` answers where class
/// `name` is missing.
pub open spec fn missing_text(name: Seq<char>) -> Seq<char> {
    "Error assembling class: Class "@ + name + " not found in classpath"@
}

/// The superclass that a definition asks for in state `s`: `None` for the
/// root (`nil`, or no superclass for `Object`), `Object` where it names none,
/// or `Err` with the name of the class that is not bound.
pub open spec fn chosen_superclass(s: StoreV, d: crate::ast::ClassDefV) -> Result<Option<usize>, Seq<char>> {
    match d.super_class {
        Some(n) => if n == "nil"@ {
            Ok(None)
        } else {
            match crate::runtime::global_class(s, n) {
                Some(j) => Ok(Some(j)),
                None => Err(n),
            }
        },
        None => if d.name == "Object"@ {
            Ok(None)
        } else {
            match crate::runtime::global_class(s, "Object"@) {
                Some(j) => Ok(Some(j)),
                None => Err("Object"@),
            }
        },
    }
}

/// Whether assembling the definition needs the class `Class`: for `Object`,
/// and where the superclass has no metaclass to take after.
pub open spec fn needs_class_class(s: StoreV, d: crate::ast::ClassDefV, sup: Option<usize>) -> bool {
    d.name == "Object"@ || match sup {
        Some(j) => j >= s.classes.len() || s.classes[j as int].metaclass is None,
        None => true,
    }
}

/// The keys of the primitives that run code: conditionals, blocks, loops and `perform:`.
pub open spec fn control_key(k: Seq<char>) -> bool {
    ||| k == "True>>ifTrue:"@
    ||| k == "False>>ifTrue:"@
    ||| k == "True>>ifFalse:"@
    ||| k == "False>>ifFalse:"@
    ||| k == "Boolean>>ifTrue:ifFalse:"@
    ||| k == "Block>>value"@
    ||| k == "Block>>value:"@
    ||| k == "Block>>value:with:"@
    ||| k == "Block>>restart"@
    ||| k == "Block>>whileTrue:"@
    ||| k == "Block>>whileFalse:"@
    ||| k == "Integer>>to:do:"@
    ||| k == "Integer>>downTo:do:"@
    ||| k == "Object>>perform:"@
    ||| k == "Object>>perform:withArguments:"@
    ||| k == "Object>>perform:inSuperclass:"@
    ||| k == "Object>>perform:withArguments:inSuperclass:"@
    ||| k == "Method>>invokeOn:with:"@
    ||| k == "Primitive>>invokeOn:with:"@
}

/// Evaluating an expression that `direct_outcome` fixes never asks for a
/// restart: where it could, it fixes nothing.
proof fn lemma_restart_vacuous(s: StoreV, e: Expression, a: int, t: StoreV, r2: Result<Outcome, EvalError>, t2: StoreV)
    requires
        direct_outcome(s, e, a, Ok(Outcome::Restart), t),
    ensures
        direct_outcome(s, e, a, r2, t2),
{
}

proof fn lemma_exprs_view_len(s: Seq<Expression>)
    ensures
        crate::ast::exprs_view(s).len() == s.len(),
    decreases s.len(),
{
    if s.len() > 0 {
        lemma_exprs_view_len(s.drop_last());
    }
}

/// A block that returns a literal as its only statement, run in a method's
/// activation `a` of `u`, returns the literal's value to that activation.
proof fn lemma_returned_literal_outcome(u: StoreV, block: Block, a: int, depth: int, res: Result<Outcome, EvalError>, t: StoreV)
    requires
        0 <= a < u.acts.len(),
        u.acts[a].holder is Some,
        depth + 2 <= MAX_DEPTH,
        returned_literal(crate::ast::block_view(block)) is Some,
        literal_result(u, returned_literal(crate::ast::block_view(block))->Some_0) is Some,
        block.body@.len() == 1 ==> literal_return(u, block.body@[0], a, depth + 1, res, t),
    ensures
        res matches Ok(Outcome::NonLocalReturn(y, q)) && q == a && y@ == literal_result(
            u,
            returned_literal(crate::ast::block_view(block))->Some_0,
        )->Some_0.0,
        t == literal_result(u, returned_literal(crate::ast::block_view(block))->Some_0)->Some_0.1,
{
    reveal_with_fuel(crate::ast::exprs_view, 2);
    reveal_with_fuel(crate::ast::expr_view, 2);
    lemma_exprs_view_len(block.body@);
    let e = block.body@[0];
    assert(crate::ast::expr_view(e) == crate::ast::block_view(block).body[0]);
    match e {
        Expression::Return(v) => {
            match *v {
                Expression::Literal(l) => {
                    let lv = returned_literal(crate::ast::block_view(block))->Some_0;
                    assert(crate::ast::expr_view(e) == crate::ast::ExprV::Return(
                        Box::new(crate::ast::ExprV::Literal(literal_view(l))),
                    ));
                    assert(literal_view(l) == lv);
                    assert(lv is Integer || lv is String || lv is Symbol);
                    let w = literal_result(u, literal_view(l))->Some_0.1;
                    assert(w.acts =~= u.acts);
                    assert(0 <= a < w.acts.len());
                    assert(w.acts[a].holder is Some);
                    reveal_with_fuel(crate::runtime::method_act, 1);
                    assert(crate::runtime::method_act(w, a) == Some(a));

                },
                _ => {},
            }
        },
        _ => {},
    }
}

/// A new block closure, made in an activation of the state, keeps it well
/// formed.
proof fn lemma_push_block_keeps_wf(s: StoreV, b: BlockV)
    requires
        s.wf(),
        b.context matches Some(c) ==> c < s.acts.len(),
    ensures
        (StoreV { blocks: s.blocks.push(b), ..s }).wf(),
{
    let t = StoreV { blocks: s.blocks.push(b), ..s };
    assert forall|n: Seq<char>| #[trigger] crate::runtime::global_class(t, n) == crate::runtime::global_class(s, n) by {}
    assert forall|x: ValueV| ref_ok(s, x) implies #[trigger] ref_ok(t, x) by {
        match x {
            ValueV::Object(o) => {
                assert(crate::runtime::global_class(t, s.cells[o as int]->Object_0) == crate::runtime::global_class(
                    s,
                    s.cells[o as int]->Object_0,
                ));
            },
            _ => {},
        }
    }
    assert forall|j: int| 0 <= j < t.classes.len() implies #[trigger] crate::runtime::class_ok(t, j) by {
        assert(crate::runtime::class_ok(s, j));
        crate::runtime::lemma_chain_transfer(s, t, j, s.classes.len() as nat);
    }
    assert forall|a: int| 0 <= a < t.acts.len() implies #[trigger] crate::runtime::act_ok(t, a) by {
        assert(crate::runtime::act_ok(s, a));
        assert(ref_ok(t, s.acts[a].self_val));
    }
    assert forall|q: int| 0 <= q < t.methods.len() implies #[trigger] t.methods[q].holder < t.classes.len() by {
        assert(s.methods[q].holder < s.classes.len());
    }
    assert forall|k: int| 0 <= k < t.blocks.len() implies (#[trigger] t.blocks[k].context matches Some(a) ==> a
        < t.acts.len()) by {
        if k < s.blocks.len() {
            assert(s.blocks[k].context matches Some(a) ==> a < s.acts.len());
        }
    }
    assert forall|i: int| 0 <= i < t.globals.len() implies (#[trigger] t.globals[i].1 matches ValueV::Class(j) ==> j
        < t.classes.len()) by {
        assert(s.globals[i].1 matches ValueV::Class(j) ==> j < s.classes.len());
    }
}

/// Cells that only grow, where every object stays as it was and nothing
/// else becomes an object, keep the state well formed.
proof fn lemma_cells_keep_wf(s: StoreV, cells: Seq<CellV>)
    requires
        s.wf(),
        s.cells.len() <= cells.len(),
        forall|c: int| 0 <= c < s.cells.len() ==> (#[trigger] s.cells[c] is Object ==> cells[c] == s.cells[c]),
        forall|c: int| 0 <= c < s.cells.len() ==> (#[trigger] cells[c] is Object ==> s.cells[c] is Object),
    ensures
        (StoreV { cells, ..s }).wf(),
{
    let t = StoreV { cells, ..s };
    assert forall|n: Seq<char>| #[trigger] crate::runtime::global_class(t, n) == crate::runtime::global_class(s, n) by {}
    assert forall|x: ValueV| ref_ok(s, x) implies #[trigger] ref_ok(t, x) by {
        match x {
            ValueV::Object(o) => {
                assert(s.cells[o as int] is Object);
                assert(crate::runtime::global_class(t, s.cells[o as int]->Object_0) == crate::runtime::global_class(
                    s,
                    s.cells[o as int]->Object_0,
                ));
            },
            _ => {},
        }
    }
    assert forall|j: int| 0 <= j < t.classes.len() implies #[trigger] crate::runtime::class_ok(t, j) by {
        assert(crate::runtime::class_ok(s, j));
        crate::runtime::lemma_chain_transfer(s, t, j, s.classes.len() as nat);
    }
    assert forall|a: int| 0 <= a < t.acts.len() implies #[trigger] crate::runtime::act_ok(t, a) by {
        assert(crate::runtime::act_ok(s, a));
        assert(ref_ok(t, s.acts[a].self_val));
    }
    assert forall|q: int| 0 <= q < t.methods.len() implies #[trigger] t.methods[q].holder < t.classes.len() by {
        assert(s.methods[q].holder < s.classes.len());
    }
    assert forall|k: int| 0 <= k < t.blocks.len() implies (#[trigger] t.blocks[k].context matches Some(c) ==> c
        < t.acts.len()) by {
        assert(s.blocks[k].context matches Some(c) ==> c < s.acts.len());
    }
    assert forall|i: int| 0 <= i < t.globals.len() implies (#[trigger] t.globals[i].1 matches ValueV::Class(j) ==> j
        < t.classes.len()) by {
        assert(s.globals[i].1 matches ValueV::Class(j) ==> j < s.classes.len());
    }
}

/// What the program prints does not bear on whether the state is well formed.
proof fn lemma_output_keeps_wf(s: StoreV, transcript: Seq<char>, errors: Seq<char>)
    requires
        s.wf(),
    ensures
        (StoreV { transcript, errors, ..s }).wf(),
{
    let t = StoreV { transcript, errors, ..s };
    assert forall|n: Seq<char>| #[trigger] crate::runtime::global_class(t, n) == crate::runtime::global_class(s, n) by {}
    assert forall|x: ValueV| ref_ok(s, x) implies #[trigger] ref_ok(t, x) by {
        match x {
            ValueV::Object(o) => {
                assert(crate::runtime::global_class(t, s.cells[o as int]->Object_0) == crate::runtime::global_class(
                    s,
                    s.cells[o as int]->Object_0,
                ));
            },
            _ => {},
        }
    }
    assert forall|j: int| 0 <= j < t.classes.len() implies #[trigger] crate::runtime::class_ok(t, j) by {
        assert(crate::runtime::class_ok(s, j));
        crate::runtime::lemma_chain_transfer(s, t, j, s.classes.len() as nat);
    }
    assert forall|a: int| 0 <= a < t.acts.len() implies #[trigger] crate::runtime::act_ok(t, a) by {
        assert(crate::runtime::act_ok(s, a));
        assert(ref_ok(t, s.acts[a].self_val));
    }
}

/// Marking an activation as finished keeps the state well formed.
proof fn lemma_deactivate_keeps_wf(s: StoreV, a: int)
    requires
        s.wf(),
        0 <= a < s.acts.len(),
    ensures
        deactivate(s, a).wf(),
{
    let t = deactivate(s, a);
    assert forall|n: Seq<char>| #[trigger] crate::runtime::global_class(t, n) == crate::runtime::global_class(s, n) by {}
    assert forall|x: ValueV| #[trigger] ref_ok(t, x) == ref_ok(s, x) by {
        match x {
            ValueV::Object(o) => {
                if o < s.cells.len() {
                    assert(crate::runtime::global_class(t, s.cells[o as int]->Object_0)
                        == crate::runtime::global_class(s, s.cells[o as int]->Object_0));
                }
            },
            _ => {},
        }
    }
    assert forall|j: int| 0 <= j < t.classes.len() implies #[trigger] crate::runtime::class_ok(t, j) by {
        assert(crate::runtime::class_ok(s, j));
        crate::runtime::lemma_chain_transfer(s, t, j, s.classes.len() as nat);
    }
    assert forall|b: int| 0 <= b < t.acts.len() implies #[trigger] crate::runtime::act_ok(t, b) by {
        assert(crate::runtime::act_ok(s, b));
        assert(class_fields_ok(t, s.acts[b].self_val->Class_0 as int) == class_fields_ok(
            s,
            s.acts[b].self_val->Class_0 as int,
        ));
    }
    assert forall|q: int| 0 <= q < t.methods.len() implies #[trigger] t.methods[q].holder < t.classes.len() by {
        assert(s.methods[q].holder < s.classes.len());
    }
    assert forall|k: int| 0 <= k < t.blocks.len() implies (#[trigger] t.blocks[k].context matches Some(c) ==> c
        < t.acts.len()) by {
        assert(s.blocks[k].context matches Some(c) ==> c < s.acts.len());
    }
    assert forall|i: int| 0 <= i < t.globals.len() implies (#[trigger] t.globals[i].1 matches ValueV::Class(j) ==> j
        < t.classes.len()) by {
        assert(s.globals[i].1 matches ValueV::Class(j) ==> j < s.classes.len());
    }
}

impl Store {
    /// A new block closure for `body`, made in activation `a`.
    fn make_block(&mut self, body: Block, a: usize) -> (r: Value)
        requires
            old(self)@.wf(),
            a < old(self).activations@.len(),
        ensures
            follows(old(self)@, final(self)@),
            r@ == ValueV::Block(old(self)@.blocks.len() as usize),
    {
        let ghost s0 = self@;
        let closure = BlockClosure { body, context: Some(a) };
        let ghost bv = closure@;
        let index = self.blocks.len();
        self.blocks.push(closure);
        proof {
            assert(self@ =~= StoreV { blocks: s0.blocks.push(bv), ..s0 });
            lemma_push_block_keeps_wf(s0, bv);
        }
        Value::Block(index)
    }

    /// A new cell holding `cell`.
    pub(crate) fn new_cell(&mut self, cell: HeapCell) -> (r: usize)
        requires
            old(self)@.wf(),
        ensures
            follows(old(self)@, final(self)@),
            final(self).activations@.len() == old(self).activations@.len(),
            r == old(self)@.cells.len(),
            final(self)@ == crate::reflect::push_cell(old(self)@, cell@),
    {
        let ghost s0 = self@;
        let ghost cv = cell@;
        let index = self.heap.cells.len();
        self.heap.cells.push(cell);
        proof {
            assert(self@ =~= crate::reflect::push_cell(s0, cv));
            crate::reflect::lemma_push_cell_keeps_wf(s0, cv);
        }
        index
    }

    /// The value of a literal, as `literal_result` says; an error for a
    /// literal that holds a double.
    pub fn evaluate_literal(&mut self, lit: &Literal) -> (r: Result<Value, EvalError>)
        requires
            old(self)@.wf(),
        ensures
            follows(old(self)@, final(self)@),
            final(self).activations@.len() == old(self).activations@.len(),
            match literal_result(old(self)@, literal_view(*lit)) {
                Some((v, t)) => r matches Ok(x) && x@ == v && final(self)@ == t,
                None => r is Err,
            },
        decreases lit,
    {
        match lit {
            Literal::Integer(t) => Ok(Value::Integer(crate::compiler::canonical_integer_text(t))),
            Literal::Double(t) => Err(EvalError::Unavailable(t.clone())),
            Literal::String(t) => {
                let c = self.new_cell(HeapCell::Str(t.clone()));
                Ok(Value::String(c))
            },
            Literal::Symbol(t) => Ok(Value::Symbol(t.clone())),
            Literal::Array(elems) => {
                let ghost s0 = self@;
                let mut vals: Vec<Value> = Vec::new();
                let mut i: usize = 0;
                assert(literal_views(elems@.take(0)) =~= Seq::<LiteralV>::empty());
                assert(values_view(vals@) =~= Seq::<ValueV>::empty());
                while i < elems.len()
                    invariant
                        i <= elems.len(),
                        *lit is Array,
                        (*lit)->Array_0 == *elems,
                        follows(old(self)@, self@),
                        self.activations@.len() == old(self).activations@.len(),
                        s0 == old(self)@,
                        literals_result(s0, literal_views(elems@.take(i as int))) == Some((values_view(vals@), self@)),
                    decreases elems.len() - i,
                {
                    proof {
                        assert(decreases_to!(*lit => (*lit)->Array_0));
                        assert(decreases_to!((*lit)->Array_0 => (*lit)->Array_0@));
                        assert(decreases_to!((*lit)->Array_0@ => elems@[i as int]));
                        lemma_literal_views_push(elems@.take(i as int), elems@[i as int]);
                        assert(elems@.take(i + 1) =~= elems@.take(i as int).push(elems@[i as int]));
                        let xs = literal_views(elems@.take(i + 1));
                        assert(xs.drop_last() =~= literal_views(elems@.take(i as int)));
                    }
                    let ghost before = self@;
                    let ghost vs = values_view(vals@);
                    let r = self.evaluate_literal(&elems[i]);
                    match r {
                        Ok(v) => {
                            let ghost vv = v@;
                            vals.push(v);
                            assert(values_view(vals@) =~= vs.push(vv));
                        },
                        Err(e) => {
                            proof {
                                lemma_literals_none_extends(s0, elems@, i + 1);
                            }
                            return Err(e);
                        },
                    }
                    i = i + 1;
                }
                assert(elems@.take(elems.len() as int) =~= elems@);
                let ghost vals_v = values_view(vals@);
                let c = self.new_cell(HeapCell::Array(vals));
                Ok(Value::Array(c))
            },
        }
    }

    /// Evaluates `e` in activation `a`, within `depth` nested evaluations
    /// and sends.
    pub fn evaluate_expression(&mut self, e: &Expression, a: usize, depth: usize) -> (r: Result<Outcome, EvalError>)
        requires
            old(self)@.wf(),
            a < old(self).activations@.len(),
            depth <= MAX_DEPTH,
        ensures
            follows(old(self)@, final(self)@),
            fits(final(self)@, r),
            depth + 1 > MAX_DEPTH ==> (r matches Err(EvalError::RecursionLimit) && final(self)@ == old(self)@),
            depth + 1 <= MAX_DEPTH ==> direct_outcome(old(self)@, *e, a as int, r, final(self)@),
            nested_eval(old(self)@, *e, a as int, depth as int, r, final(self)@),
            depth + 1 <= MAX_DEPTH ==> literal_send(old(self)@, *e, depth + 1, r, final(self)@),
            depth + 1 <= MAX_DEPTH ==> literal_return(old(self)@, *e, a as int, depth + 1, r, final(self)@),
        decreases MAX_DEPTH + 1 - depth, 0int,
    {
        if depth + 1 > MAX_DEPTH {
            return Err(EvalError::RecursionLimit);
        }
        self.evaluate_expression_internal(e, a, depth + 1)
    }

    fn evaluate_expression_internal(&mut self, e: &Expression, a: usize, depth: usize) -> (r: Result<Outcome, EvalError>)
        requires
            old(self)@.wf(),
            a < old(self).activations@.len(),
            1 <= depth <= MAX_DEPTH,
        ensures
            follows(old(self)@, final(self)@),
            fits(final(self)@, r),
            direct_outcome(old(self)@, *e, a as int, r, final(self)@),
            literal_send(old(self)@, *e, depth as int, r, final(self)@),
            evaluates(old(self)@, *e, a as int, depth as int, r, final(self)@),
            literal_return(old(self)@, *e, a as int, depth as int, r, final(self)@),
        decreases MAX_DEPTH + 1 - depth, 7int,
    {
        match e {
            Expression::Literal(lit) => {
                let v = self.evaluate_literal(lit)?;
                Ok(Outcome::Value(v))
            },
            Expression::Variable(name) => {
                if *name == String::from_str("super") {
                    assert(self@.acts[a as int] == self.activations@[a as int]@);
                    return Ok(Outcome::Value(self.activations[a].self_val.copy()));
                }
                match self.lookup(name, a) {
                    Some(v) => Ok(Outcome::Value(v)),
                    None => {
                        assert(self@.acts[a as int] == self.activations@[a as int]@);
                        let receiver = self.activations[a].self_val.copy();
                        let mut args: Vec<Value> = Vec::new();
                        args.push(Value::Symbol(name.clone()));
                        assert(values_view(args@) =~= seq![ValueV::Symbol(name@)]);
                        proof {
                            reveal_strlit("unknownGlobal:");
                        }
                        self.dispatch_internal(receiver, &String::from_str("unknownGlobal:"), args, depth)
                    },
                }
            },
            Expression::Assignment(name, value) => {
                let ghost s0 = self@;
                let r1 = self.evaluate_expression(value, a, depth);
                let ghost g1 = r1;
                let ghost s1 = self@;
                assert(nested_eval(s0, **value, a as int, depth as int, g1, s1));
                assert(stage(g1, s1));
                match r1 {
                    Ok(Outcome::Value(v)) => {
                        let res = self.assign(name, v, a);
                        match res {
                            Ok(w) => Ok(Outcome::Value(w)),
                            Err(n) => Err(EvalError::CannotAssign(n)),
                        }
                    },
                    other => other,
                }
            },
            Expression::Message(receiver_expr, msg) => {
                let ghost s_start = self@;
                let is_super = match &**receiver_expr {
                    Expression::Variable(n) => *n == String::from_str("super"),
                    _ => false,
                };
                proof {
                    reveal_strlit("super");
                    assert(crate::compiler::word_super() =~= "super"@);
                }
                let receiver = if is_super {
                    assert(self@.acts[a as int] == self.activations@[a as int]@);
                    self.activations[a].self_val.copy()
                } else {
                    let r0 = self.evaluate_expression(receiver_expr, a, depth);
                    let ghost g0 = r0;
                    assert(receiver_eval(s_start, **receiver_expr, a as int, depth as int, g0, self@));
                    assert(stage(g0, self@));
                    match r0 {
                        Ok(Outcome::Value(v)) => v,
                        other => {
                            return other;
                        },
                    }
                };
                let ghost s0 = self@;
                let ghost g0 = Ok::<Outcome, EvalError>(Outcome::Value(receiver));
                assert(receiver_eval(s_start, **receiver_expr, a as int, depth as int, g0, s0));
                assert(stage(g0, s0));
                let mut args: Vec<Value> = Vec::new();
                match msg {
                    Message::Unary(_) => {
                        assert(values_view(args@) =~= Seq::<ValueV>::empty());
                    },
                    Message::Binary(_, arg) => {
                        let r2 = self.evaluate_expression(arg, a, depth);
                        let ghost g2 = r2;
                        assert(nested_eval(s0, **arg, a as int, depth as int, g2, self@));
                        assert(stage(g2, self@));
                        match r2 {
                            Ok(Outcome::Value(v)) => {
                                args.push(v);
                                assert(values_view(args@) =~= seq![v@]);
                            },
                            other => {
                                assert(!(g2 matches Ok(Outcome::Value(_))));
                                assert(*msg is Binary);
                                assert(msg->Binary_1 == *arg);
                                assert(evaluates_args(s0, *msg, a as int, depth as int, Err(g2), self@));
                                assert(stage(Err::<Seq<ValueV>, Result<Outcome, EvalError>>(g2), self@));
                                return other;
                            },
                        }
                    },
                    Message::Keyword(parts) => {
                        let mut i: usize = 0;
                        assert(parts@.take(0) =~= Seq::<(String, Box<Expression>)>::empty());
                        assert(values_view(args@) =~= Seq::<ValueV>::empty());
                        while i < parts.len()
                            invariant
                                i <= parts.len(),
                                *e is Message,
                                e->Message_1 is Keyword,
                                *msg is Keyword,
                                msg->Keyword_0 == *parts,
                                *e == Expression::Message(*receiver_expr, *msg),
                                s_start == old(self)@,
                                receiver_eval(s_start, **receiver_expr, a as int, depth as int, g0, s0),
                                stage(g0, s0),
                                g0 == Ok::<Outcome, EvalError>(Outcome::Value(receiver)),
                                is_super == crate::compiler::is_super_var(**receiver_expr),
                                follows(old(self)@, self@),
                                follows(s0, self@),
                                a < self.activations@.len(),
                                1 <= depth <= MAX_DEPTH,
                                evaluates_parts(
                                    s0,
                                    parts@.take(i as int),
                                    a as int,
                                    depth as int,
                                    Ok(values_view(args@)),
                                    self@,
                                ),
                            decreases parts.len() - i,
                        {
                            let ghost si = self@;
                            let ghost vs = values_view(args@);
                            let r2 = self.evaluate_expression(&parts[i].1, a, depth);
                            let ghost g2 = r2;
                            assert(parts@.take(i + 1).drop_last() =~= parts@.take(i as int));
                            assert(nested_eval(si, *parts@.take(i + 1).last().1, a as int, depth as int, g2, self@));
                            assert(stage(g2, self@));
                            assert(stage(Ok::<Seq<ValueV>, Result<Outcome, EvalError>>(vs), si));
                            match r2 {
                                Ok(Outcome::Value(v)) => {
                                    args.push(v);
                                    assert(values_view(args@) =~= vs.push(v@));
                                },
                                other => {
                                    assert(evaluates_parts(s0, parts@.take(i + 1), a as int, depth as int, Err(g2), self@));
                                    proof {
                                        lemma_parts_stop_extends(s0, parts@, a as int, depth as int, g2, self@, i + 1);
                                    }
                                    assert(*msg is Keyword);
                                    assert(msg->Keyword_0 == *parts);
                                    assert(evaluates_args(s0, *msg, a as int, depth as int, Err(g2), self@));
                                    assert(stage(Err::<Seq<ValueV>, Result<Outcome, EvalError>>(g2), self@));
                                    return other;
                                },
                            }
                            i = i + 1;
                        }
                        assert(parts@.take(i as int) =~= parts@);
                    },
                }
                let ghost s1 = self@;
                let ghost vals = values_view(args@);
                assert(evaluates_args(s0, *msg, a as int, depth as int, Ok(vals), s1));
                assert(stage(Ok::<Seq<ValueV>, Result<Outcome, EvalError>>(vals), s1));
                let selector = msg.selector();
                if is_super {
                    match self.super_method(a, &selector) {
                        Ok(m) => self.run_method(m, receiver, args, depth),
                        Err(SuperError::NoMethodActivation) => Err(EvalError::NoMethodActivation),
                        Err(SuperError::NoSuperclass) => Err(EvalError::NoSuperclass),
                        Err(SuperError::NotFound) => Err(EvalError::NotFound(selector)),
                    }
                } else {
                    self.dispatch_internal(receiver, &selector, args, depth)
                }
            },
            Expression::Block(b) => {
                let v = self.make_block(crate::ast::copy_block(b), a);
                Ok(Outcome::Value(v))
            },
            Expression::Return(value) => {
                let ghost s0 = self@;
                let r1 = self.evaluate_expression(value, a, depth);
                let ghost g1 = r1;
                assert(nested_eval(s0, **value, a as int, depth as int, g1, self@));
                assert(stage(g1, self@));
                let v = match r1 {
                    Ok(Outcome::Value(v)) => v,
                    other => {
                        return other;
                    },
                };
                match self.find_method_activation(a) {
                    Some(m) => Ok(Outcome::NonLocalReturn(v, m)),
                    None => Err(EvalError::NoMethodActivation),
                }
            },
        }
    }

    /// Evaluates the statements of `block` in activation `a`, in order: the
    /// value of the last, nil for none; a return or a restart ends them.
    pub fn evaluate_block(&mut self, block: &Block, a: usize, depth: usize) -> (r: Result<Outcome, EvalError>)
        requires
            old(self)@.wf(),
            a < old(self).activations@.len(),
            depth <= MAX_DEPTH,
        ensures
            follows(old(self)@, final(self)@),
            fits(final(self)@, r),
            block.body@.len() == 0 ==> (r matches Ok(Outcome::Value(x)) && x@ == ValueV::Nil && final(self)@ == old(self)@),
            block.body@.len() == 1 && depth + 1 <= MAX_DEPTH ==> direct_outcome(old(self)@, block.body@[0], a as int, r, final(self)@),
            block.body@.len() == 1 && depth + 1 <= MAX_DEPTH ==> literal_return(
                old(self)@,
                block.body@[0],
                a as int,
                depth + 1,
                r,
                final(self)@,
            ),
            block.body@.len() >= 1 && depth + 1 > MAX_DEPTH ==> (r matches Err(EvalError::RecursionLimit) && final(self)@
                == old(self)@),
        decreases MAX_DEPTH + 1 - depth, 1int,
    {
        let mut last = Value::Nil;
        let mut i: usize = 0;
        while i < block.body.len()
            invariant
                depth + 1 > MAX_DEPTH ==> i == 0 && self@ == old(self)@,
                block.body@.len() == 1 && depth + 1 <= MAX_DEPTH && i == 1 ==> direct_outcome(
                    old(self)@,
                    block.body@[0],
                    a as int,
                    Ok(Outcome::Value(last)),
                    self@,
                ),
                block.body@.len() == 1 && depth + 1 <= MAX_DEPTH && i == 1 ==> literal_return(
                    old(self)@,
                    block.body@[0],
                    a as int,
                    depth + 1,
                    Ok(Outcome::Value(last)),
                    self@,
                ),
                i == 0 ==> self@ == old(self)@ && last@ == ValueV::Nil,
                i <= block.body.len(),
                follows(old(self)@, self@),
                a < self.activations@.len(),
                depth <= MAX_DEPTH,
            decreases block.body.len() - i,
        {
            match self.evaluate_expression(&block.body[i], a, depth)? {
                Outcome::Value(v) => {
                    last = v;
                },
                other => {
                    return Ok(other);
                },
            }
            i = i + 1;
        }
        Ok(Outcome::Value(last))
    }

    /// Runs method `m` on `receiver` with `args`, as `runs_method` says; a
    /// method whose only statement returns an integer, string or symbol
    /// literal answers its value.
    pub fn run_method(&mut self, m: usize, receiver: Value, args: Vec<Value>, depth: usize) -> (r: Result<Outcome, EvalError>)
        requires
            old(self)@.wf(),
            m < old(self).methods@.len(),
            depth <= MAX_DEPTH,
        ensures
            follows(old(self)@, final(self)@),
            fits(final(self)@, r),
            runs_method(old(self)@, m as int, receiver@, values_view(args@), depth as int, r, final(self)@),
        decreases MAX_DEPTH + 1 - depth, 6int,
    {
        assert(self@.methods[m as int] == self.methods@[m as int]@);
        let block = match &self.methods[m].body {
            MethodCode::NilPrimitive => {
                return Ok(Outcome::Value(Value::Nil));
            },
            MethodCode::Primitive(key) => {
                let key = key.clone();
                proof {
                    lemma_numbers_ok_views(args@);
                }
                return self.call_primitive(&key, receiver, args, depth);
            },
            MethodCode::Ast(b) => crate::ast::copy_block(b),
        };
        if !self.refers_to_held(&receiver) {
            return Err(EvalError::BadReference);
        }
        if let Value::Class(k) = &receiver {
            if !self.fields_of_class_hold(*k) {
                return Err(EvalError::BadReference);
            }
        }
        let ghost rv = receiver@;
        let ghost argv = values_view(args@);
        let a = self.enter_method(m, receiver, &args);
        let ghost entered = self@;
        assert(self@.acts.len() == self.activations@.len());
        assert(a < self.activations@.len());
        let ghost empty_body = crate::ast::block_view(block).body.len() == 0;
        let ghost returns_literal = depth + 2 <= MAX_DEPTH && returned_literal(crate::ast::block_view(block)) is Some
            && literal_result(entered, returned_literal(crate::ast::block_view(block))->Some_0) is Some;
        let mut rounds: u64 = 0;
        loop
            invariant
                ref_ok(old(self)@, rv),
                rv == receiver@,
                entered == crate::runtime::push_act(old(self)@, crate::runtime::method_activation(old(self)@, m as int, rv, argv)),
                empty_body == (crate::ast::block_view(block).body.len() == 0),
                empty_body ==> self@ == entered,
                returns_literal == (depth + 2 <= MAX_DEPTH && returned_literal(crate::ast::block_view(block)) is Some
                    && literal_result(entered, returned_literal(crate::ast::block_view(block))->Some_0) is Some),
                rounds == 0 ==> self@ == entered,
                rounds > 0 ==> !returns_literal,
                old(self)@.methods[m as int].block matches Some(bl) && crate::ast::block_view(bl) == crate::ast::block_view(block),
                a == old(self)@.acts.len(),
                !old(self)@.methods[m as int].primitive,
                old(self)@.methods[m as int].key is None,
                follows(old(self)@, self@),
                a < self.activations@.len(),
                depth <= MAX_DEPTH,
            decreases u64::MAX - rounds,
        {
            let res = self.evaluate_block(&block, a, depth);
            proof {
                if returns_literal && rounds == 0 {
                    lemma_returned_literal_outcome(entered, block, a as int, depth as int, res, self@);
                }
            }
            match res {
                Ok(Outcome::Restart) => {
                    if rounds == u64::MAX {
                        let ghost before = self@;
                        let r = self.finish_method(a, Err(EvalError::LoopLimit));
                        proof {
                            lemma_deactivate_keeps_wf(before, a as int);
                        }
                        return r;
                    }
                    rounds = rounds + 1;
                },
                _ => {
                    let ghost before = self@;
                    assert(returns_literal ==> before == literal_result(
                        entered,
                        returned_literal(crate::ast::block_view(block))->Some_0,
                    )->Some_0.1);
                    let r = self.finish_method(a, res);
                    proof {
                        lemma_deactivate_keeps_wf(before, a as int);
                    }
                    assert(self@ == deactivate(before, a as int));
                    return r;
                },
            }
        }
    }

    /// Runs block closure `b` with `args`, again for as long as it asks to
    /// restart: a block with no statements answers nil, and one with a
    /// single statement gives what `direct_outcome` fixes of it.
    pub fn run_block(&mut self, b: usize, args: Vec<Value>, depth: usize) -> (r: Result<Outcome, EvalError>)
        requires
            old(self)@.wf(),
            b < old(self).blocks@.len(),
            depth <= MAX_DEPTH,
        ensures
            follows(old(self)@, final(self)@),
            fits(final(self)@, r),
            final(self)@.acts.len() > old(self)@.acts.len(),
            !(r matches Ok(Outcome::Restart)),
            runs_block(old(self)@, b as int, values_view(args@), depth as int, r, final(self)@),
            ({
                let u = crate::runtime::push_act(
                    old(self)@,
                    crate::runtime::block_activation(old(self)@, b as int, values_view(args@)),
                );
                let st = old(self)@.blocks[b as int].statements;
                &&& st.len() == 0 ==> (r matches Ok(Outcome::Value(x)) && x@ == ValueV::Nil && final(self)@ == u)
                &&& st.len() == 1 && depth + 1 <= MAX_DEPTH ==> exists|e: Expression|
                    #[trigger] crate::ast::expr_view(e) == st[0] && direct_outcome(u, e, old(self)@.acts.len() as int, r, final(self)@)
            }),
        decreases MAX_DEPTH + 1 - depth, 2int,
    {
        let ghost s0 = self@;
        let a = self.enter_block(b, &args);
        let ghost u = self@;
        assert(self@.acts.len() == self.activations@.len());
        assert(s0.blocks[b as int] == self.blocks@[b as int]@);
        let body = crate::ast::copy_block(&self.blocks[b].body);
        proof {
            reveal_with_fuel(crate::ast::exprs_view, 2);
            assert(crate::ast::exprs_view(body.body@) == s0.blocks[b as int].statements);
        }
        let ghost st = s0.blocks[b as int].statements;
        let mut rounds: u64 = 0;
        loop
            invariant
                a == old(self)@.acts.len(),
                follows(old(self)@, self@),
                a < self.activations@.len(),
                depth <= MAX_DEPTH,
                s0 == old(self)@,
                u == crate::runtime::push_act(s0, crate::runtime::block_activation(s0, b as int, values_view(args@))),
                st == s0.blocks[b as int].statements,
                crate::ast::exprs_view(body.body@) == st,
                rounds == 0 ==> self@ == u,
                rounds > 0 ==> st.len() > 0,
                rounds > 0 && st.len() == 1 && depth + 1 <= MAX_DEPTH ==> forall|r2: Result<Outcome, EvalError>, t2: StoreV|
                    #[trigger] direct_outcome(u, body.body@[0], a as int, r2, t2),
            decreases u64::MAX - rounds,
        {
            proof {
                reveal_with_fuel(crate::ast::exprs_view, 2);
            }
            let res = self.evaluate_block(&body, a, depth);
            proof {
                if st.len() == 1 && depth + 1 <= MAX_DEPTH && rounds == 0 {
                    assert(body.body@.len() == 1);
                    assert(crate::ast::expr_view(body.body@[0]) == st[0]);
                    if res matches Ok(Outcome::Restart) {
                        assert forall|r2: Result<Outcome, EvalError>, t2: StoreV| #[trigger]
                            direct_outcome(u, body.body@[0], a as int, r2, t2) by {
                            lemma_restart_vacuous(u, body.body@[0], a as int, self@, r2, t2);
                        }
                    }
                }
                if st.len() == 0 {
                    assert(body.body@.len() == 0);
                }
            }
            match res {
                Ok(Outcome::Restart) => {
                    if rounds == u64::MAX {
                        return Err(EvalError::LoopLimit);
                    }
                    rounds = rounds + 1;
                },
                _ => {
                    return res;
                },
            }
        }
    }

    /// Sends `selector` with `args` to `receiver` as the first send of a
    /// run that may nest at most `limit` levels deep, each send and each
    /// nested evaluation taking one (and never deeper than `MAX_SEND_DEPTH`
    /// allows): past that the run stops with a stack overflow.
    pub fn dispatch_limited(&mut self, receiver: Value, selector: &String, args: Vec<Value>, limit: usize) -> (r: Result<
        Outcome,
        EvalError,
    >)
        requires
            old(self)@.wf(),
        ensures
            follows(old(self)@, final(self)@),
            fits(final(self)@, r),
            limit == 0 ==> (r matches Err(EvalError::SendLimit) && final(self)@ == old(self)@),
            limit > 0 ==> direct_send(old(self)@, receiver@, selector@, values_view(args@), start_depth(limit) + 1, r, final(self)@),
    {
        let depth = if limit < MAX_SEND_DEPTH {
            MAX_SEND_DEPTH - limit
        } else {
            0
        };
        self.dispatch_internal(receiver, selector, args, depth)
    }

    /// Sends `selector` with `args` to `receiver`.
    pub fn dispatch_internal(&mut self, receiver: Value, selector: &String, args: Vec<Value>, depth: usize) -> (r: Result<
        Outcome,
        EvalError,
    >)
        requires
            old(self)@.wf(),
            depth <= MAX_DEPTH,
        ensures
            follows(old(self)@, final(self)@),
            fits(final(self)@, r),
            depth + 1 > MAX_SEND_DEPTH ==> (r matches Err(EvalError::SendLimit) && final(self)@ == old(self)@),
            depth + 1 <= MAX_SEND_DEPTH ==> direct_send(old(self)@, receiver@, selector@, values_view(args@), depth + 1, r, final(self)@),
        decreases MAX_DEPTH + 1 - depth, 0int,
    {
        if depth + 1 > MAX_SEND_DEPTH {
            return Err(EvalError::SendLimit);
        }
        self.dispatch_actual(receiver, selector, args, depth + 1)
    }

    fn dispatch_actual(&mut self, receiver: Value, selector: &String, args: Vec<Value>, depth: usize) -> (r: Result<
        Outcome,
        EvalError,
    >)
        requires
            old(self)@.wf(),
            1 <= depth <= MAX_DEPTH,
        ensures
            follows(old(self)@, final(self)@),
            fits(final(self)@, r),
            direct_send(old(self)@, receiver@, selector@, values_view(args@), depth as int, r, final(self)@),
        decreases MAX_DEPTH + 1 - depth, 7int,
    {
        if !self.refers_to_held(&receiver) {
            return Err(EvalError::BadReference);
        }
        match self.dispatch_plan(&receiver, selector) {
            Dispatch::RunBlock(b) => {
                let res = self.run_block(b, args, depth);
                match res {
                    Ok(out) => match self.escaped_return(&out) {
                        Some(target_self) => {
                            let mut eargs: Vec<Value> = Vec::new();
                            eargs.push(Value::Block(b));
                            self.dispatch_internal(target_self, &String::from_str("escapedBlock:"), eargs, depth)
                        },
                        None => Ok(out),
                    },
                    Err(e) => Err(e),
                }
            },
            Dispatch::NoClass => Err(EvalError::NoClass),
            Dispatch::Receiver => Ok(Outcome::Value(receiver)),
            Dispatch::Run(m) => {
                if m >= self.methods.len() {
                    return Err(EvalError::BadReference);
                }
                self.run_method(m, receiver, args, depth)
            },
            Dispatch::NotUnderstood => Err(EvalError::NotUnderstood(selector.clone())),
        }
    }

    /// Runs the primitive registered under `key` on `receiver` with `args`.
    fn call_primitive(&mut self, key: &String, receiver: Value, args: Vec<Value>, depth: usize) -> (r: Result<
        Outcome,
        EvalError,
    >)
        requires
            old(self)@.wf(),
            depth <= MAX_DEPTH,
        ensures
            follows(old(self)@, final(self)@),
            fits(final(self)@, r),
            integer_key(key@) ==> final(self)@ == old(self)@,
            integer_key(key@) && !(number_ok(receiver@) && numbers_ok(args@)) ==> r matches Err(EvalError::BadReference),
            integer_key(key@) && number_ok(receiver@) && numbers_ok(args@) ==> integer_outcome(
                key@,
                receiver@,
                values_view(args@),
                r,
            ),
            !integer_key(key@) && !state_key(key@) && !control_key(key@) ==> (r matches Err(EvalError::Unavailable(t))
                && t@ == key@ && final(self)@ == old(self)@),
            !integer_key(key@) && state_key(key@) ==> state_outcome(old(self)@, key@, receiver@, values_view(args@), r, final(self)@),
            !integer_key(key@) && !state_key(key@) && control_key(key@) ==> control_outcome(
                old(self)@,
                key@,
                receiver@,
                values_view(args@),
                depth as int,
                r,
                final(self)@,
            ),
        decreases MAX_DEPTH + 1 - depth, 5int,
    {
        match integer_primitive(key, &receiver, &args) {
            Some(r) => {
                return r;
            },
            None => {},
        }
        match self.state_primitive(key, &receiver, &args) {
            Some(r) => {
                return r;
            },
            None => {},
        }
        self.control_primitive(key, receiver, args, depth)
    }

    /// The primitives on strings, arrays, objects, classes and methods and
    /// on the globals, which run no code; `None` for any other key.
    fn state_primitive(&mut self, key: &String, receiver: &Value, args: &Vec<Value>) -> (r: Option<
        Result<Outcome, EvalError>,
    >)
        requires
            old(self)@.wf(),
        ensures
            follows(old(self)@, final(self)@),
            r matches Some(Ok(x)) ==> x is Value,
            r is Some == state_key(key@),
            r is None ==> final(self)@ == old(self)@,
            r matches Some(x) ==> state_outcome(old(self)@, key@, receiver@, values_view(args@), x, final(self)@),
            key@ == "True>>not"@ ==> (r matches Some(Ok(Outcome::Value(x))) && x@ == ValueV::Boolean(false)
                && final(self)@ == old(self)@),
            key@ == "False>>not"@ ==> (r matches Some(Ok(Outcome::Value(x))) && x@ == ValueV::Boolean(true)
                && final(self)@ == old(self)@),
            key@ == "System>>fullGC"@ ==> (r matches Some(Ok(Outcome::Value(x))) && x@ == ValueV::Boolean(true)
                && final(self)@ == old(self)@),
            key@ == "Object>>error:"@ ==> final(self)@ == old(self)@ && (crate::collections::valid_args(old(self)@.cells, args@)
                ==> (r matches Some(Err(EvalError::Raised(t))) && t@ == named_text(old(self)@.cells, values_view(args@))))
                && (!crate::collections::valid_args(old(self)@.cells, args@) ==> r matches Some(Err(EvalError::BadReference))),
            key@ == "Object>>inspect"@ ==> (r matches Some(Ok(Outcome::Value(x))) && x@ == receiver@ && final(self)@
                == old(self)@),
            key@ == "System>>errorPrint:"@ ==> if crate::collections::valid_args(old(self)@.cells, args@) {
                r matches Some(Ok(Outcome::Value(x))) && x@ == ValueV::Nil && final(self)@ == (StoreV {
                    errors: old(self)@.errors + named_text(old(self)@.cells, values_view(args@)),
                    ..old(self)@
                })
            } else {
                r matches Some(Err(EvalError::BadReference)) && final(self)@ == old(self)@
            },
            key@ == "System>>errorPrintln:"@ ==> if crate::collections::valid_args(old(self)@.cells, args@) {
                r matches Some(Ok(Outcome::Value(x))) && x@ == ValueV::Nil && final(self)@ == (StoreV {
                    errors: (old(self)@.errors + named_text(old(self)@.cells, values_view(args@))).push('\n'),
                    ..old(self)@
                })
            } else {
                r matches Some(Err(EvalError::BadReference)) && final(self)@ == old(self)@
            },
            key@ == "System>>printStackTrace"@ ==> (r matches Some(Ok(Outcome::Value(x))) && x@ == ValueV::Nil
                && final(self)@ == (StoreV {
                errors: old(self)@.errors + stack_lines(old(self)@, old(self)@.acts.len() as int),
                ..old(self)@
            })),
            key@ == "System>>printString:"@ ==> if crate::collections::valid_args(old(self)@.cells, args@) {
                r matches Some(Ok(Outcome::Value(x))) && x@ == ValueV::Nil && final(self)@ == (StoreV {
                    transcript: old(self)@.transcript + named_text(old(self)@.cells, values_view(args@)),
                    ..old(self)@
                })
            } else {
                r matches Some(Err(EvalError::BadReference)) && final(self)@ == old(self)@
            },
            key@ == "System>>printNewline"@ ==> (r matches Some(Ok(Outcome::Value(x))) && x@ == ValueV::Nil && final(self)@
                == (StoreV { transcript: old(self)@.transcript.push('\n'), ..old(self)@ })),
            key@ == "Object>>instVarNamed:"@ ==> final(self)@ == old(self)@ && (if crate::collections::valid_args(
                old(self)@.cells,
                args@,
            ) && ref_ok(old(self)@, receiver@) && (receiver@ matches ValueV::Class(c) ==> class_fields_ok(old(self)@, c as int)) {
                match crate::runtime::field_slot(old(self)@, receiver@, named_text(old(self)@.cells, values_view(args@))) {
                    Some(sl) => r matches Some(Ok(Outcome::Value(x))) && x@ == crate::runtime::read_slot(old(self)@, sl),
                    None => r matches Some(Err(EvalError::NotFound(t))) && t@ == named_text(old(self)@.cells, values_view(args@)),
                }
            } else {
                r matches Some(Err(EvalError::BadReference))
            }),
    {
        proof {
            reveal_strlit("True>>not");
            reveal_strlit("False>>not");
            reveal_strlit("System>>fullGC");
            reveal_strlit("Object>>error:");
            reveal_strlit("Object>>inspect");
            reveal_strlit("Object>>instVarNamed:");
            assert("Object>>error:"@[8] != "Object>>inspect"@[8]);
            assert("Object>>error:"@[8] != "Object>>instVarNamed:"@[8]);
            assert("Object>>inspect"@[11] != "Object>>instVarNamed:"@[11]);
            assert("Object>>error:"@[0] != "True>>not"@[0]);
            assert("Object>>error:"@[0] != "False>>not"@[0]);
            assert("Object>>error:"@[0] != "System>>fullGC"@[0]);
            assert("Object>>inspect"@[0] != "True>>not"@[0]);
            assert("Object>>inspect"@[0] != "False>>not"@[0]);
            assert("Object>>inspect"@[0] != "System>>fullGC"@[0]);
            assert("Object>>instVarNamed:"@[0] != "True>>not"@[0]);
            assert("Object>>instVarNamed:"@[0] != "False>>not"@[0]);
            assert("Object>>instVarNamed:"@[0] != "System>>fullGC"@[0]);
            assert("True>>not"@[0] != "False>>not"@[0]);
            reveal_strlit("Object>>==");
            reveal_strlit("Object>>objectSize");
            reveal_strlit("System>>printString:");
            reveal_strlit("System>>printNewline");
            reveal_strlit("System>>global:put:");
            reveal_strlit("System>>time");
            reveal_strlit("System>>ticks");
            assert("True>>not"@.len() != "System>>fullGC"@.len());
            assert("Object>>=="@.len() != "System>>fullGC"@.len());
            assert("Object>>objectSize"@.len() != "System>>fullGC"@.len());
            assert("System>>printString:"@.len() != "System>>fullGC"@.len());
            assert("System>>printNewline"@.len() != "System>>fullGC"@.len());
            assert("System>>global:put:"@.len() != "System>>fullGC"@.len());
            assert("System>>time"@.len() != "System>>fullGC"@.len());
            assert("System>>ticks"@.len() != "System>>fullGC"@.len());
            assert("System>>printString:"@[13] != "System>>printNewline"@[13]);
            assert("System>>printString:"@[0] != "Object>>error:"@[0]);
            assert("System>>printNewline"@[0] != "Object>>error:"@[0]);
            assert("System>>printString:"@[0] != "True>>not"@[0]);
            assert("System>>printNewline"@[0] != "True>>not"@[0]);
            assert("System>>printString:"@[0] != "False>>not"@[0]);
            assert("System>>printNewline"@[0] != "False>>not"@[0]);
            reveal_strlit("System>>errorPrint:");
            reveal_strlit("System>>errorPrintln:");
            reveal_strlit("System>>printStackTrace");
            assert("System>>errorPrint:"@.len() != "System>>fullGC"@.len());
            assert("System>>errorPrint:"@.len() != "System>>printString:"@.len());
            assert("System>>errorPrint:"@.len() != "System>>printNewline"@.len());
            assert("System>>errorPrint:"@[0] != "True>>not"@[0]);
            assert("System>>errorPrint:"@[0] != "False>>not"@[0]);
            assert("System>>errorPrint:"@[0] != "Object>>error:"@[0]);
            assert("System>>errorPrint:"@[0] != "Object>>inspect"@[0]);
            assert("System>>errorPrint:"@[0] != "Object>>instVarNamed:"@[0]);
            assert("System>>errorPrintln:"@.len() != "System>>fullGC"@.len());
            assert("System>>errorPrintln:"@.len() != "System>>printString:"@.len());
            assert("System>>errorPrintln:"@.len() != "System>>printNewline"@.len());
            assert("System>>errorPrintln:"@[0] != "True>>not"@[0]);
            assert("System>>errorPrintln:"@[0] != "False>>not"@[0]);
            assert("System>>errorPrintln:"@[0] != "Object>>error:"@[0]);
            assert("System>>errorPrintln:"@[0] != "Object>>inspect"@[0]);
            assert("System>>errorPrintln:"@[0] != "Object>>instVarNamed:"@[0]);
            assert("System>>printStackTrace"@.len() != "System>>fullGC"@.len());
            assert("System>>printStackTrace"@.len() != "System>>printString:"@.len());
            assert("System>>printStackTrace"@.len() != "System>>printNewline"@.len());
            assert("System>>printStackTrace"@[0] != "True>>not"@[0]);
            assert("System>>printStackTrace"@[0] != "False>>not"@[0]);
            assert("System>>printStackTrace"@[0] != "Object>>error:"@[0]);
            assert("System>>printStackTrace"@[0] != "Object>>inspect"@[0]);
            assert("System>>printStackTrace"@[0] != "Object>>instVarNamed:"@[0]);
            assert("System>>errorPrint:"@.len() != "System>>errorPrintln:"@.len());
            assert("System>>errorPrint:"@.len() != "System>>printStackTrace"@.len());
            assert("System>>errorPrintln:"@.len() != "System>>printStackTrace"@.len());
        }
        let k = key;
        let ghost s0 = self@;
        proof {
            lemma_args_valid_views(s0.cells, args@);
        }
        if *k == String::from_str("System>>errorPrint:") || *k == String::from_str("System>>errorPrintln:") {
            if !self.values_valid(args) {
                return Some(Err(EvalError::BadReference));
            }
            let printed = self.named_text_of(args);
            self.errors.append(printed.as_str());
            if *k == String::from_str("System>>errorPrintln:") {
                crate::text::push_char(&mut self.errors, '\n');
                assert(self@ =~= (StoreV { errors: (s0.errors + printed@).push('\n'), ..s0 }));
                proof {
                    lemma_output_keeps_wf(s0, s0.transcript, (s0.errors + printed@).push('\n'));
                }
            } else {
                assert(self@ =~= (StoreV { errors: s0.errors + printed@, ..s0 }));
                proof {
                    lemma_output_keeps_wf(s0, s0.transcript, s0.errors + printed@);
                }
            }
            return Some(Ok(Outcome::Value(Value::Nil)));
        }
        if *k == String::from_str("System>>printStackTrace") {
            let trace = self.stack_text();
            self.errors.append(trace.as_str());
            assert(self@ =~= (StoreV { errors: s0.errors + trace@, ..s0 }));
            proof {
                lemma_output_keeps_wf(s0, s0.transcript, s0.errors + trace@);
            }
            return Some(Ok(Outcome::Value(Value::Nil)));
        }
        if *k == String::from_str("Object>>error:") {
            if !self.values_valid(args) {
                return Some(Err(EvalError::BadReference));
            }
            return Some(Err(EvalError::Raised(self.named_text_of(args))));
        }
        if *k == String::from_str("Object>>inspect") {
            return Some(Ok(Outcome::Value(receiver.copy())));
        }
        if *k == String::from_str("Object>>instVarNamed:") {
            if !self.values_valid(args) || !self.refers_to_held(receiver) {
                return Some(Err(EvalError::BadReference));
            }
            if let Value::Class(c) = receiver {
                if !self.fields_of_class_hold(*c) {
                    return Some(Err(EvalError::BadReference));
                }
            }
            let name = self.named_text_of(args);
            return Some(
                match self.field_slot(receiver, &name) {
                    Some(sl) => Ok(Outcome::Value(self.read_slot(&sl))),
                    None => Err(EvalError::NotFound(name)),
                },
            );
        }
        if *k == String::from_str("True>>not") {
            return Some(Ok(Outcome::Value(crate::reflect::true_not())));
        }
        if *k == String::from_str("False>>not") {
            return Some(Ok(Outcome::Value(crate::reflect::false_not())));
        }
        if *k == String::from_str("Object>>==") {
            if !numbers_hold(receiver, args) {
                return Some(Err(EvalError::BadReference));
            }
            return Some(Ok(Outcome::Value(crate::reflect::obj_eq(receiver, args))));
        }
        if *k == String::from_str("Object>>objectSize") {
            return Some(Ok(Outcome::Value(crate::reflect::obj_object_size())));
        }
        if *k == String::from_str("System>>printString:") {
            if !self.values_valid(args) {
                return Some(Err(EvalError::BadReference));
            }
            let printed = self.named_text_of(args);
            self.transcript.append(printed.as_str());
            assert(self@ =~= (StoreV { transcript: s0.transcript + printed@, ..s0 }));
            proof {
                lemma_output_keeps_wf(s0, s0.transcript + printed@, s0.errors);
            }
            return Some(Ok(Outcome::Value(Value::Nil)));
        }
        if *k == String::from_str("System>>printNewline") {
            crate::text::push_char(&mut self.transcript, '\n');
            assert(self@ =~= (StoreV { transcript: s0.transcript.push('\n'), ..s0 }));
            proof {
                lemma_output_keeps_wf(s0, s0.transcript.push('\n'), s0.errors);
            }
            return Some(Ok(Outcome::Value(Value::Nil)));
        }
        if *k == String::from_str("System>>global:put:") {
            if !self.values_valid(args) || !self.all_refer_ok(args) {
                return Some(Err(EvalError::BadReference));
            }
            return Some(self.global_put(args));
        }
        if *k == String::from_str("System>>time") {
            return Some(Ok(Outcome::Value(crate::numbers::sys_time())));
        }
        if *k == String::from_str("System>>ticks") {
            return Some(Ok(Outcome::Value(crate::numbers::sys_ticks())));
        }
        if *k == String::from_str("System>>fullGC") {
            return Some(Ok(Outcome::Value(Value::Boolean(true))));
        }
        if *k == String::from_str("System>>exit:") {
            if !numbers_hold(receiver, args) {
                return Some(Err(EvalError::BadReference));
            }
            return Some(
                match crate::numbers::sys_exit_code(args) {
                    Some(code) => Err(EvalError::Exit(code)),
                    None => Ok(Outcome::Value(Value::Nil)),
                },
            );
        }
        if *k == String::from_str("System>>load:") {
            if !self.values_valid(args) {
                return Some(Err(EvalError::BadReference));
            }
            assert(self@.cells == self.heap@);
            if args.len() == 0 {
                return Some(Ok(Outcome::Value(Value::Nil)));
            }
            assert(crate::collections::valid_value(self@.cells, args@[0]@));
            return Some(
                match crate::collections::text_of_value(&self.heap, &args[0]) {
                    Some(name) => match self.global_class(&name) {
                        Some(c) => Ok(Outcome::Value(Value::Class(c))),
                        None => Ok(Outcome::Value(Value::Nil)),
                    },
                    None => Ok(Outcome::Value(Value::Nil)),
                },
            );
        }
        if *k == String::from_str("System>>defineClass:") {
            if !self.all_refer_ok(args) {
                return Some(Err(EvalError::BadReference));
            }
            return Some(
                match self.sys_define_class(args) {
                    crate::loader::DefineStep::Answer(v) => Ok(Outcome::Value(v)),
                    crate::loader::DefineStep::Assemble(def, c) => self.define_assembled(def, c),
                },
            );
        }
        if *k == String::from_str("System>>classNames") {
            let v = self.sys_class_names(&Vec::new());
            return Some(Ok(Outcome::Value(v)));
        }
        if *k == String::from_str("Object>>halt") || *k == String::from_str("Debugger class>>halt")
            || *k == String::from_str("Debugger>>resume") || *k == String::from_str("Debugger>>stepInto") {
            return Some(Ok(Outcome::Value(Value::Nil)));
        }
        if *k == String::from_str("Debugger>>currentFrames") {
            let c = self.new_cell(HeapCell::Array(Vec::new()));
            return Some(Ok(Outcome::Value(Value::Array(c))));
        }
        let known = *k == String::from_str("Object>>class") || *k == String::from_str("Object>>respondsTo:")
            || *k == String::from_str("Object>>hashcode") || *k == String::from_str("String>>hashcode")
            || *k == String::from_str("Object>>instVarAt:") || *k == String::from_str("Object>>instVarAt:put:")
            || *k == String::from_str("Class>>new") || *k == String::from_str("Class>>name")
            || *k == String::from_str("Class>>superclass") || *k == String::from_str("Class>>hasMethod:")
            || *k == String::from_str("Class>>fields") || *k == String::from_str("Class>>methods")
            || *k == String::from_str("Class>>selectors") || *k == String::from_str("Method>>signature")
            || *k == String::from_str("Method>>holder") || *k == String::from_str("Primitive>>signature")
            || *k == String::from_str("Primitive>>holder") || *k == String::from_str("Nil>>asString")
            || *k == String::from_str("Symbol>>asString") || *k == String::from_str("Integer>>asString")
            || *k == String::from_str("Integer class>>fromString:") || *k == String::from_str("String>>concatenate:")
            || *k == String::from_str("String>>length") || *k == String::from_str("String>>=")
            || *k == String::from_str("String>>asSymbol") || *k == String::from_str("String>>isWhiteSpace")
            || *k == String::from_str("String>>isLetters") || *k == String::from_str("String>>isDigits")
            || *k == String::from_str("String>>primSubstringFrom:to:") || *k == String::from_str("Array>>at:")
            || *k == String::from_str("Array>>at:put:") || *k == String::from_str("Array>>length")
            || *k == String::from_str("Array class>>new:") || *k == String::from_str("System>>global:")
            || *k == String::from_str("System>>hasGlobal:") || *k == String::from_str("System>>compileMethod:inClass:")
            || *k == String::from_str("System>>installMethod:inClass:");
        if !known {
            return None;
        }
        if !self.refers_to_held(receiver) || !self.value_valid(receiver) || !self.values_valid(args) || !self.all_refer_ok(
            args,
        ) || !numbers_hold(receiver, args) {
            return Some(Err(EvalError::BadReference));
        }
        assert(self@.cells == self.heap@);
        let v = if *k == String::from_str("Object>>class") {
            match self.obj_class(receiver) {
                Ok(v) => v,
                Err(_) => {
                    return Some(Err(EvalError::NoClass));
                },
            }
        } else if *k == String::from_str("Object>>respondsTo:") {
            self.obj_responds_to(receiver, args)
        } else if *k == String::from_str("Object>>hashcode") || *k == String::from_str("String>>hashcode") {
            crate::numbers::obj_hashcode(&self.heap, receiver)
        } else if *k == String::from_str("Object>>instVarAt:") {
            self.obj_inst_var_at(receiver, args)
        } else if *k == String::from_str("Object>>instVarAt:put:") {
            self.obj_inst_var_at_put(receiver, args)
        } else if *k == String::from_str("Class>>new") {
            match self.class_new(receiver) {
                Some(v) => v,
                None => Value::Nil,
            }
        } else if *k == String::from_str("Class>>name") {
            self.class_name(receiver)
        } else if *k == String::from_str("Class>>superclass") {
            self.class_superclass(receiver)
        } else if *k == String::from_str("Class>>hasMethod:") {
            self.class_has_method(receiver, args)
        } else if *k == String::from_str("Class>>fields") {
            self.class_fields(receiver)
        } else if *k == String::from_str("Class>>methods") {
            self.class_methods(receiver)
        } else if *k == String::from_str("Class>>selectors") {
            self.class_selectors(receiver)
        } else if *k == String::from_str("Method>>signature") || *k == String::from_str("Primitive>>signature") {
            self.method_signature(receiver)
        } else if *k == String::from_str("Method>>holder") || *k == String::from_str("Primitive>>holder") {
            self.method_holder(receiver)
        } else if *k == String::from_str("Nil>>asString") {
            self.nil_as_string()
        } else if *k == String::from_str("Symbol>>asString") {
            self.symbol_as_string(receiver)
        } else if *k == String::from_str("System>>global:") {
            self.sys_global(args)
        } else if *k == String::from_str("System>>hasGlobal:") {
            self.sys_has_global(args)
        } else if *k == String::from_str("System>>compileMethod:inClass:") {
            self.sys_compile_method_in_class(args)
        } else if *k == String::from_str("System>>installMethod:inClass:") {
            self.sys_install_method_in_class(args)
        } else if *k == String::from_str("Integer class>>fromString:") {
            crate::numbers::int_from_string(&self.heap, args)
        } else if *k == String::from_str("String>>length") {
            crate::collections::str_len(&self.heap, receiver)
        } else if *k == String::from_str("String>>=") {
            crate::collections::str_eq(&self.heap, receiver, args)
        } else if *k == String::from_str("String>>asSymbol") {
            crate::collections::str_as_symbol(&self.heap, receiver)
        } else if *k == String::from_str("String>>isWhiteSpace") {
            crate::collections::str_is_whitespace(&self.heap, receiver)
        } else if *k == String::from_str("String>>isLetters") {
            crate::collections::str_is_letters(&self.heap, receiver)
        } else if *k == String::from_str("String>>isDigits") {
            crate::collections::str_is_digits(&self.heap, receiver)
        } else if *k == String::from_str("Array>>at:") {
            match crate::collections::arr_at(&self.heap, receiver, args) {
                Ok(v) => v,
                Err(e) => {
                    return Some(Err(self.array_error(receiver, args, e)));
                },
            }
        } else if *k == String::from_str("Array>>length") {
            crate::collections::arr_len(&self.heap, receiver)
        } else {
            return Some(self.heap_primitive(k, receiver, args));
        };
        Some(Ok(Outcome::Value(v)))
    }

    /// The rest of `System>>defineClass:`: assembles `def` into class `c`,
    /// its superclass and the classes `Class` and `Metaclass` found among the
    /// globals, and answers the class; a string that says which class is
    /// missing when one is; an error, with the class left unassembled, when
    /// assembling it would leave the state ill formed.
    fn define_assembled(&mut self, def: ClassDef, c: usize) -> (r: Result<Outcome, EvalError>)
        requires
            old(self)@.wf(),
        ensures
            follows(old(self)@, final(self)@),
            r matches Ok(x) ==> x is Value,
            ({
                let s = old(self)@;
                let missing = |m: Seq<char>|
                    r matches Ok(Outcome::Value(x)) && x@ == ValueV::String(s.cells.len() as usize) && final(self)@
                        == crate::reflect::push_cell(s, CellV::Str(missing_text(m)));
                match chosen_superclass(s, crate::ast::class_view(def)) {
                    Err(m) => missing(m),
                    Ok(sup) => {
                        let needs = needs_class_class(s, crate::ast::class_view(def), sup);
                        let n = s.classes.len();
                        if needs && crate::runtime::global_class(s, "Class"@) is None {
                            missing("Class"@)
                        } else if crate::runtime::global_class(s, "Metaclass"@) is None {
                            missing("Metaclass"@)
                        } else {
                            let cc: usize = if needs {
                                crate::runtime::global_class(s, "Class"@)->Some_0
                            } else {
                                0
                            };
                            let mc = crate::runtime::global_class(s, "Metaclass"@)->Some_0;
                            if c >= n || cc >= n || mc >= n || (sup matches Some(j) && j >= n) {
                                r matches Err(EvalError::BadReference) && final(self)@ == s
                            } else if crate::loader::assembled(s, def, c, sup, cc, mc).wf() {
                                r matches Ok(Outcome::Value(x)) && x@ == ValueV::Class(c) && final(self)@
                                    == crate::loader::assembled(s, def, c, sup, cc, mc)
                            } else {
                                r matches Err(EvalError::IllFormedClass(t)) && t@ == def.name@ && final(self)@ == s
                            }
                        }
                    },
                }
            }),
    {
        proof {
            reveal_strlit("Object");
            reveal_strlit("nil");
            reveal_strlit("Class");
            reveal_strlit("Metaclass");
            reveal_strlit("Error assembling class: Class ");
            reveal_strlit(" not found in classpath");
        }
        let is_object = def.name == String::from_str("Object");
        let sup = match &def.super_class {
            Some(n) => {
                if *n == String::from_str("nil") {
                    None
                } else {
                    match self.global_class(n) {
                        Some(j) => Some(j),
                        None => {
                            return Ok(Outcome::Value(self.missing_class(n)));
                        },
                    }
                }
            },
            None => {
                if is_object {
                    None
                } else {
                    let object = String::from_str("Object");
                    match self.global_class(&object) {
                        Some(j) => Some(j),
                        None => {
                            return Ok(Outcome::Value(self.missing_class(&object)));
                        },
                    }
                }
            },
        };
        let n = self.classes.len();
        let needs_class = is_object || match sup {
            Some(j) => j >= n || self.classes[j].metaclass.is_none(),
            None => true,
        };
        let class_class = if needs_class {
            let name = String::from_str("Class");
            match self.global_class(&name) {
                Some(j) => j,
                None => {
                    return Ok(Outcome::Value(self.missing_class(&name)));
                },
            }
        } else {
            0
        };
        let meta = String::from_str("Metaclass");
        let metaclass_class = match self.global_class(&meta) {
            Some(j) => j,
            None => {
                return Ok(Outcome::Value(self.missing_class(&meta)));
            },
        };
        let sup_ok = match sup {
            Some(j) => j < n,
            None => true,
        };
        if c >= n || class_class >= n || metaclass_class >= n || !sup_ok {
            return Err(EvalError::BadReference);
        }
        let name = def.name.clone();
        let ghost before = self@;
        let ghost d = def;
        proof {
            crate::loader::lemma_assembled_frame(before, d, c, sup, class_class, metaclass_class);
        }
        if self.assemble_class_checked(def, c, sup, class_class, metaclass_class) {
            Ok(Outcome::Value(Value::Class(c)))
        } else {
            Err(EvalError::IllFormedClass(name))
        }
    }

    /// A new string saying that assembling a class needed class `name`,
    /// which is not there.
    fn missing_class(&mut self, name: &String) -> (r: Value)
        requires
            old(self)@.wf(),
        ensures
            follows(old(self)@, final(self)@),
            r@ == ValueV::String(old(self)@.cells.len() as usize),
            final(self)@ == crate::reflect::push_cell(
                old(self)@,
                CellV::Str("Error assembling class: Class "@ + name@ + " not found in classpath"@),
            ),
    {
        let mut t = String::from_str("Error assembling class: Class ");
        t.append(name.as_str());
        t.append(" not found in classpath");
        let cell = self.new_cell(HeapCell::Str(t));
        Value::String(cell)
    }

    /// `System>>global:put:`, refused (with nothing changed) where the new
    /// binding would leave a running method's receiver without its class.
    fn global_put(&mut self, args: &Vec<Value>) -> (r: Result<Outcome, EvalError>)
        requires
            old(self)@.wf(),
            crate::collections::valid_args(old(self)@.cells, args@),
        ensures
            follows(old(self)@, final(self)@),
            r matches Ok(x) ==> x is Value,
            ({
                let (v, t) = match (if args@.len() >= 2 {
                    crate::reflect::selector_of(old(self)@.cells, args@[0]@)
                } else {
                    None
                }) {
                    Some(name) => (args@[1]@, StoreV {
                        globals: crate::runtime::bind(old(self)@.globals, name, args@[1]@),
                        ..old(self)@
                    }),
                    None => (ValueV::Nil, old(self)@),
                };
                if t.wf() {
                    r matches Ok(Outcome::Value(x)) && x@ == v && final(self)@ == t
                } else {
                    r matches Err(EvalError::BadReference) && final(self)@ == old(self)@
                }
            }),
    {
        let ghost s0 = self@;
        let saved = copy_entries(&self.globals);
        let v = self.sys_global_put(args);
        if self.is_well_formed() {
            assert(self@.acts == s0.acts);
            Ok(Outcome::Value(v))
        } else {
            self.globals = saved;
            assert(self@ =~= s0);
            Err(EvalError::BadReference)
        }
    }

    /// The primitives that change cells: they add a string or an array, or
    /// store into an array.
    fn heap_primitive(&mut self, key: &String, receiver: &Value, args: &Vec<Value>) -> (r: Result<Outcome, EvalError>)
        requires
            old(self)@.wf(),
            crate::collections::valid_value(old(self)@.cells, receiver@),
            crate::collections::valid_args(old(self)@.cells, args@),
            number_ok(receiver@),
        ensures
            follows(old(self)@, final(self)@),
            r matches Ok(x) ==> x is Value,
            key@ == "Integer>>asString"@ ==> (r matches Ok(Outcome::Value(x)) && match receiver@ {
                ValueV::Integer(t) => x@ == ValueV::String(old(self)@.cells.len() as usize) && final(self)@
                    == crate::reflect::push_cell(old(self)@, CellV::Str(int_text(crate::collections::integer_value(t)))),
                _ => x@ == ValueV::Nil && final(self)@ == old(self)@,
            }),
            key@ == "String>>concatenate:"@ ==> (r matches Ok(Outcome::Value(x)) && (x@, final(self)@.cells)
                == crate::collections::str_concat_spec(old(self)@.cells, receiver@, values_view(args@)) && final(self)@
                == (StoreV { cells: final(self)@.cells, ..old(self)@ })),
            key@ == "String>>primSubstringFrom:to:"@ ==> (r matches Ok(Outcome::Value(x)) && (x@, final(self)@.cells)
                == crate::collections::str_substring_spec(old(self)@.cells, receiver@, values_view(args@))
                && final(self)@ == (StoreV { cells: final(self)@.cells, ..old(self)@ })),
            key@ == "Array>>at:put:"@ ==> match crate::collections::arr_at_put_spec(
                old(self)@.cells,
                receiver@,
                values_view(args@),
            ) {
                Ok((v, c)) => r matches Ok(Outcome::Value(x)) && x@ == v && final(self)@ == (StoreV { cells: c, ..old(self)@ }),
                Err(_) => r matches Err(f) && array_error_of(
                    old(self)@.cells,
                    receiver@,
                    values_view(args@),
                    PrimitiveError::IndexOutOfBounds,
                    f,
                ) && final(self)@ == old(self)@,
            },
            key@ == "Array class>>new:"@ ==> match crate::collections::arr_new_spec(old(self)@.cells, values_view(args@)) {
                Ok((v, c)) => r matches Ok(Outcome::Value(x)) && x@ == v && final(self)@ == (StoreV { cells: c, ..old(self)@ }),
                Err(e) => r matches Err(f) && array_error_of(old(self)@.cells, receiver@, values_view(args@), e, f)
                    && final(self)@ == old(self)@,
            },
            !(key@ == "Integer>>asString"@ || key@ == "String>>concatenate:"@ || key@ == "String>>primSubstringFrom:to:"@
                || key@ == "Array>>at:put:"@ || key@ == "Array class>>new:"@) ==> (r matches Err(EvalError::Unavailable(t))
                && t@ == key@ && final(self)@ == old(self)@),
    {
        proof {
            reveal_strlit("Integer>>asString");
            reveal_strlit("String>>concatenate:");
            reveal_strlit("String>>primSubstringFrom:to:");
            reveal_strlit("Array>>at:put:");
            reveal_strlit("Array class>>new:");
            assert("String>>concatenate:"@[0] != "Integer>>asString"@[0]);
            assert("String>>concatenate:"@[8] != "String>>primSubstringFrom:to:"@[8]);
            assert("Array>>at:put:"@[5] != "Array class>>new:"@[5]);
            assert("Array>>at:put:"@[0] != "Integer>>asString"@[0]);
            assert("Array>>at:put:"@[0] != "String>>concatenate:"@[0]);
        }
        let k = key;
        let ghost s0 = self@;
        assert(self@.cells == self.heap@);
        let r = if *k == String::from_str("Integer>>asString") {
            Ok(crate::numbers::int_as_string(&mut self.heap, receiver))
        } else if *k == String::from_str("String>>concatenate:") {
            Ok(crate::collections::str_concat(&mut self.heap, receiver, args))
        } else if *k == String::from_str("String>>primSubstringFrom:to:") {
            Ok(crate::collections::str_substring(&mut self.heap, receiver, args))
        } else if *k == String::from_str("Array>>at:put:") {
            crate::collections::arr_at_put(&mut self.heap, receiver, args)
        } else if *k == String::from_str("Array class>>new:") {
            crate::collections::arr_new(&mut self.heap, args)
        } else {
            return Err(EvalError::Unavailable(key.clone()));
        };
        proof {
            lemma_cells_keep_wf(s0, self@.cells);
            assert(self@ =~= StoreV { cells: self@.cells, ..s0 });
        }
        match r {
            Ok(v) => Ok(Outcome::Value(v)),
            Err(e) => Err(self.array_error(receiver, args, e)),
        }
    }

    /// The error that a primitive on arrays ends with, as `array_error_of`
    /// says.
    fn array_error(&self, receiver: &Value, args: &Vec<Value>, e: PrimitiveError) -> (r: EvalError)
        ensures
            array_error_of(self@.cells, receiver@, values_view(args@), e, r),
    {
        match e {
            PrimitiveError::NegativeSize => EvalError::NegativeSize,
            PrimitiveError::SizeTooLarge => EvalError::SizeTooLarge,
            PrimitiveError::IndexOutOfBounds => {
                let index = if args.len() > 0 {
                    assert(values_view(args@)[0] == args@[0]@);
                    match &args[0] {
                        Value::Integer(t) => t.clone(),
                        _ => String::new(),
                    }
                } else {
                    String::new()
                };
                let size: usize = match receiver {
                    Value::Array(c) => {
                        if *c < self.heap.cells.len() {
                            assert(self@.cells[*c as int] == self.heap.cells@[*c as int]@);
                            match &self.heap.cells[*c] {
                                HeapCell::Array(v) => v.len(),
                                _ => 0,
                            }
                        } else {
                            0
                        }
                    },
                    _ => 0,
                };
                EvalError::IndexOutOfBounds(index, size)
            },
        }
    }

    /// The primitives that run code: conditionals, blocks and loops, and
    /// `perform:`.
    fn control_primitive(&mut self, key: &String, receiver: Value, args: Vec<Value>, depth: usize) -> (r: Result<
        Outcome,
        EvalError,
    >)
        requires
            old(self)@.wf(),
            depth <= MAX_DEPTH,
        ensures
            follows(old(self)@, final(self)@),
            fits(final(self)@, r),
            key@ == "Block>>restart"@ ==> (r matches Ok(Outcome::Restart) && final(self)@ == old(self)@),
            chosen_block(key@, receiver@, values_view(args@)) == Some(None::<usize>) ==> (r == Ok::<Outcome, EvalError>(
                Outcome::Value(Value::Nil),
            ) && final(self)@ == old(self)@),
            chosen_block(key@, receiver@, values_view(args@)) matches Some(Some(b)) && b >= old(self)@.blocks.len() ==> (r
                matches Err(EvalError::BadReference) && final(self)@ == old(self)@),
            !control_key(key@) ==> (r matches Err(EvalError::Unavailable(t)) && t@ == key@ && final(self)@ == old(self)@),
            control_outcome(old(self)@, key@, receiver@, values_view(args@), depth as int, r, final(self)@),
        decreases MAX_DEPTH + 1 - depth, 4int,
    {
        proof {
            reveal_strlit("Block>>restart");
            reveal_strlit("True>>ifTrue:");
            reveal_strlit("False>>ifTrue:");
            reveal_strlit("True>>ifFalse:");
            reveal_strlit("False>>ifFalse:");
            reveal_strlit("Boolean>>ifTrue:ifFalse:");
            reveal_strlit("Block>>value");
            reveal_strlit("Block>>value:");
            reveal_strlit("Block>>value:with:");
            assert("Block>>restart"@[0] != "False>>ifTrue:"@[0]);
            assert("Block>>restart"@[0] != "True>>ifFalse:"@[0]);
            assert("Block>>restart"@[1] != "Boolean>>ifTrue:ifFalse:"@[1]);
            assert("Block>>restart"@[7] != "Block>>value"@[7]);
            assert("Block>>restart"@[7] != "Block>>value:"@[7]);
            assert("Block>>restart"@[7] != "Block>>value:with:"@[7]);
            reveal_strlit("Object>>perform:withArguments:inSuperclass:");
            reveal_strlit("Method>>invokeOn:with:");
            reveal_strlit("Primitive>>invokeOn:with:");
            assert("Object>>perform:withArguments:inSuperclass:"@[0] != "Block>>restart"@[0]);
            assert("Object>>perform:withArguments:inSuperclass:"@[0] != "True>>ifTrue:"@[0]);
            assert("Object>>perform:withArguments:inSuperclass:"@[0] != "False>>ifTrue:"@[0]);
            assert("Object>>perform:withArguments:inSuperclass:"@[0] != "True>>ifFalse:"@[0]);
            assert("Object>>perform:withArguments:inSuperclass:"@[0] != "False>>ifFalse:"@[0]);
            assert("Object>>perform:withArguments:inSuperclass:"@[0] != "Boolean>>ifTrue:ifFalse:"@[0]);
            assert("Object>>perform:withArguments:inSuperclass:"@[0] != "Block>>value"@[0]);
            assert("Object>>perform:withArguments:inSuperclass:"@[0] != "Block>>value:"@[0]);
            assert("Object>>perform:withArguments:inSuperclass:"@[0] != "Block>>value:with:"@[0]);
            assert("Method>>invokeOn:with:"@[0] != "Block>>restart"@[0]);
            assert("Method>>invokeOn:with:"@[0] != "True>>ifTrue:"@[0]);
            assert("Method>>invokeOn:with:"@[0] != "False>>ifTrue:"@[0]);
            assert("Method>>invokeOn:with:"@[0] != "True>>ifFalse:"@[0]);
            assert("Method>>invokeOn:with:"@[0] != "False>>ifFalse:"@[0]);
            assert("Method>>invokeOn:with:"@[0] != "Boolean>>ifTrue:ifFalse:"@[0]);
            assert("Method>>invokeOn:with:"@[0] != "Block>>value"@[0]);
            assert("Method>>invokeOn:with:"@[0] != "Block>>value:"@[0]);
            assert("Method>>invokeOn:with:"@[0] != "Block>>value:with:"@[0]);
            assert("Primitive>>invokeOn:with:"@[0] != "Block>>restart"@[0]);
            assert("Primitive>>invokeOn:with:"@[0] != "True>>ifTrue:"@[0]);
            assert("Primitive>>invokeOn:with:"@[0] != "False>>ifTrue:"@[0]);
            assert("Primitive>>invokeOn:with:"@[0] != "True>>ifFalse:"@[0]);
            assert("Primitive>>invokeOn:with:"@[0] != "False>>ifFalse:"@[0]);
            assert("Primitive>>invokeOn:with:"@[0] != "Boolean>>ifTrue:ifFalse:"@[0]);
            assert("Primitive>>invokeOn:with:"@[0] != "Block>>value"@[0]);
            assert("Primitive>>invokeOn:with:"@[0] != "Block>>value:"@[0]);
            assert("Primitive>>invokeOn:with:"@[0] != "Block>>value:with:"@[0]);
            assert("Object>>perform:withArguments:inSuperclass:"@[0] != "Method>>invokeOn:with:"@[0]);
            assert("Object>>perform:withArguments:inSuperclass:"@[0] != "Primitive>>invokeOn:with:"@[0]);
            assert("True>>ifTrue:"@[0] != "Block>>value"@[0]);
            assert("True>>ifTrue:"@[0] != "Block>>value:"@[0]);
            assert("True>>ifTrue:"@[0] != "Block>>value:with:"@[0]);
            assert("False>>ifTrue:"@[0] != "Block>>value"@[0]);
            assert("False>>ifTrue:"@[0] != "Block>>value:"@[0]);
            assert("False>>ifTrue:"@[0] != "Block>>value:with:"@[0]);
            assert("True>>ifFalse:"@[0] != "Block>>value"@[0]);
            assert("True>>ifFalse:"@[0] != "Block>>value:"@[0]);
            assert("True>>ifFalse:"@[0] != "Block>>value:with:"@[0]);
            assert("False>>ifFalse:"@[0] != "Block>>value"@[0]);
            assert("False>>ifFalse:"@[0] != "Block>>value:"@[0]);
            assert("False>>ifFalse:"@[0] != "Block>>value:with:"@[0]);
            assert("Boolean>>ifTrue:ifFalse:"@[1] != "Block>>value"@[1]);
            assert("Boolean>>ifTrue:ifFalse:"@[1] != "Block>>value:"@[1]);
            assert("Boolean>>ifTrue:ifFalse:"@[1] != "Block>>value:with:"@[1]);
            reveal_strlit("Integer>>to:do:");
            reveal_strlit("Integer>>downTo:do:");
            assert("Integer>>to:do:"@[9] != "Integer>>downTo:do:"@[9]);
            reveal_strlit("Block>>restart");
            assert("Integer>>to:do:"@[0] != "Block>>restart"@[0]);
            assert("Integer>>downTo:do:"@[0] != "Block>>restart"@[0]);
            reveal_strlit("Block>>value");
            assert("Integer>>to:do:"@[0] != "Block>>value"@[0]);
            assert("Integer>>downTo:do:"@[0] != "Block>>value"@[0]);
            reveal_strlit("Block>>value:");
            assert("Integer>>to:do:"@[0] != "Block>>value:"@[0]);
            assert("Integer>>downTo:do:"@[0] != "Block>>value:"@[0]);
            reveal_strlit("Block>>value:with:");
            assert("Integer>>to:do:"@[0] != "Block>>value:with:"@[0]);
            assert("Integer>>downTo:do:"@[0] != "Block>>value:with:"@[0]);
            reveal_strlit("Block>>whileFalse:");
            assert("Integer>>to:do:"@[0] != "Block>>whileFalse:"@[0]);
            assert("Integer>>downTo:do:"@[0] != "Block>>whileFalse:"@[0]);
            reveal_strlit("Block>>whileTrue:");
            assert("Integer>>to:do:"@[0] != "Block>>whileTrue:"@[0]);
            assert("Integer>>downTo:do:"@[0] != "Block>>whileTrue:"@[0]);
            reveal_strlit("Boolean>>ifTrue:ifFalse:");
            assert("Integer>>to:do:"@[0] != "Boolean>>ifTrue:ifFalse:"@[0]);
            assert("Integer>>downTo:do:"@[0] != "Boolean>>ifTrue:ifFalse:"@[0]);
            reveal_strlit("False>>ifFalse:");
            assert("Integer>>to:do:"@[0] != "False>>ifFalse:"@[0]);
            assert("Integer>>downTo:do:"@[0] != "False>>ifFalse:"@[0]);
            reveal_strlit("False>>ifTrue:");
            assert("Integer>>to:do:"@[0] != "False>>ifTrue:"@[0]);
            assert("Integer>>downTo:do:"@[0] != "False>>ifTrue:"@[0]);
            reveal_strlit("Method>>invokeOn:with:");
            assert("Integer>>to:do:"@[0] != "Method>>invokeOn:with:"@[0]);
            assert("Integer>>downTo:do:"@[0] != "Method>>invokeOn:with:"@[0]);
            reveal_strlit("Object>>perform:");
            assert("Integer>>to:do:"@[0] != "Object>>perform:"@[0]);
            assert("Integer>>downTo:do:"@[0] != "Object>>perform:"@[0]);
            reveal_strlit("Object>>perform:inSuperclass:");
            assert("Integer>>to:do:"@[0] != "Object>>perform:inSuperclass:"@[0]);
            assert("Integer>>downTo:do:"@[0] != "Object>>perform:inSuperclass:"@[0]);
            reveal_strlit("Object>>perform:withArguments:");
            assert("Integer>>to:do:"@[0] != "Object>>perform:withArguments:"@[0]);
            assert("Integer>>downTo:do:"@[0] != "Object>>perform:withArguments:"@[0]);
            reveal_strlit("Object>>perform:withArguments:inSuperclass:");
            assert("Integer>>to:do:"@[0] != "Object>>perform:withArguments:inSuperclass:"@[0]);
            assert("Integer>>downTo:do:"@[0] != "Object>>perform:withArguments:inSuperclass:"@[0]);
            reveal_strlit("Primitive>>invokeOn:with:");
            assert("Integer>>to:do:"@[0] != "Primitive>>invokeOn:with:"@[0]);
            assert("Integer>>downTo:do:"@[0] != "Primitive>>invokeOn:with:"@[0]);
            reveal_strlit("True>>ifFalse:");
            assert("Integer>>to:do:"@[0] != "True>>ifFalse:"@[0]);
            assert("Integer>>downTo:do:"@[0] != "True>>ifFalse:"@[0]);
            reveal_strlit("True>>ifTrue:");
            assert("Integer>>to:do:"@[0] != "True>>ifTrue:"@[0]);
            assert("Integer>>downTo:do:"@[0] != "True>>ifTrue:"@[0]);
        }
        if *key == String::from_str("Object>>perform:withArguments:inSuperclass:") {
            return self.perform_in_class(receiver, args, depth);
        }
        if *key == String::from_str("Method>>invokeOn:with:") || *key == String::from_str("Primitive>>invokeOn:with:") {
            return self.invoke_on_with(receiver, args, depth);
        }
        if *key == String::from_str("Block>>restart") {
            return Ok(crate::reflect::block_restart());
        }
        if *key == String::from_str("True>>ifTrue:") || *key == String::from_str("False>>ifTrue:") {
            return match crate::reflect::bool_if_true(&receiver, &args) {
                Some(b) => {
                    let none: Vec<Value> = Vec::new();
                    assert(values_view(none@) =~= Seq::<ValueV>::empty());
                    self.run_block_checked(b, none, depth)
                },
                None => Ok(Outcome::Value(Value::Nil)),
            };
        }
        if *key == String::from_str("True>>ifFalse:") || *key == String::from_str("False>>ifFalse:") {
            return match crate::reflect::bool_if_false(&receiver, &args) {
                Some(b) => {
                    let none: Vec<Value> = Vec::new();
                    assert(values_view(none@) =~= Seq::<ValueV>::empty());
                    self.run_block_checked(b, none, depth)
                },
                None => Ok(Outcome::Value(Value::Nil)),
            };
        }
        if *key == String::from_str("Boolean>>ifTrue:ifFalse:") {
            return match crate::reflect::bool_if_true_if_false(&receiver, &args) {
                Some(b) => {
                    let none: Vec<Value> = Vec::new();
                    assert(values_view(none@) =~= Seq::<ValueV>::empty());
                    self.run_block_checked(b, none, depth)
                },
                None => Ok(Outcome::Value(Value::Nil)),
            };
        }
        if *key == String::from_str("Block>>value") || *key == String::from_str("Block>>value:")
            || *key == String::from_str("Block>>value:with:") {
            return match crate::reflect::block_value(&receiver) {
                Some(b) => self.run_block_checked(b, args, depth),
                None => Ok(Outcome::Value(Value::Nil)),
            };
        }
        if *key == String::from_str("Block>>whileTrue:") {
            return self.while_loop(receiver, args, true, depth);
        }
        if *key == String::from_str("Block>>whileFalse:") {
            return self.while_loop(receiver, args, false, depth);
        }
        if *key == String::from_str("Integer>>to:do:") {
            let ghost s0 = self@;
            let ghost rv = receiver@;
            let ghost av = values_view(args@);
            proof {
                if args@.len() >= 2 {
                    assert(av[0] == args@[0]@);
                    assert(av[1] == args@[1]@);
                }
            }
            let r = self.counting_loop(receiver, args, true, depth);
            proof {
                if counting_args(rv, av) {
                    let runs = choose|runs: Seq<int>|
                        #[trigger] counted(s0, av[1]->Block_0 as int, rv, rv->Integer_0, crate::collections::integer_value(av[0]->Integer_0), true, depth as int, u64::MAX as nat, runs, r, self@);
                    assert(counted(s0, av[1]->Block_0 as int, rv, rv->Integer_0, crate::collections::integer_value(av[0]->Integer_0), true, depth as int, u64::MAX as nat, runs, r, self@));
                }
            }
            return r;
        }
        if *key == String::from_str("Integer>>downTo:do:") {
            let ghost s0 = self@;
            let ghost rv = receiver@;
            let ghost av = values_view(args@);
            proof {
                if args@.len() >= 2 {
                    assert(av[0] == args@[0]@);
                    assert(av[1] == args@[1]@);
                }
            }
            let r = self.counting_loop(receiver, args, false, depth);
            proof {
                if counting_args(rv, av) {
                    let runs = choose|runs: Seq<int>|
                        #[trigger] counted(s0, av[1]->Block_0 as int, rv, rv->Integer_0, crate::collections::integer_value(av[0]->Integer_0), false, depth as int, u64::MAX as nat, runs, r, self@);
                    assert(counted(s0, av[1]->Block_0 as int, rv, rv->Integer_0, crate::collections::integer_value(av[0]->Integer_0), false, depth as int, u64::MAX as nat, runs, r, self@));
                }
            }
            return r;
        }
        if *key == String::from_str("Object>>perform:") || *key == String::from_str("Object>>perform:withArguments:") {
            if !self.values_valid(&args) {
                return Err(EvalError::BadReference);
            }
            return match crate::reflect::obj_perform(&self.heap, &args) {
                Some((sel, send)) => self.dispatch_internal(receiver, &sel, send, depth),
                None => Ok(Outcome::Value(Value::Nil)),
            };
        }
        if *key == String::from_str("Object>>perform:inSuperclass:") {
            if !self.values_valid(&args) || !self.all_refer_ok(&args) {
                return Err(EvalError::BadReference);
            }
            return match self.obj_perform_in_superclass(&args) {
                Ok(Some(m)) => {
                    if depth + 1 > MAX_DEPTH {
                        return Err(EvalError::RecursionLimit);
                    }
                    self.run_method(m, receiver, Vec::new(), depth + 1)
                },
                Ok(None) => Ok(Outcome::Value(Value::Nil)),
                Err(_) => {
                    assert(crate::collections::valid_value(self@.cells, args@[0]@));
                    match crate::collections::text_of_value(&self.heap, &args[0]) {
                        Some(sel) => Err(EvalError::NotFound(sel)),
                        None => Err(EvalError::NotFound(String::new())),
                    }
                },
            };
        }
        Err(EvalError::Unavailable(key.clone()))
    }

    /// `Object>>perform:withArguments:inSuperclass:`: runs on the receiver
    /// the method that the class given as third argument answers the
    /// selector named by the first with, with the elements of the second
    /// (an array) as arguments; nil unless the arguments name a selector
    /// and a class.
    fn perform_in_class(&mut self, receiver: Value, args: Vec<Value>, depth: usize) -> (r: Result<Outcome, EvalError>)
        requires
            old(self)@.wf(),
            depth <= MAX_DEPTH,
        ensures
            follows(old(self)@, final(self)@),
            fits(final(self)@, r),
            perform_outcome(old(self)@, receiver@, values_view(args@), depth as int, r, final(self)@),
        decreases MAX_DEPTH + 1 - depth, 3int,
    {
        proof {
            lemma_args_valid_views(self@.cells, args@);
            lemma_refs_views(self@, args@);
        }
        if !self.values_valid(&args) || !self.all_refer_ok(&args) {
            return Err(EvalError::BadReference);
        }
        if args.len() < 3 {
            return Ok(Outcome::Value(Value::Nil));
        }
        assert(values_view(args@)[0] == args@[0]@);
        assert(values_view(args@)[2] == args@[2]@);
        assert(ref_ok(self@, args@[2]@));
        assert(crate::collections::valid_value(self@.cells, args@[0]@));
        let k = match &args[2] {
            Value::Class(k) => *k,
            _ => {
                return Ok(Outcome::Value(Value::Nil));
            },
        };
        assert(self@.cells == self.heap@);
        let sel = match crate::collections::text_of_value(&self.heap, &args[0]) {
            Some(t) => t,
            None => {
                return Ok(Outcome::Value(Value::Nil));
            },
        };
        match self.lookup_method(k, &sel) {
            None => Err(EvalError::NotFound(sel)),
            Some(m) => {
                if depth + 1 > MAX_DEPTH {
                    return Err(EvalError::RecursionLimit);
                }
                let send = crate::reflect::passed_args(&self.heap, &args);
                self.run_method(m, receiver, send, depth + 1)
            },
        }
    }

    /// `Method>>invokeOn:with:` and `Primitive>>invokeOn:with:`: runs the
    /// receiving method on the first argument, with the elements of the
    /// second (an array) as its arguments; nil for a receiver that is no
    /// method, or with no argument to run it on.
    fn invoke_on_with(&mut self, receiver: Value, args: Vec<Value>, depth: usize) -> (r: Result<Outcome, EvalError>)
        requires
            old(self)@.wf(),
            depth <= MAX_DEPTH,
        ensures
            follows(old(self)@, final(self)@),
            fits(final(self)@, r),
            invoke_outcome(old(self)@, receiver@, values_view(args@), depth as int, r, final(self)@),
        decreases MAX_DEPTH + 1 - depth, 3int,
    {
        proof {
            lemma_args_valid_views(self@.cells, args@);
        }
        if !self.values_valid(&args) || !self.refers_to_held(&receiver) {
            return Err(EvalError::BadReference);
        }
        let m = match &receiver {
            Value::Method(m) => *m,
            _ => {
                return Ok(Outcome::Value(Value::Nil));
            },
        };
        if args.len() < 1 {
            return Ok(Outcome::Value(Value::Nil));
        }
        if depth + 1 > MAX_DEPTH {
            return Err(EvalError::RecursionLimit);
        }
        assert(values_view(args@)[0] == args@[0]@);
        assert(self@.cells == self.heap@);
        let send = crate::reflect::passed_args(&self.heap, &args);
        let on = args[0].copy();
        self.run_method(m, on, send, depth + 1)
    }

    /// Runs block closure `b`, when the state holds one.
    fn run_block_checked(&mut self, b: usize, args: Vec<Value>, depth: usize) -> (r: Result<Outcome, EvalError>)
        requires
            old(self)@.wf(),
            depth <= MAX_DEPTH,
        ensures
            follows(old(self)@, final(self)@),
            fits(final(self)@, r),
            b >= old(self)@.blocks.len() ==> (r matches Err(EvalError::BadReference) && final(self)@ == old(self)@),
            b < old(self)@.blocks.len() ==> runs_block(old(self)@, b as int, values_view(args@), depth as int, r, final(self)@),
        decreases MAX_DEPTH + 1 - depth, 3int,
    {
        if b >= self.blocks.len() {
            return Err(EvalError::BadReference);
        }
        self.run_block(b, args, depth)
    }

    /// `Block>>whileTrue:` (`while_true`) and `Block>>whileFalse:`: runs the
    /// argument block for as long as the receiver block answers `while_true`;
    /// nil.
    fn while_loop(&mut self, receiver: Value, args: Vec<Value>, while_true: bool, depth: usize) -> (r: Result<
        Outcome,
        EvalError,
    >)
        requires
            old(self)@.wf(),
            depth <= MAX_DEPTH,
        ensures
            follows(old(self)@, final(self)@),
            fits(final(self)@, r),
            r matches Ok(o) ==> (o is NonLocalReturn || o == Outcome::Value(Value::Nil)),
            !(receiver is Block && args@.len() >= 1 && args@[0] is Block) ==> (r == Ok::<Outcome, EvalError>(
                Outcome::Value(Value::Nil),
            ) && final(self)@ == old(self)@),
            receiver is Block && args@.len() >= 1 && args@[0] is Block && (receiver->Block_0 >= old(self)@.blocks.len()
                || args@[0]->Block_0 >= old(self)@.blocks.len()) ==> (r matches Err(EvalError::BadReference)
                && final(self)@ == old(self)@),
        decreases MAX_DEPTH + 1 - depth, 3int,
    {
        let ghost s0 = self@;
        let (cond, body) = match (&receiver, args.len() >= 1) {
            (Value::Block(c), true) => match &args[0] {
                Value::Block(b) => (*c, *b),
                _ => {
                    return Ok(Outcome::Value(Value::Nil));
                },
            },
            _ => {
                return Ok(Outcome::Value(Value::Nil));
            },
        };
        let mut rounds: u64 = 0;
        loop
            invariant
                follows(old(self)@, self@),
                depth <= MAX_DEPTH,
                rounds == 0 ==> self@ == s0,
                s0 == old(self)@,
                args@.len() >= 1,
                receiver == Value::Block(cond) && args@[0] == Value::Block(body),
                rounds > 0 ==> cond < s0.blocks.len() && body < s0.blocks.len(),
            ensures
                cond < s0.blocks.len() && body < s0.blocks.len(),
            decreases u64::MAX - rounds,
        {
            if rounds == u64::MAX {
                return Err(EvalError::LoopLimit);
            }
            rounds = rounds + 1;
            if cond >= self.blocks.len() || body >= self.blocks.len() {
                return Err(EvalError::BadReference);
            }
            match self.run_block(cond, Vec::new(), depth)? {
                Outcome::Value(Value::Boolean(b)) => {
                    if b != while_true {
                        break;
                    }
                },
                _ => {
                    break;
                },
            }
            if body >= self.blocks.len() {
                return Err(EvalError::BadReference);
            }
            match self.run_block(body, Vec::new(), depth)? {
                Outcome::NonLocalReturn(v, t) => {
                    return Ok(Outcome::NonLocalReturn(v, t));
                },
                _ => {},
            }
        }
        Ok(Outcome::Value(Value::Nil))
    }

    /// `Integer>>to:do:` (`up`) and `Integer>>downTo:do:`: runs the block
    /// with each integer from the receiver to the limit, counting up or
    /// down; answers the receiver.
    fn counting_loop(&mut self, receiver: Value, args: Vec<Value>, up: bool, depth: usize) -> (r: Result<
        Outcome,
        EvalError,
    >)
        requires
            old(self)@.wf(),
            depth <= MAX_DEPTH,
        ensures
            follows(old(self)@, final(self)@),
            fits(final(self)@, r),
            !(args@.len() >= 2 && receiver is Integer && args@[1] is Block) ==> (r == Ok::<Outcome, EvalError>(
                Outcome::Value(Value::Nil),
            ) && final(self)@ == old(self)@),
            args@.len() >= 2 && receiver is Integer && args@[1] is Block ==> {
                &&& args@[0] is Double ==> (r matches Err(EvalError::Unavailable(t)) && t@ == "Double"@ && final(self)@
                    == old(self)@)
                &&& !(args@[0] is Double || args@[0] is Integer) ==> (r == Ok::<Outcome, EvalError>(
                    Outcome::Value(Value::Nil),
                ) && final(self)@ == old(self)@)
                &&& args@[0] is Integer && !crate::serialize::integer_text_ok(args@[0]->Integer_0@) ==> (r matches Err(
                    EvalError::BadReference,
                ) && final(self)@ == old(self)@)
                &&& args@[0] is Integer ==> (r matches Ok(o) ==> (o is NonLocalReturn || o == Outcome::Value(
                    receiver,
                )))
                &&& args@[0] is Integer && crate::serialize::integer_text_ok(args@[0]->Integer_0@) ==> exists|runs: Seq<int>|
                    #[trigger] counted(
                        old(self)@,
                        args@[1]->Block_0 as int,
                        receiver@,
                        receiver->Integer_0@,
                        crate::collections::integer_value(args@[0]->Integer_0@),
                        up,
                        depth as int,
                        u64::MAX as nat,
                        runs,
                        r,
                        final(self)@,
                    )
            },
        decreases MAX_DEPTH + 1 - depth, 3int,
    {
        proof {
            reveal_strlit("Double");
        }
        if args.len() < 2 {
            return Ok(Outcome::Value(Value::Nil));
        }
        let start = match &receiver {
            Value::Integer(t) => t.clone(),
            _ => {
                return Ok(Outcome::Value(Value::Nil));
            },
        };
        let block = match &args[1] {
            Value::Block(b) => *b,
            _ => {
                return Ok(Outcome::Value(Value::Nil));
            },
        };
        let limit = match &args[0] {
            Value::Integer(t) => t.clone(),
            Value::Double(_) => {
                return Err(EvalError::Unavailable(String::from_str("Double")));
            },
            _ => {
                return Ok(Outcome::Value(Value::Nil));
            },
        };
        if !crate::serialize::integer_text_valid(&limit) {
            return Err(EvalError::BadReference);
        }
        let ghost s0 = self@;
        let ghost lim = crate::collections::integer_value(limit@);
        let ghost start_text = start@;
        let ghost mut prefix: Seq<int> = Seq::empty();
        let mut i = start;
        let mut rounds: u64 = 0;
        assert forall|runs: Seq<int>, rr: Result<Outcome, EvalError>, tt: StoreV|
            #[trigger] counted(self@, block as int, receiver@, i@, lim, up, depth as int, (u64::MAX - rounds) as nat, runs, rr, tt)
            implies counted(s0, block as int, receiver@, start_text, lim, up, depth as int, u64::MAX as nat, prefix + runs, rr, tt) by {
            assert(prefix + runs =~= runs);
        }
        loop
            invariant
                follows(old(self)@, self@),
                depth <= MAX_DEPTH,
                crate::serialize::integer_text_ok(limit@),
                args@.len() >= 2 && receiver is Integer && args@[1] is Block && args@[0] is Integer,
                limit@ == args@[0]->Integer_0@,
                lim == crate::collections::integer_value(limit@),
                block == args@[1]->Block_0,
                start_text == receiver->Integer_0@,
                s0 == old(self)@,
                forall|runs: Seq<int>, rr: Result<Outcome, EvalError>, tt: StoreV|
                    #[trigger] counted(self@, block as int, receiver@, i@, lim, up, depth as int, (u64::MAX - rounds) as nat, runs, rr, tt)
                    ==> counted(s0, block as int, receiver@, start_text, lim, up, depth as int, u64::MAX as nat, prefix + runs, rr, tt),
            decreases u64::MAX - rounds,
        {
            let ghost sr = self@;
            let ghost ci = i@;
            let ghost fuel = (u64::MAX - rounds) as nat;
            if rounds == u64::MAX {
                assert(counted(sr, block as int, receiver@, i@, lim, up, depth as int, fuel, Seq::empty(), Err(EvalError::LoopLimit), sr));
                return Err(EvalError::LoopLimit);
            }
            rounds = rounds + 1;
            if !crate::serialize::integer_text_valid(&i) {
                assert(counted(sr, block as int, receiver@, i@, lim, up, depth as int, fuel, Seq::empty(), Err(EvalError::BadReference), sr));
                return Err(EvalError::BadReference);
            }
            let ghost a = crate::collections::integer_value(i@);
            let current = Value::Integer(i.clone());
            let mut bound: Vec<Value> = Vec::new();
            bound.push(Value::Integer(limit.clone()));
            assert(values_view(bound@) =~= seq![ValueV::Integer(limit@)]);
            let go_on = if up {
                crate::numbers::int_le(&current, &bound)
            } else {
                let mut mine: Vec<Value> = Vec::new();
                mine.push(current.copy());
                crate::numbers::int_le(&Value::Integer(limit.clone()), &mine)
            };
            match go_on {
                Ok(Value::Boolean(true)) => {},
                _ => {
                    assert(counted(sr, block as int, receiver@, i@, lim, up, depth as int, fuel, Seq::empty(), Ok(Outcome::Value(receiver)), sr));
                    return Ok(Outcome::Value(receiver));
                },
            }
            if block >= self.blocks.len() {
                assert(counted(sr, block as int, receiver@, i@, lim, up, depth as int, fuel, Seq::empty(), Err(EvalError::BadReference), sr));
                return Err(EvalError::BadReference);
            }
            let mut bargs: Vec<Value> = Vec::new();
            bargs.push(current.copy());
            assert(values_view(bargs@) =~= seq![ValueV::Integer(i@)]);
            let res = self.run_block(block, bargs, depth);
            let ghost g = res;
            let ghost s1 = self@;
            assert(stage(g, s1));
            match res {
                Ok(Outcome::Value(_)) => {
                    let mut one: Vec<Value> = Vec::new();
                    one.push(Value::Integer(String::from_str("1")));
                    proof {
                        reveal_strlit("1");
                        assert(crate::serialize::integer_digits("1"@) =~= "1"@);
                        assert("1"@.drop_last() =~= Seq::<char>::empty());
                        assert(crate::collections::digits_value("1"@.drop_last()) == 0);
                        assert(crate::collections::integer_value("1"@) == 1);
                    }
                    assert(values_view(one@) =~= seq![ValueV::Integer("1"@)]);
                    if !numbers_hold(&current, &one) {
                        return Err(EvalError::BadReference);
                    }
                    let next = if up {
                        crate::numbers::int_plus(&current, &one)
                    } else {
                        crate::numbers::int_minus(&current, &one)
                    };
                    match next {
                        Ok(Value::Integer(t)) => {
                            let ghost old_prefix = prefix;
                            proof {
                                prefix = prefix.push(a);
                            }
                            assert(t@ == int_text(if up { a + 1 } else { a - 1 }));
                            i = t;
                            assert forall|runs: Seq<int>, rr: Result<Outcome, EvalError>, tt: StoreV|
                                #[trigger] counted(self@, block as int, receiver@, i@, lim, up, depth as int, (u64::MAX - rounds) as nat, runs, rr, tt)
                                implies counted(s0, block as int, receiver@, start_text, lim, up, depth as int, u64::MAX as nat, prefix + runs, rr, tt) by {
                                let whole = seq![a] + runs;
                                assert(whole.drop_first() =~= runs);
                                assert(counted(sr, block as int, receiver@, ci, lim, up, depth as int, fuel, whole, rr, tt));
                                assert(old_prefix + whole =~= prefix + runs);
                            }
                        },
                        _ => {
                            return Err(EvalError::BadReference);
                        },
                    }
                },
                other => {
                    assert(counted(sr, block as int, receiver@, i@, lim, up, depth as int, fuel, seq![a], g, s1));
                    return other;
                },
            }
        }
    }

    /// What `System>>printStackTrace` prints, as `stack_lines` says.
    fn stack_text(&self) -> (r: String)
        ensures
            r@ == stack_lines(self@, self@.acts.len() as int),
    {
        let mut out = String::new();
        let mut i = self.activations.len();
        assert(self@.acts.len() == self.activations@.len());
        while i > 0
            invariant
                i <= self@.acts.len(),
                self@.acts.len() == self.activations@.len(),
                out@ + stack_lines(self@, i as int) =~= stack_lines(self@, self@.acts.len() as int),
            decreases i,
        {
            let ghost before = out@;
            let ghost rest = stack_lines(self@, i - 1);
            assert(self@.acts[i - 1] == self.activations@[i - 1]@);
            let act = &self.activations[i - 1];
            if act.is_active {
                match act.holder {
                    Some(h) => {
                        if h < self.classes.len() {
                            assert(self@.classes[h as int] == self.classes@[h as int]@);
                            out.append("at ");
                            out.append(self.classes[h].name.as_str());
                            out.append("\n");
                        }
                    },
                    None => {},
                }
            }
            assert(out@ + rest =~= before + stack_lines(self@, i as int));
            i = i - 1;
        }
        out
    }

    /// The text that the first of `args` names, as `named_text` says.
    fn named_text_of(&self, args: &Vec<Value>) -> (r: String)
        requires
            self@.wf(),
            crate::collections::valid_args(self@.cells, args@),
        ensures
            r@ == named_text(self@.cells, values_view(args@)),
    {
        if args.len() == 0 {
            return String::new();
        }
        assert(values_view(args@)[0] == args@[0]@);
        assert(crate::collections::valid_value(self@.cells, args@[0]@));
        assert(self@.cells == self.heap@);
        match crate::collections::text_of_value(&self.heap, &args[0]) {
            Some(t) => t,
            None => String::new(),
        }
    }

    /// Whether each value of `args` refers only to cells of the right kind
    /// and, if an integer, is written as one.
    fn values_valid(&self, args: &Vec<Value>) -> (r: bool)
        ensures
            r == crate::collections::valid_args(self@.cells, args@),
    {
        let mut i: usize = 0;
        while i < args.len()
            invariant
                i <= args.len(),
                forall|j: int| 0 <= j < i ==> crate::collections::valid_value(self@.cells, #[trigger] args@[j]@),
            decreases args.len() - i,
        {
            if !self.value_valid(&args[i]) {
                assert(!crate::collections::valid_value(self@.cells, args@[i as int]@));
                return false;
            }
            i = i + 1;
        }
        true
    }

    /// Whether `v` refers only to a cell of the right kind and, if an
    /// integer, is written as one.
    fn value_valid(&self, v: &Value) -> (r: bool)
        ensures
            r == crate::collections::valid_value(self@.cells, v@),
    {
        match v {
            Value::String(c) => *c < self.heap.cells.len() && {
                assert(self@.cells[*c as int] == self.heap.cells@[*c as int]@);
                match &self.heap.cells[*c] {
                    HeapCell::Str(_) => true,
                    _ => false,
                }
            },
            Value::Array(c) => *c < self.heap.cells.len() && {
                assert(self@.cells[*c as int] == self.heap.cells@[*c as int]@);
                match &self.heap.cells[*c] {
                    HeapCell::Array(_) => true,
                    _ => false,
                }
            },
            Value::Object(c) => *c < self.heap.cells.len() && {
                assert(self@.cells[*c as int] == self.heap.cells@[*c as int]@);
                match &self.heap.cells[*c] {
                    HeapCell::Object { .. } => true,
                    _ => false,
                }
            },
            Value::Integer(t) => crate::serialize::integer_text_valid(t),
            _ => true,
        }
    }

    /// Whether each value of `args` refers only to what the state holds.
    fn all_refer_ok(&self, args: &Vec<Value>) -> (r: bool)
        requires
            self@.wf(),
        ensures
            r == forall|j: int| 0 <= j < args@.len() ==> ref_ok(self@, #[trigger] args@[j]@),
    {
        let mut i: usize = 0;
        while i < args.len()
            invariant
                self@.wf(),
                i <= args.len(),
                forall|j: int| 0 <= j < i ==> ref_ok(self@, #[trigger] args@[j]@),
            decreases args.len() - i,
        {
            if !self.refers_to_held(&args[i]) {
                assert(!ref_ok(self@, args@[i as int]@));
                return false;
            }
            i = i + 1;
        }
        true
    }
}

/// A copy of a list of named values.
fn copy_entries(e: &Vec<(String, Value)>) -> (r: Vec<(String, Value)>)
    ensures
        crate::runtime::entries_view(r@) == crate::runtime::entries_view(e@),
{
    let mut out: Vec<(String, Value)> = Vec::new();
    let mut i: usize = 0;
    while i < e.len()
        invariant
            i <= e.len(),
            out@.len() == i,
            forall|j: int| 0 <= j < i ==> #[trigger] out@[j].0@ == e@[j].0@ && out@[j].1@ == e@[j].1@,
        decreases e.len() - i,
    {
        out.push((e[i].0.clone(), e[i].1.copy()));
        i = i + 1;
    }
    assert(crate::runtime::entries_view(out@) =~= crate::runtime::entries_view(e@));
    out
}

/// Whether `v`, if an integer, is written as one.
fn number_holds(v: &Value) -> (r: bool)
    ensures
        r == number_ok(v@),
{
    match v {
        Value::Integer(t) => crate::serialize::integer_text_valid(t),
        _ => true,
    }
}

/// Whether the receiver and each argument, if integers, are written as ones.
fn numbers_hold(receiver: &Value, args: &Vec<Value>) -> (r: bool)
    ensures
        r == (number_ok(receiver@) && numbers_ok(args@)),
{
    if !number_holds(receiver) {
        return false;
    }
    let mut i: usize = 0;
    while i < args.len()
        invariant
            i <= args.len(),
            forall|j: int| 0 <= j < i ==> number_ok(#[trigger] args@[j]@),
        decreases args.len() - i,
    {
        if !number_holds(&args[i]) {
            assert(!number_ok(args@[i as int]@));
            return false;
        }
        i = i + 1;
    }
    true
}

/// The outcome of an arithmetic primitive.
fn arithmetic(key: &String, r: Result<Value, NumError>) -> (o: Result<Outcome, EvalError>)
    ensures
        answer_fits(key@, crate::numbers::result_view(r), o),
{
    match r {
        Ok(v) => Ok(Outcome::Value(v)),
        Err(NumError::DoubleOperand) => Err(EvalError::Unavailable(key.clone())),
        Err(e) => Err(EvalError::Arithmetic(e)),
    }
}

/// The integer primitives; `None` for any other key.
fn integer_primitive(key: &String, receiver: &Value, args: &Vec<Value>) -> (r: Option<Result<Outcome, EvalError>>)
    ensures
        r is Some == integer_key(key@),
        integer_key(key@) && !(number_ok(receiver@) && numbers_ok(args@)) ==> r matches Some(Err(EvalError::BadReference)),
        integer_key(key@) && number_ok(receiver@) && numbers_ok(args@) ==> (r matches Some(o) && integer_outcome(
            key@,
            receiver@,
            values_view(args@),
            o,
        )),
{
    let k = key;
    let known = *k == String::from_str("Integer>>+") || *k == String::from_str("Integer>>-")
        || *k == String::from_str("Integer>>*") || *k == String::from_str("Integer>>/")
        || *k == String::from_str("Integer>>%") || *k == String::from_str("Integer>>rem:")
        || *k == String::from_str("Integer>>min:") || *k == String::from_str("Integer>>max:")
        || *k == String::from_str("Integer>>=") || *k == String::from_str("Integer>><")
        || *k == String::from_str("Integer>><=") || *k == String::from_str("Integer>>&")
        || *k == String::from_str("Integer>>bitXor:") || *k == String::from_str("Integer>><<")
        || *k == String::from_str("Integer>>abs") || *k == String::from_str("Integer>>round")
        || *k == String::from_str("Integer>>as32BitSignedValue")
        || *k == String::from_str("Integer>>as32BitUnsignedValue") || *k == String::from_str("Integer>>>>")
        || *k == String::from_str("Integer>>atRandom");
    if !known {
        return None;
    }
    if !numbers_hold(receiver, args) {
        return Some(Err(EvalError::BadReference));
    }
    let r = if *k == String::from_str("Integer>>>>") {
        if args.len() > 0 {
            assert(number_ok(args@[0]@));
            assert(values_view(args@)[0] == args@[0]@);
            match (receiver, &args[0]) {
                (Value::Integer(_), Value::Integer(b)) => {
                    if crate::numbers::u32_or_zero_of(b) >= 64 {
                        return Some(Err(EvalError::ShiftOverflow));
                    }
                },
                _ => {},
            }
        }
        Ok(Outcome::Value(crate::numbers::int_shr(receiver, args)))
    } else if *k == String::from_str("Integer>>+") {
        arithmetic(k, crate::numbers::int_plus(receiver, args))
    } else if *k == String::from_str("Integer>>-") {
        arithmetic(k, crate::numbers::int_minus(receiver, args))
    } else if *k == String::from_str("Integer>>*") {
        arithmetic(k, crate::numbers::int_mul(receiver, args))
    } else if *k == String::from_str("Integer>>/") {
        arithmetic(k, crate::numbers::int_div(receiver, args))
    } else if *k == String::from_str("Integer>>%") {
        arithmetic(k, crate::numbers::int_mod(receiver, args))
    } else if *k == String::from_str("Integer>>rem:") {
        arithmetic(k, crate::numbers::int_rem(receiver, args))
    } else if *k == String::from_str("Integer>>min:") {
        arithmetic(k, crate::numbers::int_min(receiver, args))
    } else if *k == String::from_str("Integer>>max:") {
        arithmetic(k, crate::numbers::int_max(receiver, args))
    } else if *k == String::from_str("Integer>>=") {
        arithmetic(k, crate::numbers::int_eq(receiver, args))
    } else if *k == String::from_str("Integer>><") {
        arithmetic(k, crate::numbers::int_lt(receiver, args))
    } else if *k == String::from_str("Integer>><=") {
        arithmetic(k, crate::numbers::int_le(receiver, args))
    } else if *k == String::from_str("Integer>>&") {
        Ok(Outcome::Value(crate::numbers::int_bit_and(receiver, args)))
    } else if *k == String::from_str("Integer>>bitXor:") {
        Ok(Outcome::Value(crate::numbers::int_bit_xor(receiver, args)))
    } else if *k == String::from_str("Integer>><<") {
        Ok(Outcome::Value(crate::numbers::int_shl(receiver, args)))
    } else if *k == String::from_str("Integer>>abs") {
        Ok(Outcome::Value(crate::numbers::int_abs(receiver)))
    } else if *k == String::from_str("Integer>>round") {
        Ok(Outcome::Value(crate::numbers::int_round(receiver)))
    } else if *k == String::from_str("Integer>>atRandom") {
        Ok(Outcome::Value(crate::numbers::int_at_random(receiver)))
    } else if *k == String::from_str("Integer>>as32BitSignedValue") {
        Ok(Outcome::Value(crate::numbers::int_as_32bit_signed(receiver)))
    } else {
        Ok(Outcome::Value(crate::numbers::int_as_32bit_unsigned(receiver)))
    };
    Some(r)
}

} // verus!

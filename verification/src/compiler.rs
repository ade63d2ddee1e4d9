use vstd::prelude::*;
use crate::ast::{Block, ClassDef, Expression, Literal, Message, MethodBody, MethodDef, Signature, join_keywords};
use crate::bytecode::{
    CompiledBlock, CompiledClass, CompiledMethod, Constant, ConstantV, Image, Opcode, const_view, const_views,
    lemma_const_views,
};
use crate::text::{contains_string, copy_strings, index_of, index_of_from, lemma_index_of_from, position_of, spells, strings_view};

verus! {

// ---------------------------------------------------------------------------
// The model of compilation
// ---------------------------------------------------------------------------

/// The names visible in one lexical context: its arguments and its locals.
pub struct CtxV {
    pub args: Seq<Seq<char>>,
    pub locals: Seq<Seq<char>>,
}

/// What the compiler knows while compiling a piece of code: the lexical
/// contexts, outermost first, and the instance fields of the receiver.
pub struct Env {
    pub ctxs: Seq<CtxV>,
    pub fields: Seq<Seq<char>>,
}

/// The output produced so far: constant pool, code, and the source of each
/// nested block in the order the blocks were met.
pub struct CState {
    pub consts: Seq<ConstantV>,
    pub code: Seq<Opcode>,
    pub blocks: Seq<Block>,
}

pub open spec fn word_self() -> Seq<char> {
    seq!['s', 'e', 'l', 'f']
}

pub open spec fn word_super() -> Seq<char> {
    seq!['s', 'u', 'p', 'e', 'r']
}

pub open spec fn word_nil() -> Seq<char> {
    seq!['n', 'i', 'l']
}

pub open spec fn word_true() -> Seq<char> {
    seq!['t', 'r', 'u', 'e']
}

pub open spec fn word_false() -> Seq<char> {
    seq!['f', 'a', 'l', 's', 'e']
}

/// Position of the first constant of the pool equal to `c`, searching from `i`.
pub open spec fn const_index_from(pool: Seq<ConstantV>, c: ConstantV, i: int) -> Option<int>
    decreases pool.len() - i,
{
    if i < 0 || i >= pool.len() {
        None
    } else if pool[i] == c {
        Some(i)
    } else {
        const_index_from(pool, c, i + 1)
    }
}

/// Adding a constant: the index of an equal constant already in the pool,
/// else the constant is appended and its index returned.
pub open spec fn add_const(pool: Seq<ConstantV>, c: ConstantV) -> (Seq<ConstantV>, u16) {
    match const_index_from(pool, c, 0) {
        Some(i) => (pool, i as u16),
        None => (pool.push(c), pool.len() as u16),
    }
}

/// Where a name is bound: `(level, index)`, level 0 being the innermost context.
pub enum Slot {
    Local(int, int),
    Argument(int, int),
}

/// The binding of `name` in the contexts, searching outwards from `level`;
/// within a context, locals are looked at before arguments.
pub open spec fn resolve_from(ctxs: Seq<CtxV>, name: Seq<char>, level: int) -> Option<Slot>
    decreases ctxs.len() - level,
{
    if level < 0 || level >= ctxs.len() {
        None
    } else {
        let ctx = ctxs[ctxs.len() - 1 - level];
        match index_of(ctx.locals, name) {
            Some(i) => Some(Slot::Local(level, i)),
            None => match index_of(ctx.args, name) {
                Some(i) => Some(Slot::Argument(level, i)),
                None => resolve_from(ctxs, name, level + 1),
            },
        }
    }
}

pub open spec fn resolve(ctxs: Seq<CtxV>, name: Seq<char>) -> Option<Slot> {
    resolve_from(ctxs, name, 0)
}

/// The level of the method context seen from the innermost context.
pub open spec fn self_level(env: Env) -> u8 {
    ((env.ctxs.len() as u8) - 1) as u8
}

/// The instruction that reads a variable, and the pool after it.
pub open spec fn read_op(env: Env, pool: Seq<ConstantV>, name: Seq<char>) -> (Seq<ConstantV>, Opcode) {
    if name == word_self() || name == word_super() {
        (pool, Opcode::PushSelf(self_level(env)))
    } else if name == word_nil() {
        (pool, Opcode::PushNil)
    } else if name == word_true() {
        (pool, Opcode::PushTrue)
    } else if name == word_false() {
        (pool, Opcode::PushFalse)
    } else {
        match resolve(env.ctxs, name) {
            Some(Slot::Local(l, i)) => (pool, Opcode::PushLocal(l as u8, i as u8)),
            Some(Slot::Argument(l, i)) => (pool, Opcode::PushArgument(l as u8, i as u8)),
            None => {
                let (p, k) = add_const(pool, ConstantV::Symbol(name));
                if env.fields.contains(name) {
                    (p, Opcode::PushField(k))
                } else {
                    (p, Opcode::PushGlobal(k))
                }
            },
        }
    }
}

/// Whether an assignment to `name` can be compiled: it names a local, an
/// argument or an instance field.
pub open spec fn assignable(env: Env, name: Seq<char>) -> bool {
    resolve(env.ctxs, name) is Some || env.fields.contains(name)
}

/// The instruction that stores into a variable, and the pool after it.
pub open spec fn write_op(env: Env, pool: Seq<ConstantV>, name: Seq<char>) -> (Seq<ConstantV>, Opcode) {
    match resolve(env.ctxs, name) {
        Some(Slot::Local(l, i)) => (pool, Opcode::PopLocal(l as u8, i as u8)),
        Some(Slot::Argument(l, i)) => (pool, Opcode::PopArgument(l as u8, i as u8)),
        None => {
            let (p, k) = add_const(pool, ConstantV::Symbol(name));
            (p, Opcode::PopField(k))
        },
    }
}

/// The decimal text of the integer written as `t` (an optional `-` and
/// digits): leading zeros removed, and no sign on zero.
pub open spec fn canonical_integer(t: Seq<char>) -> Seq<char> {
    let neg = t.len() > 0 && t[0] == '-';
    let digits = if neg { t.drop_first() } else { t };
    let z = leading_zeros(digits, 0);
    if z == digits.len() {
        seq!['0']
    } else if neg {
        seq!['-'] + digits.skip(z as int)
    } else {
        digits.skip(z as int)
    }
}

/// Number of `'0'` characters at the start of `d` from `i` on.
pub open spec fn leading_zeros(d: Seq<char>, i: int) -> nat
    decreases d.len() - i,
{
    if i < 0 || i >= d.len() || d[i] != '0' {
        0
    } else {
        1 + leading_zeros(d, i + 1)
    }
}

/// The constant of a literal that is not an array.
pub open spec fn scalar_const(l: Literal) -> ConstantV {
    match l {
        Literal::Integer(t) => ConstantV::Integer(canonical_integer(t@)),
        Literal::Double(t) => ConstantV::Double(t@),
        Literal::String(s) => ConstantV::String(s@),
        Literal::Symbol(s) => ConstantV::Symbol(s@),
        Literal::Array(_) => ConstantV::Array(Seq::empty()),
    }
}

pub open spec fn literal_const(l: Literal) -> ConstantV {
    match l {
        Literal::Array(items) => ConstantV::Array(items@.map_values(|x: Literal| scalar_const(x))),
        _ => scalar_const(l),
    }
}

/// Array literals nested in array literals cannot be compiled.
pub open spec fn literal_ok(l: Literal) -> bool {
    match l {
        Literal::Array(items) => forall|i: int| 0 <= i < items@.len() ==> !(#[trigger] items@[i] is Array),
        _ => true,
    }
}

pub open spec fn emit(st: CState, op: Opcode) -> CState {
    CState { consts: st.consts, code: st.code.push(op), blocks: st.blocks }
}

pub open spec fn emit_with(st: CState, r: (Seq<ConstantV>, Opcode)) -> CState {
    CState { consts: r.0, code: st.code.push(r.1), blocks: st.blocks }
}

pub open spec fn is_super_var(e: Expression) -> bool {
    e matches Expression::Variable(n) && n@ == word_super()
}

/// The context of a block nested in `env`.
pub open spec fn block_env(env: Env, b: Block) -> Env {
    Env {
        ctxs: env.ctxs.push(CtxV { args: strings_view(b.parameters@), locals: strings_view(b.locals@) }),
        fields: env.fields,
    }
}

/// The output after compiling expression `e` onto `st`.
pub open spec fn compile_expr(env: Env, st: CState, e: Expression) -> CState
    decreases e, 1nat,
{
    match e {
        Expression::Literal(l) => {
            let (p, k) = add_const(st.consts, literal_const(l));
            CState { consts: p, code: st.code.push(Opcode::PushConstant(k)), blocks: st.blocks }
        },
        Expression::Variable(n) => emit_with(st, read_op(env, st.consts, n@)),
        Expression::Assignment(n, v) => {
            let s1 = emit(compile_expr(env, st, *v), Opcode::Dup);
            emit_with(s1, write_op(env, s1.consts, n@))
        },
        Expression::Message(r, m) => {
            let sup = is_super_var(*r);
            let s1 = if sup {
                emit(st, Opcode::PushSelf(self_level(env)))
            } else {
                compile_expr(env, st, *r)
            };
            let s2 = match m {
                Message::Unary(_) => s1,
                Message::Binary(_, a) => compile_expr(env, s1, *a),
                Message::Keyword(parts) => {
                    proof {
                        assert(decreases_to!(m => parts));
                        assert(decreases_to!(parts => parts@));
                    }
                    compile_parts(env, s1, parts@)
                },
            };
            let (p, k) = add_const(s2.consts, ConstantV::Symbol(m.spec_selector()));
            CState {
                consts: p,
                code: s2.code.push(if sup { Opcode::SuperSend(k) } else { Opcode::Send(k) }),
                blocks: s2.blocks,
            }
        },
        Expression::Block(b) => CState {
            consts: st.consts,
            code: st.code.push(Opcode::PushBlock(st.blocks.len() as u16)),
            blocks: st.blocks.push(b),
        },
        Expression::Return(x) => emit(compile_expr(env, st, *x), Opcode::ReturnNonLocal),
    }
}

/// Compiling the arguments of a keyword message, left to right.
pub open spec fn compile_parts(env: Env, st: CState, parts: Seq<(String, Box<Expression>)>) -> CState
    decreases parts, 0nat,
{
    if parts.len() == 0 {
        st
    } else {
        proof {
            assert(decreases_to!(parts => parts[parts.len() - 1]));
        }
        compile_expr(env, compile_parts(env, st, parts.drop_last()), *parts.last().1)
    }
}

/// Compiling a sequence of statements, discarding the value of each one but the last.
pub open spec fn compile_body(env: Env, st: CState, body: Seq<Expression>) -> CState
    decreases body,
{
    if body.len() == 0 {
        st
    } else {
        let s1 = compile_body(env, st, body.drop_last());
        let s2 = if body.len() > 1 { emit(s1, Opcode::Pop) } else { s1 };
        compile_expr(env, s2, body.last())
    }
}

pub open spec fn empty_state() -> CState {
    CState { consts: Seq::empty(), code: Seq::empty(), blocks: Seq::empty() }
}

/// The code of a block: its statements, `nil` when it has none, and a return.
pub open spec fn block_code(env: Env, b: Block) -> Seq<Opcode> {
    let st = compile_body(block_env(env, b), empty_state(), b.body@);
    st.code + (if b.body@.len() == 0 { seq![Opcode::PushNil] } else { Seq::empty() }) + seq![
        Opcode::ReturnLocal,
    ]
}

/// `cb` is the compiled form of block `b` nested in `env`.
pub open spec fn block_compiled(env: Env, b: Block, cb: CompiledBlock) -> bool
    decreases cb,
{
    let env2 = block_env(env, b);
    let st = compile_body(env2, empty_state(), b.body@);
    &&& cb.bytecodes@ == block_code(env, b)
    &&& const_views(cb.constants@) == st.consts
    &&& cb.num_locals == b.locals@.len()
    &&& cb.num_args == b.parameters@.len()
    &&& cb.blocks@.len() == st.blocks.len()
    &&& forall|i: int|
        #![trigger cb.blocks@[i]]
        0 <= i < cb.blocks@.len() ==> block_compiled(env2, st.blocks[i], cb.blocks@[i])
}

pub open spec fn blocks_compiled(env: Env, asts: Seq<Block>, cbs: Seq<CompiledBlock>) -> bool {
    &&& asts.len() == cbs.len()
    &&& forall|i: int| #![trigger cbs[i]] 0 <= i < cbs.len() ==> block_compiled(env, asts[i], cbs[i])
}

/// The source can be compiled: every assignment has a target, no array literal
/// is nested in another, and no block is nested deeper than the level operand allows.
pub open spec fn expr_ok(env: Env, e: Expression) -> bool
    decreases e, 1nat,
{
    match e {
        Expression::Literal(l) => literal_ok(l),
        Expression::Variable(n) => (n@ == word_self() || n@ == word_super()) ==> (env.ctxs.len() as u8) >= 1,
        Expression::Assignment(n, v) => assignable(env, n@) && expr_ok(env, *v),
        Expression::Message(r, m) => {
            &&& (if is_super_var(*r) { (env.ctxs.len() as u8) >= 1 } else { expr_ok(env, *r) })
            &&& match m {
                Message::Unary(_) => true,
                Message::Binary(_, a) => expr_ok(env, *a),
                Message::Keyword(parts) => {
                    proof {
                        assert(decreases_to!(m => parts));
                        assert(decreases_to!(parts => parts@));
                    }
                    parts_ok(env, parts@)
                },
            }
        },
        Expression::Block(b) => {
            proof {
                assert(decreases_to!(b => b.body));
                assert(decreases_to!(b.body => b.body@));
            }
            body_ok(block_env(env, b), b.body@)
        },
        Expression::Return(x) => expr_ok(env, *x),
    }
}

pub open spec fn parts_ok(env: Env, parts: Seq<(String, Box<Expression>)>) -> bool
    decreases parts, 0nat,
{
    if parts.len() == 0 {
        true
    } else {
        proof {
            assert(decreases_to!(parts => parts[parts.len() - 1]));
        }
        parts_ok(env, parts.drop_last()) && expr_ok(env, *parts.last().1)
    }
}

pub open spec fn body_ok(env: Env, body: Seq<Expression>) -> bool
    decreases body, 0nat,
{
    if body.len() == 0 {
        true
    } else {
        body_ok(env, body.drop_last()) && expr_ok(env, body.last())
    }
}

} // verus!

verus! {

// ---------------------------------------------------------------------------
// Methods and classes (model)
// ---------------------------------------------------------------------------

pub open spec fn method_locals(m: MethodDef) -> Seq<Seq<char>> {
    match m.body {
        MethodBody::Block(b) => strings_view(b.locals@),
        MethodBody::Primitive => Seq::empty(),
    }
}

/// The context in which the body of method `m` is compiled.
pub open spec fn method_env(fields: Seq<Seq<char>>, m: MethodDef) -> Env {
    Env { ctxs: seq![CtxV { args: m.signature.spec_arguments(), locals: method_locals(m) }], fields }
}

/// The output of compiling the statements of method `m`.
pub open spec fn method_state(fields: Seq<Seq<char>>, m: MethodDef) -> CState {
    match m.body {
        MethodBody::Block(b) => compile_body(method_env(fields, m), empty_state(), b.body@),
        MethodBody::Primitive => empty_state(),
    }
}

/// The code of a method: its statements, then (the last statement's value
/// dropped) a return of the receiver, which a method answers unless a `^`
/// returned first; a primitive method returns the receiver.
pub open spec fn method_code(fields: Seq<Seq<char>>, m: MethodDef) -> Seq<Opcode> {
    match m.body {
        MethodBody::Block(b) => method_state(fields, m).code + (if b.body@.len() == 0 {
            Seq::empty()
        } else {
            seq![Opcode::Pop]
        }) + seq![Opcode::PushSelf(0), Opcode::ReturnLocal],
        MethodBody::Primitive => seq![Opcode::PushSelf(0), Opcode::ReturnLocal],
    }
}

/// `cm` is the compiled form of method `m` of a class with instance fields `fields`.
pub open spec fn method_compiled(fields: Seq<Seq<char>>, m: MethodDef, cm: CompiledMethod) -> bool {
    let st = method_state(fields, m);
    &&& cm.name@ == m.signature.spec_selector()
    &&& cm.signature@ == m.signature.spec_selector()
    &&& cm.is_primitive == (m.body is Primitive)
    &&& cm.bytecodes@ == method_code(fields, m)
    &&& const_views(cm.constants@) == st.consts
    &&& blocks_compiled(method_env(fields, m), st.blocks, cm.blocks@)
    &&& cm.num_locals == method_locals(m).len()
    &&& cm.num_args == m.signature.spec_arguments().len()
}

/// The method can be compiled (see `expr_ok`).
pub open spec fn method_ok(fields: Seq<Seq<char>>, m: MethodDef) -> bool {
    match m.body {
        MethodBody::Block(b) => body_ok(method_env(fields, m), b.body@),
        MethodBody::Primitive => true,
    }
}

/// For a list of selectors, which entry fills each slot of a method table
/// when they are inserted in order, a later entry replacing an earlier one
/// with the same selector in its slot.
pub open spec fn table_slots(sels: Seq<Seq<char>>) -> Seq<int>
    decreases sels.len(),
{
    if sels.len() == 0 {
        Seq::empty()
    } else {
        let prev = table_slots(sels.drop_last());
        let last = sels.len() - 1;
        match slot_of(sels, prev, sels[last], 0) {
            Some(k) => prev.update(k, last),
            None => prev.push(last),
        }
    }
}

/// The first slot, from `k` on, whose entry has selector `sel`.
pub open spec fn slot_of(sels: Seq<Seq<char>>, slots: Seq<int>, sel: Seq<char>, k: int) -> Option<int>
    decreases slots.len() - k,
{
    if k < 0 || k >= slots.len() {
        None
    } else if sels[slots[k]] == sel {
        Some(k)
    } else {
        slot_of(sels, slots, sel, k + 1)
    }
}

pub open spec fn def_selectors(defs: Seq<MethodDef>) -> Seq<Seq<char>> {
    defs.map_values(|m: MethodDef| m.signature.spec_selector())
}

/// `table` holds, one per selector, the compiled form of the last method of
/// `defs` with that selector, in the order the selectors first appear.
pub open spec fn table_of(fields: Seq<Seq<char>>, defs: Seq<MethodDef>, table: Seq<CompiledMethod>) -> bool {
    let sl = table_slots(def_selectors(defs));
    &&& table.len() == sl.len()
    &&& forall|k: int| 0 <= k < table.len() ==> #[trigger] method_compiled(fields, defs[sl[k]], table[k])
}

} // verus!

verus! {

// ---------------------------------------------------------------------------
// The compiler
// ---------------------------------------------------------------------------

/// Compiles parsed classes to bytecode.
pub struct Compiler {}

struct BlockContext {
    arguments: Vec<String>,
    locals: Vec<String>,
}

impl BlockContext {
    spec fn view_ctx(&self) -> CtxV {
        CtxV { args: strings_view(self.arguments@), locals: strings_view(self.locals@) }
    }

    fn copy(&self) -> (r: BlockContext)
        ensures
            r.view_ctx() == self.view_ctx(),
    {
        BlockContext { arguments: copy_strings(&self.arguments), locals: copy_strings(&self.locals) }
    }
}

spec fn ctx_views(v: Seq<BlockContext>) -> Seq<CtxV> {
    v.map_values(|c: BlockContext| c.view_ctx())
}

struct MethodCompiler {
    constants: Vec<Constant>,
    blocks: Vec<CompiledBlock>,
    bytecodes: Vec<Opcode>,
    contexts: Vec<BlockContext>,
    instance_fields: Vec<String>,
}

fn word(a: char, b: char, c: char, d: char, e: Option<char>) -> (r: Vec<char>)
    ensures
        r@ == (match e {
            Some(x) => seq![a, b, c, d, x],
            None => seq![a, b, c, d],
        }),
{
    let mut v = Vec::new();
    v.push(a);
    v.push(b);
    v.push(c);
    v.push(d);
    match e {
        Some(x) => {
            v.push(x);
            assert(v@ =~= seq![a, b, c, d, x]);
        },
        None => {
            assert(v@ =~= seq![a, b, c, d]);
        },
    }
    v
}

fn is_nil_word(s: &String) -> (r: bool)
    ensures
        r == (s@ == word_nil()),
{
    let mut v = Vec::new();
    v.push('n');
    v.push('i');
    v.push('l');
    assert(v@ =~= word_nil());
    spells(s, &v)
}

fn is_self_word(s: &String) -> (r: bool)
    ensures
        r == (s@ == word_self()),
{
    spells(s, &word('s', 'e', 'l', 'f', None))
}

fn is_super_word(s: &String) -> (r: bool)
    ensures
        r == (s@ == word_super()),
{
    spells(s, &word('s', 'u', 'p', 'e', Some('r')))
}

fn is_true_word(s: &String) -> (r: bool)
    ensures
        r == (s@ == word_true()),
{
    spells(s, &word('t', 'r', 'u', 'e', None))
}

fn is_false_word(s: &String) -> (r: bool)
    ensures
        r == (s@ == word_false()),
{
    spells(s, &word('f', 'a', 'l', 's', Some('e')))
}

proof fn lemma_const_views_push(s: Seq<Constant>, c: Constant)
    ensures
        const_views(s.push(c)) == const_views(s).push(const_view(c)),
{
    assert(s.push(c).drop_last() =~= s);
}

proof fn lemma_const_views_empty()
    ensures
        const_views(Seq::<Constant>::empty()) == Seq::<ConstantV>::empty(),
{
}

/// The decimal text of an integer literal: leading zeros removed, and no sign on zero.
pub fn canonical_integer_text(t: &String) -> (r: String)
    ensures
        r@ == canonical_integer(t@),
{
    let c = crate::text::chars_of(t.as_str());
    let n = c.len();
    let neg = n > 0 && c[0] == '-';
    let start: usize = if neg { 1 } else { 0 };
    let ghost digits = if neg { t@.drop_first() } else { t@ };
    assert(digits =~= c@.subrange(start as int, n as int));
    let mut z: usize = 0;
    while start + z < n && c[start + z] == '0'
        invariant
            start <= n,
            n == c@.len(),
            start + z <= n,
            digits == c@.subrange(start as int, n as int),
            leading_zeros(digits, 0) == z + leading_zeros(digits, z as int),
        decreases n - start - z,
    {
        z = z + 1;
    }
    let mut out = String::new();
    if start + z == n {
        crate::text::push_char(&mut out, '0');
        assert(out@ =~= seq!['0']);
        return out;
    }
    if neg {
        crate::text::push_char(&mut out, '-');
    }
    let rest = crate::text::string_of(&c, start + z, n);
    out.append(rest.as_str());
    proof {
        assert(digits.skip(z as int) =~= c@.subrange(start + z, n as int));
        if neg {
            assert(out@ =~= seq!['-'] + digits.skip(z as int));
        } else {
            assert(out@ =~= digits.skip(z as int));
        }
    }
    out
}

impl MethodCompiler {
    spec fn env(&self) -> Env {
        Env { ctxs: ctx_views(self.contexts@), fields: strings_view(self.instance_fields@) }
    }

    spec fn pool(&self) -> Seq<ConstantV> {
        const_views(self.constants@)
    }

    spec fn state(&self, asts: Seq<Block>) -> CState {
        CState { consts: self.pool(), code: self.bytecodes@, blocks: asts }
    }

    fn add_constant(&mut self, constant: Constant) -> (idx: u16)
        ensures
            (final(self).pool(), idx) == add_const(old(self).pool(), const_view(constant)),
            final(self).bytecodes == old(self).bytecodes,
            final(self).blocks == old(self).blocks,
            final(self).contexts == old(self).contexts,
            final(self).instance_fields == old(self).instance_fields,
    {
        proof {
            lemma_const_views(self.constants@);
        }
        let mut i: usize = 0;
        while i < self.constants.len()
            invariant
                i <= self.constants.len(),
                const_views(self.constants@).len() == self.constants@.len(),
                forall|k: int|
                    0 <= k < self.constants@.len() ==> #[trigger] const_views(self.constants@)[k]
                        == const_view(self.constants@[k]),
                const_index_from(self.pool(), const_view(constant), 0) == const_index_from(
                    self.pool(),
                    const_view(constant),
                    i as int,
                ),
            decreases self.constants.len() - i,
        {
            if self.constants[i].same_as(&constant) {
                return i as u16;
            }
            i = i + 1;
        }
        let idx = self.constants.len() as u16;
        proof {
            lemma_const_views_push(self.constants@, constant);
        }
        self.constants.push(constant);
        idx
    }

    fn find_variable(&mut self, name: &String) -> (op: Opcode)
        requires
            (name@ == word_self() || name@ == word_super()) ==> (old(self).contexts.len() as u8) >= 1,
        ensures
            (final(self).pool(), op) == read_op(old(self).env(), old(self).pool(), name@),
            final(self).bytecodes == old(self).bytecodes,
            final(self).blocks == old(self).blocks,
            final(self).contexts == old(self).contexts,
            final(self).instance_fields == old(self).instance_fields,
    {
        if is_self_word(name) || is_super_word(name) {
            let level = self.contexts.len() as u8 - 1;
            return Opcode::PushSelf(level);
        }
        if is_nil_word(name) {
            return Opcode::PushNil;
        }
        if is_true_word(name) {
            return Opcode::PushTrue;
        }
        if is_false_word(name) {
            return Opcode::PushFalse;
        }
        match self.resolve_name(name) {
            Some((true, level, idx)) => {
                return Opcode::PushLocal(level as u8, idx as u8);
            },
            Some((false, level, idx)) => {
                return Opcode::PushArgument(level as u8, idx as u8);
            },
            None => {},
        }
        let is_field = contains_string(&self.instance_fields, name);
        let sym_idx = self.add_constant(Constant::Symbol(name.clone()));
        if is_field {
            Opcode::PushField(sym_idx)
        } else {
            Opcode::PushGlobal(sym_idx)
        }
    }

    /// Where `name` is bound: `(is_local, level, index)`.
    fn resolve_name(&self, name: &String) -> (r: Option<(bool, usize, usize)>)
        ensures
            match r {
                Some((true, l, i)) => resolve(self.env().ctxs, name@) == Some(
                    Slot::Local(l as int, i as int),
                ),
                Some((false, l, i)) => resolve(self.env().ctxs, name@) == Some(
                    Slot::Argument(l as int, i as int),
                ),
                None => resolve(self.env().ctxs, name@) is None,
            },
    {
        let n = self.contexts.len();
        let mut level: usize = 0;
        while level < n
            invariant
                n == self.contexts.len(),
                level <= n,
                resolve(self.env().ctxs, name@) == resolve_from(self.env().ctxs, name@, level as int),
            decreases n - level,
        {
            let ctx = &self.contexts[n - 1 - level];
            assert(self.env().ctxs[n - 1 - level] == ctx.view_ctx());
            match position_of(&ctx.locals, name) {
                Some(idx) => {
                    return Some((true, level, idx));
                },
                None => {},
            }
            match position_of(&ctx.arguments, name) {
                Some(idx) => {
                    return Some((false, level, idx));
                },
                None => {},
            }
            level = level + 1;
        }
        None
    }

    fn compile_assignment(&mut self, name: &String) -> (op: Opcode)
        requires
            assignable(old(self).env(), name@),
        ensures
            (final(self).pool(), op) == write_op(old(self).env(), old(self).pool(), name@),
            final(self).bytecodes == old(self).bytecodes,
            final(self).blocks == old(self).blocks,
            final(self).contexts == old(self).contexts,
            final(self).instance_fields == old(self).instance_fields,
    {
        match self.resolve_name(name) {
            Some((true, level, idx)) => {
                return Opcode::PopLocal(level as u8, idx as u8);
            },
            Some((false, level, idx)) => {
                return Opcode::PopArgument(level as u8, idx as u8);
            },
            None => {},
        }
        let sym_idx = self.add_constant(Constant::Symbol(name.clone()));
        Opcode::PopField(sym_idx)
    }

    fn scalar_constant(lit: &Literal) -> (c: Constant)
        requires
            !(*lit is Array),
        ensures
            const_view(c) == scalar_const(*lit),
    {
        match lit {
            Literal::Integer(t) => Constant::Integer(canonical_integer_text(t)),
            Literal::Double(t) => Constant::Double(t.clone()),
            Literal::String(s) => Constant::String(s.clone()),
            Literal::Symbol(s) => Constant::Symbol(s.clone()),
            Literal::Array(_) => Constant::Array(Vec::new()),
        }
    }

    fn compile_literal(&mut self, lit: &Literal)
        requires
            literal_ok(*lit),
        ensures
            ({
                let (p, k) = add_const(old(self).pool(), literal_const(*lit));
                &&& final(self).pool() == p
                &&& final(self).bytecodes@ == old(self).bytecodes@.push(Opcode::PushConstant(k))
            }),
            final(self).blocks == old(self).blocks,
            final(self).contexts == old(self).contexts,
            final(self).instance_fields == old(self).instance_fields,
    {
        let c = match lit {
            Literal::Array(arr) => {
                let mut items: Vec<Constant> = Vec::new();
                let mut i: usize = 0;
                while i < arr.len()
                    invariant
                        i <= arr.len(),
                        literal_ok(*lit),
                        *lit == Literal::Array(*arr),
                        items@.len() == i,
                        forall|k: int| 0 <= k < i ==> const_view(#[trigger] items@[k]) == scalar_const(arr@[k]),
                    decreases arr.len() - i,
                {
                    assert(!(arr@[i as int] is Array));
                    items.push(Self::scalar_constant(&arr[i]));
                    i = i + 1;
                }
                proof {
                    lemma_const_views(items@);
                    assert(const_views(items@) =~= arr@.map_values(|x: Literal| scalar_const(x)));
                }
                Constant::Array(items)
            },
            _ => Self::scalar_constant(lit),
        };
        let idx = self.add_constant(c);
        self.bytecodes.push(Opcode::PushConstant(idx));
    }
}

} // verus!

verus! {

impl MethodCompiler {
    spec fn frame_same(&self, other: &MethodCompiler) -> bool {
        &&& self.contexts == other.contexts
        &&& self.instance_fields == other.instance_fields
    }

    #[verifier::loop_isolation(false)]
    fn compile_expression(&mut self, expr: &Expression, Ghost(asts): Ghost<Seq<Block>>)
        requires
            expr_ok(old(self).env(), *expr),
            blocks_compiled(old(self).env(), asts, old(self).blocks@),
        ensures
            final(self).frame_same(old(self)),
            ({
                let st = compile_expr(old(self).env(), old(self).state(asts), *expr);
                &&& final(self).pool() == st.consts
                &&& final(self).bytecodes@ == st.code
                &&& blocks_compiled(old(self).env(), st.blocks, final(self).blocks@)
            }),
        decreases *expr,
    {
        let ghost env = self.env();
        match expr {
            Expression::Literal(lit) => {
                self.compile_literal(lit);
            },
            Expression::Variable(name) => {
                let op = self.find_variable(name);
                self.bytecodes.push(op);
            },
            Expression::Assignment(name, val_expr) => {
                self.compile_expression(val_expr, Ghost(asts));
                self.bytecodes.push(Opcode::Dup);
                let op = self.compile_assignment(name);
                self.bytecodes.push(op);
            },
            Expression::Message(receiver, msg) => {
                let is_super = match &**receiver {
                    Expression::Variable(name) => is_super_word(name),
                    _ => false,
                };
                let ghost st0 = self.state(asts);
                if is_super {
                    let level = self.contexts.len() as u8 - 1;
                    self.bytecodes.push(Opcode::PushSelf(level));
                } else {
                    self.compile_expression(receiver, Ghost(asts));
                }
                let ghost s1 = if is_super {
                    emit(st0, Opcode::PushSelf(self_level(env)))
                } else {
                    compile_expr(env, st0, **receiver)
                };
                assert(self.pool() == s1.consts && self.bytecodes@ == s1.code);
                assert(blocks_compiled(env, s1.blocks, self.blocks@));
                let ghost mut cur = s1;
                match msg {
                    Message::Unary(_) => {},
                    Message::Binary(_, arg) => {
                        self.compile_expression(arg, Ghost(cur.blocks));
                        proof {
                            cur = compile_expr(env, cur, **arg);
                        }
                    },
                    Message::Keyword(parts) => {
                        let mut j: usize = 0;
                        assert(parts@.subrange(0, 0) =~= Seq::<(String, Box<Expression>)>::empty());
                        while j < parts.len()
                            invariant
                                j <= parts.len(),
                                self.env() == env,
                                self.frame_same(old(self)),
                                parts_ok(env, parts@),
                                cur == compile_parts(env, s1, parts@.subrange(0, j as int)),
                                self.pool() == cur.consts,
                                self.bytecodes@ == cur.code,
                                blocks_compiled(env, cur.blocks, self.blocks@),
                            decreases parts.len() - j,
                        {
                            proof {
                                assert(decreases_to!(*expr => *msg));
                                assert(decreases_to!(*msg => *parts));
                                assert(decreases_to!(*parts => parts@));
                                assert(decreases_to!(parts@ => parts@[j as int]));
                                assert(decreases_to!(parts@[j as int] => parts@[j as int].1));
                                lemma_parts_ok_prefix(env, parts@, j as int + 1);
                                let pre = parts@.subrange(0, j + 1);
                                assert(pre.drop_last() =~= parts@.subrange(0, j as int));
                            }
                            self.compile_expression(&parts[j].1, Ghost(cur.blocks));
                            proof {
                                cur = compile_expr(env, cur, *parts@[j as int].1);
                            }
                            j = j + 1;
                        }
                        assert(parts@.subrange(0, parts.len() as int) =~= parts@);
                    },
                }
                let selector = msg.selector();
                let sym_idx = self.add_constant(Constant::Symbol(selector));
                if is_super {
                    self.bytecodes.push(Opcode::SuperSend(sym_idx));
                } else {
                    self.bytecodes.push(Opcode::Send(sym_idx));
                }
            },
            Expression::Block(block) => {
                let compiled_block = self.compile_block(block);
                let block_idx = self.blocks.len() as u16;
                self.blocks.push(compiled_block);
                self.bytecodes.push(Opcode::PushBlock(block_idx));
                assert(asts.push(*block)[asts.len() as int] == *block);
            },
            Expression::Return(ret_expr) => {
                self.compile_expression(ret_expr, Ghost(asts));
                self.bytecodes.push(Opcode::ReturnNonLocal);
            },
        }
    }

    fn compile_block(&self, block: &Block) -> (cb: CompiledBlock)
        requires
            body_ok(block_env(self.env(), *block), block.body@),
        ensures
            block_compiled(self.env(), *block, cb),
        decreases *block,
    {
        let ghost env = self.env();
        let ghost env2 = block_env(env, *block);
        let mut contexts: Vec<BlockContext> = Vec::new();
        let mut i: usize = 0;
        while i < self.contexts.len()
            invariant
                i <= self.contexts.len(),
                contexts@.len() == i,
                forall|k: int| 0 <= k < i ==> (#[trigger] contexts@[k]).view_ctx() == self.contexts@[k].view_ctx(),
            decreases self.contexts.len() - i,
        {
            contexts.push(self.contexts[i].copy());
            i = i + 1;
        }
        contexts.push(BlockContext { arguments: copy_strings(&block.parameters), locals: copy_strings(&block.locals) });
        let mut child = MethodCompiler {
            constants: Vec::new(),
            blocks: Vec::new(),
            bytecodes: Vec::new(),
            contexts,
            instance_fields: copy_strings(&self.instance_fields),
        };
        assert(ctx_views(child.contexts@) =~= env2.ctxs);
        assert(child.env() == env2);
        proof {
            lemma_const_views_empty();
        }
        let ghost mut cur = empty_state();
        assert(child.state(Seq::empty()) == cur);
        let mut k: usize = 0;
        assert(block.body@.subrange(0, 0) =~= Seq::<Expression>::empty());
        while k < block.body.len()
            invariant
                k <= block.body.len(),
                child.env() == env2,
                body_ok(env2, block.body@),
                cur == compile_body(env2, empty_state(), block.body@.subrange(0, k as int)),
                child.pool() == cur.consts,
                child.bytecodes@ == cur.code,
                blocks_compiled(env2, cur.blocks, child.blocks@),
            decreases block.body.len() - k,
        {
            proof {
                assert(decreases_to!(*block => block.body));
                assert(decreases_to!(block.body => block.body@));
                assert(decreases_to!(block.body@ => block.body@[k as int]));
                let pre = block.body@.subrange(0, k + 1);
                assert(pre.drop_last() =~= block.body@.subrange(0, k as int));
                lemma_body_ok_prefix(env2, block.body@, k as int + 1);
            }
            if k > 0 {
                child.bytecodes.push(Opcode::Pop);
                proof {
                    cur = emit(cur, Opcode::Pop);
                }
            }
            child.compile_expression(&block.body[k], Ghost(cur.blocks));
            proof {
                cur = compile_expr(env2, cur, block.body@[k as int]);
            }
            k = k + 1;
        }
        assert(block.body@.subrange(0, block.body.len() as int) =~= block.body@);
        if block.body.len() == 0 {
            child.bytecodes.push(Opcode::PushNil);
        }
        child.bytecodes.push(Opcode::ReturnLocal);
        let cb = CompiledBlock {
            bytecodes: child.bytecodes,
            constants: child.constants,
            blocks: child.blocks,
            num_locals: block.locals.len(),
            num_args: block.parameters.len(),
        };
        proof {
            assert(cb.bytecodes@ =~= block_code(env, *block));
            let st = compile_body(env2, empty_state(), block.body@);
            assert(st == cur);
            assert(const_views(cb.constants@) == st.consts);
            assert(cb.blocks@.len() == st.blocks.len());
            assert forall|i: int| #![trigger cb.blocks@[i]] 0 <= i < cb.blocks@.len() implies block_compiled(
                env2,
                cur.blocks[i],
                cb.blocks@[i],
            ) by {}
            assert(cb.num_locals == block.locals@.len());
            assert(cb.num_args == block.parameters@.len());
            let b = *block;
            let e2 = block_env(env, b);
            let st2 = compile_body(e2, empty_state(), b.body@);
            assert(e2 == env2);
            assert(st2 == st);
            assert(cb.bytecodes@ == block_code(env, b));
            assert(const_views(cb.constants@) == st2.consts);
            assert(cb.num_locals == b.locals@.len());
            assert(cb.num_args == b.parameters@.len());
            assert(cb.blocks@.len() == st2.blocks.len());
            assert(block_compiled(env, *block, cb));
        }
        cb
    }
}

proof fn lemma_parts_ok_prefix(env: Env, parts: Seq<(String, Box<Expression>)>, n: int)
    requires
        parts_ok(env, parts),
        0 < n <= parts.len(),
    ensures
        parts_ok(env, parts.subrange(0, n - 1)),
        expr_ok(env, *parts[n - 1].1),
    decreases parts.len(),
{
    if n == parts.len() {
        assert(parts.drop_last() =~= parts.subrange(0, n - 1));
        assert(parts.subrange(0, n - 1) =~= parts.drop_last());
    } else {
        lemma_parts_ok_prefix(env, parts.drop_last(), n);
        assert(parts.drop_last().subrange(0, n - 1) =~= parts.subrange(0, n - 1));
    }
}

proof fn lemma_body_ok_prefix(env: Env, body: Seq<Expression>, n: int)
    requires
        body_ok(env, body),
        0 < n <= body.len(),
    ensures
        body_ok(env, body.subrange(0, n - 1)),
        expr_ok(env, body[n - 1]),
    decreases body.len(),
{
    if n == body.len() {
        assert(body.drop_last() =~= body.subrange(0, n - 1));
    } else {
        lemma_body_ok_prefix(env, body.drop_last(), n);
        assert(body.drop_last().subrange(0, n - 1) =~= body.subrange(0, n - 1));
    }
}

} // verus!

verus! {

impl Compiler {
    pub fn new() -> (r: Self) {
        Compiler {}
    }

    /// Compiles one method of a class whose instances have the fields
    /// `fields` (inherited ones included, in order).
    pub fn compile_method(&mut self, method_def: &MethodDef, fields: &Vec<String>) -> (cm: CompiledMethod)
        requires
            method_ok(strings_view(fields@), *method_def),
        ensures
            method_compiled(strings_view(fields@), *method_def, cm),
    {
        let ghost fv = strings_view(fields@);
        let ghost env = method_env(fv, *method_def);
        let signature = method_def.signature.selector();
        let mut args: Vec<String> = Vec::new();
        match &method_def.signature {
            Signature::Unary(_) => {},
            Signature::Binary(_, arg) => {
                args.push(arg.clone());
            },
            Signature::Keyword(parts) => {
                let mut i: usize = 0;
                while i < parts.len()
                    invariant
                        i <= parts.len(),
                        args@ == parts@.map_values(|p: (String, String)| p.1).subrange(0, i as int),
                    decreases parts.len() - i,
                {
                    args.push(parts[i].1.clone());
                    proof {
                        let m = parts@.map_values(|p: (String, String)| p.1);
                        assert(m.subrange(0, i + 1) =~= m.subrange(0, i as int).push(parts@[i as int].1));
                    }
                    i = i + 1;
                }
                proof {
                    let m = parts@.map_values(|p: (String, String)| p.1);
                    assert(m.subrange(0, parts.len() as int) =~= m);
                    assert(strings_view(m) =~= parts@.map_values(|p: (String, String)| p.1@));
                }
            },
        }
        assert(strings_view(args@) =~= method_def.signature.spec_arguments());
        let is_primitive = match &method_def.body {
            MethodBody::Primitive => true,
            MethodBody::Block(_) => false,
        };
        let locals = match &method_def.body {
            MethodBody::Block(b) => copy_strings(&b.locals),
            MethodBody::Primitive => Vec::new(),
        };
        assert(strings_view(locals@) =~= method_locals(*method_def));
        let num_args = args.len();
        let num_locals = locals.len();
        let mut contexts: Vec<BlockContext> = Vec::new();
        contexts.push(BlockContext { arguments: args, locals });
        let mut mc = MethodCompiler {
            constants: Vec::new(),
            blocks: Vec::new(),
            bytecodes: Vec::new(),
            contexts,
            instance_fields: copy_strings(fields),
        };
        assert(ctx_views(mc.contexts@) =~= env.ctxs);
        assert(mc.env() == env);
        proof {
            lemma_const_views_empty();
        }
        let ghost mut cur = empty_state();
        match &method_def.body {
            MethodBody::Block(block) => {
                let mut k: usize = 0;
                assert(block.body@.subrange(0, 0) =~= Seq::<Expression>::empty());
                while k < block.body.len()
                    invariant
                        k <= block.body.len(),
                        method_def.body == MethodBody::Block(*block),
                        mc.env() == env,
                        body_ok(env, block.body@),
                        cur == compile_body(env, empty_state(), block.body@.subrange(0, k as int)),
                        mc.pool() == cur.consts,
                        mc.bytecodes@ == cur.code,
                        blocks_compiled(env, cur.blocks, mc.blocks@),
                    decreases block.body.len() - k,
                {
                    proof {
                        let pre = block.body@.subrange(0, k + 1);
                        assert(pre.drop_last() =~= block.body@.subrange(0, k as int));
                        lemma_body_ok_prefix(env, block.body@, k as int + 1);
                    }
                    if k > 0 {
                        mc.bytecodes.push(Opcode::Pop);
                        proof {
                            cur = emit(cur, Opcode::Pop);
                        }
                    }
                    mc.compile_expression(&block.body[k], Ghost(cur.blocks));
                    proof {
                        cur = compile_expr(env, cur, block.body@[k as int]);
                    }
                    k = k + 1;
                }
                assert(block.body@.subrange(0, block.body.len() as int) =~= block.body@);
                if block.body.len() > 0 {
                    mc.bytecodes.push(Opcode::Pop);
                }
                mc.bytecodes.push(Opcode::PushSelf(0));
                mc.bytecodes.push(Opcode::ReturnLocal);
            },
            MethodBody::Primitive => {
                mc.bytecodes.push(Opcode::PushSelf(0));
                mc.bytecodes.push(Opcode::ReturnLocal);
            },
        }
        let cm = CompiledMethod {
            name: signature.clone(),
            is_primitive,
            bytecodes: mc.bytecodes,
            constants: mc.constants,
            blocks: mc.blocks,
            num_locals,
            num_args,
            signature,
        };
        proof {
            assert(cur == method_state(fv, *method_def));
            assert(cm.bytecodes@ =~= method_code(fv, *method_def));
        }
        cm
    }

    /// Compiles the methods of a class. The instance and class fields are all
    /// the fields of an instance and of the class object, inherited ones included.
    pub fn compile_class(
        &mut self,
        class_def: &ClassDef,
        instance_fields: &Vec<String>,
        class_fields: &Vec<String>,
    ) -> (cc: CompiledClass)
        requires
            forall|i: int|
                0 <= i < class_def.instance_methods@.len() ==> method_ok(
                    strings_view(instance_fields@),
                    #[trigger] class_def.instance_methods@[i],
                ),
            forall|i: int|
                0 <= i < class_def.class_methods@.len() ==> method_ok(
                    strings_view(class_fields@),
                    #[trigger] class_def.class_methods@[i],
                ),
        ensures
            cc.name@ == class_def.name@,
            cc.super_class matches Some(s) ==> class_def.super_class matches Some(t) && s@ == t@,
            cc.super_class is None ==> class_def.super_class is None,
            cc.instance_fields@ == instance_fields@,
            cc.class_fields@ == class_fields@,
            table_of(strings_view(instance_fields@), class_def.instance_methods@, cc.instance_methods@),
            table_of(strings_view(class_fields@), class_def.class_methods@, cc.class_methods@),
    {
        let instance_methods = self.compile_table(&class_def.instance_methods, instance_fields);
        let class_methods = self.compile_table(&class_def.class_methods, class_fields);
        let super_class = match &class_def.super_class {
            Some(s) => Some(s.clone()),
            None => None,
        };
        CompiledClass {
            name: class_def.name.clone(),
            super_class,
            instance_fields: copy_strings(instance_fields),
            class_fields: copy_strings(class_fields),
            instance_methods,
            class_methods,
        }
    }

    /// Compiles a list of methods into a table with one method per selector.
    fn compile_table(&mut self, defs: &Vec<MethodDef>, fields: &Vec<String>) -> (table: Vec<CompiledMethod>)
        requires
            forall|i: int| 0 <= i < defs@.len() ==> method_ok(strings_view(fields@), #[trigger] defs@[i]),
        ensures
            table_of(strings_view(fields@), defs@, table@),
    {
        assert(defs@.subrange(0, 0) =~= Seq::<MethodDef>::empty());
        let ghost fv = strings_view(fields@);
        let mut table: Vec<CompiledMethod> = Vec::new();
        let mut i: usize = 0;
        while i < defs.len()
            invariant
                i <= defs.len(),
                forall|j: int| 0 <= j < defs@.len() ==> method_ok(fv, #[trigger] defs@[j]),
                fv == strings_view(fields@),
                table_ok_upto(fv, defs@, i as int, table@),
            decreases defs.len() - i,
        {
            let ghost pre_sels = def_selectors(defs@.subrange(0, i as int));
            let ghost sels = def_selectors(defs@.subrange(0, i + 1));
            let ghost prev = table_slots(pre_sels);
            proof {
                assert(sels.drop_last() =~= pre_sels);
                assert forall|k: int| 0 <= k < prev.len() implies 0 <= prev[k] < i && sels[prev[k]] == table@[k].signature@ by {
                    assert(method_compiled(fv, defs@[prev[k]], table@[k]));
                    assert(defs@.subrange(0, i + 1)[prev[k]] == defs@[prev[k]]);
                }
            }
            let m = self.compile_method(&defs[i], fields);
            let mut k: usize = 0;
            while k < table.len() && !(table[k].signature == m.signature)
                invariant
                    k <= table.len(),
                    table@.len() == prev.len(),
                    forall|j: int| 0 <= j < prev.len() ==> sels[prev[j]] == (#[trigger] table@[j]).signature@,
                    slot_of(sels, prev, sels[i as int], 0) == slot_of(sels, prev, sels[i as int], k as int),
                    m.signature@ == sels[i as int],
                decreases table.len() - k,
            {
                k = k + 1;
            }
            if k < table.len() {
                let ghost old_table = table@;
                table.set(k, m);
                proof {
                    assert(slot_of(sels, prev, sels[i as int], 0) == Some(k as int));
                    assert(table_slots(sels) == prev.update(k as int, i as int));
                    assert forall|j: int| #![trigger table@[j]] 0 <= j < table@.len() implies 0 <= table_slots(sels)[j] < i + 1
                        && method_compiled(fv, defs@[table_slots(sels)[j]], table@[j]) by {
                        if j != k {
                            assert(table@[j] == old_table[j]);
                        }
                    }
                }
            } else {
                table.push(m);
                proof {
                    assert(slot_of(sels, prev, sels[i as int], 0) is None);
                    assert(table_slots(sels) == prev.push(i as int));
                }
            }
            i = i + 1;
        }
        assert(defs@.subrange(0, defs.len() as int) =~= defs@);
        table
    }
}

/// The first `n` methods of `defs` have been compiled into `table`.
spec fn table_ok_upto(fv: Seq<Seq<char>>, defs: Seq<MethodDef>, n: int, table: Seq<CompiledMethod>) -> bool {
    let sl = table_slots(def_selectors(defs.subrange(0, n)));
    &&& table.len() == sl.len()
    &&& forall|k: int|
        #![trigger table[k]]
        0 <= k < table.len() ==> 0 <= sl[k] < n && method_compiled(fv, defs[sl[k]], table[k])
}

} // verus!

verus! {

// ---------------------------------------------------------------------------
// Laws
// ---------------------------------------------------------------------------

/// No constant occurs twice in the pool.
pub open spec fn distinct_consts(p: Seq<ConstantV>) -> bool {
    forall|i: int, j: int| 0 <= i < j < p.len() ==> p[i] != p[j]
}

proof fn lemma_const_index_none(pool: Seq<ConstantV>, c: ConstantV, i: int)
    requires
        0 <= i,
        const_index_from(pool, c, i) is None,
    ensures
        forall|k: int| i <= k < pool.len() ==> pool[k] != c,
    decreases pool.len() - i,
{
    if i < pool.len() {
        lemma_const_index_none(pool, c, i + 1);
    }
}

proof fn lemma_add_const_distinct(pool: Seq<ConstantV>, c: ConstantV)
    requires
        distinct_consts(pool),
    ensures
        distinct_consts(add_const(pool, c).0),
{
    if const_index_from(pool, c, 0) is None {
        lemma_const_index_none(pool, c, 0);
        let p2 = pool.push(c);
        assert forall|i: int, j: int| 0 <= i < j < p2.len() implies p2[i] != p2[j] by {
            if j == pool.len() {
                assert(p2[i] == pool[i]);
            }
        }
    }
}

/// Compiling an expression never puts a constant in the pool twice.
pub proof fn law_expr_keeps_pool_distinct(env: Env, st: CState, e: Expression)
    requires
        distinct_consts(st.consts),
    ensures
        distinct_consts(compile_expr(env, st, e).consts),
    decreases e, 1nat,
{
    match e {
        Expression::Literal(l) => {
            lemma_add_const_distinct(st.consts, literal_const(l));
        },
        Expression::Variable(n) => {
            lemma_add_const_distinct(st.consts, ConstantV::Symbol(n@));
        },
        Expression::Assignment(n, v) => {
            law_expr_keeps_pool_distinct(env, st, *v);
            let s1 = emit(compile_expr(env, st, *v), Opcode::Dup);
            lemma_add_const_distinct(s1.consts, ConstantV::Symbol(n@));
        },
        Expression::Message(r, m) => {
            let sup = is_super_var(*r);
            if !sup {
                law_expr_keeps_pool_distinct(env, st, *r);
            }
            let s1 = if sup {
                emit(st, Opcode::PushSelf(self_level(env)))
            } else {
                compile_expr(env, st, *r)
            };
            match m {
                Message::Unary(_) => {},
                Message::Binary(_, a) => {
                    law_expr_keeps_pool_distinct(env, s1, *a);
                },
                Message::Keyword(parts) => {
                    assert(decreases_to!(m => parts));
                    assert(decreases_to!(parts => parts@));
                    law_parts_keep_pool_distinct(env, s1, parts@);
                },
            }
            let s2 = match m {
                Message::Unary(_) => s1,
                Message::Binary(_, a) => compile_expr(env, s1, *a),
                Message::Keyword(parts) => compile_parts(env, s1, parts@),
            };
            lemma_add_const_distinct(s2.consts, ConstantV::Symbol(m.spec_selector()));
        },
        Expression::Block(_) => {},
        Expression::Return(x) => {
            law_expr_keeps_pool_distinct(env, st, *x);
        },
    }
}

/// Compiling the arguments of a keyword message never puts a constant in the pool twice.
pub proof fn law_parts_keep_pool_distinct(env: Env, st: CState, parts: Seq<(String, Box<Expression>)>)
    requires
        distinct_consts(st.consts),
    ensures
        distinct_consts(compile_parts(env, st, parts).consts),
    decreases parts, 0nat,
{
    if parts.len() > 0 {
        assert(decreases_to!(parts => parts[parts.len() - 1]));
        law_parts_keep_pool_distinct(env, st, parts.drop_last());
        law_expr_keeps_pool_distinct(env, compile_parts(env, st, parts.drop_last()), *parts.last().1);
    }
}

/// Compiling statements never puts a constant in the pool twice.
pub proof fn law_body_keeps_pool_distinct(env: Env, st: CState, body: Seq<Expression>)
    requires
        distinct_consts(st.consts),
    ensures
        distinct_consts(compile_body(env, st, body).consts),
    decreases body.len(),
{
    if body.len() > 0 {
        law_body_keeps_pool_distinct(env, st, body.drop_last());
        let s1 = compile_body(env, st, body.drop_last());
        let s2 = if body.len() > 1 { emit(s1, Opcode::Pop) } else { s1 };
        law_expr_keeps_pool_distinct(env, s2, body.last());
    }
}

/// The constant pool of a compiled block holds each constant once.
pub proof fn law_block_pool_distinct(env: Env, b: Block, cb: CompiledBlock)
    requires
        block_compiled(env, b, cb),
    ensures
        distinct_consts(const_views(cb.constants@)),
{
    law_body_keeps_pool_distinct(block_env(env, b), empty_state(), b.body@);
}

/// The constant pool of a compiled method holds each constant once.
pub proof fn law_method_pool_distinct(fields: Seq<Seq<char>>, m: MethodDef, cm: CompiledMethod)
    requires
        method_compiled(fields, m, cm),
    ensures
        distinct_consts(const_views(cm.constants@)),
{
    match m.body {
        MethodBody::Block(b) => {
            law_body_keeps_pool_distinct(method_env(fields, m), empty_state(), b.body@);
        },
        MethodBody::Primitive => {},
    }
}

} // verus!

verus! {

// ---------------------------------------------------------------------------
// Checking that a method can be compiled
// ---------------------------------------------------------------------------

#[verifier::loop_isolation(false)]
fn literal_checks(l: &Literal) -> (r: bool)
    ensures
        r == literal_ok(*l),
{
    match l {
        Literal::Array(items) => {
            let mut i: usize = 0;
            while i < items.len()
                invariant
                    i <= items.len(),
                    forall|k: int| 0 <= k < i ==> !(#[trigger] items@[k] is Array),
                decreases items.len() - i,
            {
                match &items[i] {
                    Literal::Array(_) => {
                        assert(items@[i as int] is Array);
                        return false;
                    },
                    _ => {},
                }
                i = i + 1;
            }
            true
        },
        _ => true,
    }
}

fn is_super_variable(e: &Expression) -> (r: bool)
    ensures
        r == is_super_var(*e),
{
    match e {
        Expression::Variable(n) => is_super_word(n),
        _ => false,
    }
}

impl MethodCompiler {
    /// Whether `e` can be compiled in the current contexts.
    #[verifier::loop_isolation(false)]
    fn expr_checks(&mut self, e: &Expression) -> (r: bool)
        ensures
            r == expr_ok(old(self).env(), *e),
            final(self).env() == old(self).env(),
        decreases *e,
    {
        let ghost env = self.env();
        match e {
            Expression::Literal(l) => literal_checks(l),
            Expression::Variable(n) => {
                if is_self_word(n) || is_super_word(n) {
                    (self.contexts.len() as u8) >= 1
                } else {
                    true
                }
            },
            Expression::Assignment(n, v) => {
                let target = match self.resolve_name(n) {
                    Some(_) => true,
                    None => contains_string(&self.instance_fields, n),
                };
                let value = self.expr_checks(v);
                target && value
            },
            Expression::Message(r, m) => {
                let receiver = if is_super_variable(r) {
                    (self.contexts.len() as u8) >= 1
                } else {
                    self.expr_checks(r)
                };
                let arguments = match m {
                    Message::Unary(_) => true,
                    Message::Binary(_, a) => self.expr_checks(a),
                    Message::Keyword(parts) => {
                        let mut ok = true;
                        let mut j: usize = 0;
                        assert(parts@.subrange(0, 0) =~= Seq::<(String, Box<Expression>)>::empty());
                        while j < parts.len()
                            invariant
                                j <= parts.len(),
                                self.env() == env,
                                ok == parts_ok(env, parts@.subrange(0, j as int)),
                            decreases parts.len() - j,
                        {
                            proof {
                                assert(decreases_to!(*e => *m));
                                assert(decreases_to!(*m => *parts));
                                assert(decreases_to!(*parts => parts@));
                                assert(decreases_to!(parts@ => parts@[j as int]));
                                assert(decreases_to!(parts@[j as int] => parts@[j as int].1));
                                assert(parts@.subrange(0, j + 1).drop_last() =~= parts@.subrange(0, j as int));
                            }
                            let a = self.expr_checks(&parts[j].1);
                            ok = ok && a;
                            j = j + 1;
                        }
                        assert(parts@.subrange(0, parts.len() as int) =~= parts@);
                        ok
                    },
                };
                receiver && arguments
            },
            Expression::Block(b) => {
                let ghost before = self.contexts@;
                self.contexts.push(
                    BlockContext { arguments: copy_strings(&b.parameters), locals: copy_strings(&b.locals) },
                );
                let ghost env2 = block_env(env, *b);
                assert(ctx_views(self.contexts@) =~= env2.ctxs);
                let mut ok = true;
                let mut k: usize = 0;
                assert(b.body@.subrange(0, 0) =~= Seq::<Expression>::empty());
                while k < b.body.len()
                    invariant
                        k <= b.body.len(),
                        self.env() == env2,
                        self.contexts@.len() == before.len() + 1,
                        ok == body_ok(env2, b.body@.subrange(0, k as int)),
                    decreases b.body.len() - k,
                {
                    proof {
                        assert(decreases_to!(*e => *b));
                        assert(decreases_to!(*b => b.body));
                        assert(decreases_to!(b.body => b.body@));
                        assert(decreases_to!(b.body@ => b.body@[k as int]));
                        assert(b.body@.subrange(0, k + 1).drop_last() =~= b.body@.subrange(0, k as int));
                    }
                    let x = self.expr_checks(&b.body[k]);
                    ok = ok && x;
                    k = k + 1;
                }
                assert(b.body@.subrange(0, b.body.len() as int) =~= b.body@);
                let ghost full = self.contexts@;
                self.contexts.pop();
                assert(ctx_views(self.contexts@) =~= env.ctxs) by {
                    assert(ctx_views(full) == env2.ctxs);
                    assert forall|i: int| 0 <= i < self.contexts@.len() implies ctx_views(self.contexts@)[i] == env.ctxs[i] by {
                        assert(self.contexts@[i] == full[i]);
                        assert(ctx_views(full)[i] == full[i].view_ctx());
                    }
                }
                ok
            },
            Expression::Return(x) => self.expr_checks(x),
        }
    }
}

/// Whether `method_def` can be compiled for a class whose instances have the
/// fields `fields`: whether `compile_method` accepts it.
pub fn method_compilable(method_def: &MethodDef, fields: &Vec<String>) -> (r: bool)
    ensures
        r == method_ok(strings_view(fields@), *method_def),
{
    match &method_def.body {
        MethodBody::Primitive => true,
        MethodBody::Block(block) => {
            let ghost env = method_env(strings_view(fields@), *method_def);
            let args = crate::universe::method_parameters(&method_def.signature);
            let locals = copy_strings(&block.locals);
            let mut contexts: Vec<BlockContext> = Vec::new();
            contexts.push(BlockContext { arguments: args, locals });
            let mut mc = MethodCompiler {
                constants: Vec::new(),
                blocks: Vec::new(),
                bytecodes: Vec::new(),
                contexts,
                instance_fields: copy_strings(fields),
            };
            assert(ctx_views(mc.contexts@) =~= env.ctxs);
            let mut ok = true;
            let mut k: usize = 0;
            assert(block.body@.subrange(0, 0) =~= Seq::<Expression>::empty());
            while k < block.body.len()
                invariant
                    k <= block.body.len(),
                    mc.env() == env,
                    ok == body_ok(env, block.body@.subrange(0, k as int)),
                decreases block.body.len() - k,
            {
                proof {
                    assert(block.body@.subrange(0, k + 1).drop_last() =~= block.body@.subrange(0, k as int));
                }
                let x = mc.expr_checks(&block.body[k]);
                ok = ok && x;
                k = k + 1;
            }
            assert(block.body@.subrange(0, block.body.len() as int) =~= block.body@);
            ok
        },
    }
}

/// Whether every method of `defs` can be compiled with the fields `fields`.
fn methods_compilable(defs: &Vec<MethodDef>, fields: &Vec<String>) -> (r: bool)
    ensures
        r == (forall|i: int| 0 <= i < defs@.len() ==> method_ok(strings_view(fields@), #[trigger] defs@[i])),
{
    let mut i: usize = 0;
    while i < defs.len()
        invariant
            i <= defs.len(),
            forall|k: int| 0 <= k < i ==> method_ok(strings_view(fields@), #[trigger] defs@[k]),
        decreases defs.len() - i,
    {
        if !method_compilable(&defs[i], fields) {
            return false;
        }
        i = i + 1;
    }
    true
}

impl Compiler {
    /// Compiles a class as `compile_class` does, when every one of its methods
    /// can be compiled; `None` otherwise.
    pub fn compile_class_checked(
        &mut self,
        class_def: &ClassDef,
        instance_fields: &Vec<String>,
        class_fields: &Vec<String>,
    ) -> (r: Option<CompiledClass>)
        ensures
            r is Some <==> (forall|i: int|
                0 <= i < class_def.instance_methods@.len() ==> method_ok(
                    strings_view(instance_fields@),
                    #[trigger] class_def.instance_methods@[i],
                )) && (forall|i: int|
                0 <= i < class_def.class_methods@.len() ==> method_ok(
                    strings_view(class_fields@),
                    #[trigger] class_def.class_methods@[i],
                )),
            r matches Some(cc) ==> {
                &&& cc.name@ == class_def.name@
                &&& cc.instance_fields@ == instance_fields@
                &&& cc.class_fields@ == class_fields@
                &&& table_of(strings_view(instance_fields@), class_def.instance_methods@, cc.instance_methods@)
                &&& table_of(strings_view(class_fields@), class_def.class_methods@, cc.class_methods@)
            },
    {
        if methods_compilable(&class_def.instance_methods, instance_fields) && methods_compilable(
            &class_def.class_methods,
            class_fields,
        ) {
            Some(self.compile_class(class_def, instance_fields, class_fields))
        } else {
            None
        }
    }
}

/// The definition of class `name` is the first one of that name, and the
/// fields of its instances and of the class resolve.
pub open spec fn loadable(defs: Seq<ClassDef>, i: int) -> bool {
    &&& crate::universe::find_def_from(defs, defs[i].name@, 0) == Some(i)
    &&& crate::universe::instance_fields_of(defs, defs[i].name@, Seq::empty(), defs.len() as nat) is Some
    &&& crate::universe::class_fields_of(defs, defs[i].name@, Seq::empty(), defs.len() as nat) is Some
}

/// `cc` is the compiled form of definition `i` of `defs`, with the fields it inherits.
pub open spec fn compiled_from(defs: Seq<ClassDef>, i: int, cc: CompiledClass) -> bool {
    let d = defs[i];
    let fi = crate::universe::instance_fields_of(defs, d.name@, Seq::empty(), defs.len() as nat);
    let fc = crate::universe::class_fields_of(defs, d.name@, Seq::empty(), defs.len() as nat);
    &&& cc.name@ == d.name@
    &&& fi == Some(strings_view(cc.instance_fields@))
    &&& fc == Some(strings_view(cc.class_fields@))
    &&& table_of(strings_view(cc.instance_fields@), d.instance_methods@, cc.instance_methods@)
    &&& table_of(strings_view(cc.class_fields@), d.class_methods@, cc.class_methods@)
}

/// Every method of definition `i` can be compiled with the fields it resolves to.
pub open spec fn class_compilable(defs: Seq<ClassDef>, i: int) -> bool {
    let d = defs[i];
    let fi = crate::universe::instance_fields_of(defs, d.name@, Seq::empty(), defs.len() as nat).unwrap();
    let fc = crate::universe::class_fields_of(defs, d.name@, Seq::empty(), defs.len() as nat).unwrap();
    &&& forall|k: int| 0 <= k < d.instance_methods@.len() ==> method_ok(fi, #[trigger] d.instance_methods@[k])
    &&& forall|k: int| 0 <= k < d.class_methods@.len() ==> method_ok(fc, #[trigger] d.class_methods@[k])
}

/// Compiles every class of `defs` that can be loaded into an image holding one
/// class per name: the first definition of each name whose fields resolve.
/// `Err` names the first such class with a method that cannot be compiled.
pub fn compile_image(defs: &Vec<ClassDef>) -> (r: Result<Image, String>)
    ensures
        match r {
            Ok(image) => {
                &&& forall|a: int, b: int|
                    0 <= a < b < image.classes@.len() ==> #[trigger] image.classes@[a].name@ != #[trigger] image.classes@[b].name@
                &&& forall|k: int|
                    #![trigger image.classes@[k]]
                    0 <= k < image.classes@.len() ==> {
                        let j = crate::universe::find_def_from(defs@, image.classes@[k].name@, 0);
                        &&& j is Some
                        &&& loadable(defs@, j.unwrap())
                        &&& compiled_from(defs@, j.unwrap(), image.classes@[k])
                    }
                &&& forall|i: int|
                    #![trigger defs@[i]]
                    0 <= i < defs@.len() && loadable(defs@, i) ==> class_compilable(defs@, i) && exists|k: int|
                        0 <= k < image.classes@.len() && #[trigger] image.classes@[k].name@ == #[trigger] defs@[i].name@
            },
            Err(name) => exists|i: int|
                0 <= i < defs@.len() && loadable(defs@, i) && !class_compilable(defs@, i) && #[trigger] defs@[i].name@
                    == name@ && forall|j: int| 0 <= j < i && loadable(defs@, j) ==> class_compilable(defs@, j),
        },
{
    let mut compiler = Compiler::new();
    let mut classes: Vec<CompiledClass> = Vec::new();
    let ghost mut origin: Seq<int> = Seq::empty();
    let mut i: usize = 0;
    while i < defs.len()
        invariant
            i <= defs.len(),
            origin.len() == classes@.len(),
            forall|a: int, b: int| 0 <= a < b < origin.len() ==> #[trigger] origin[a] < #[trigger] origin[b],
            forall|k: int| 0 <= k < origin.len() ==> 0 <= #[trigger] origin[k] < i && loadable(defs@, origin[k]),
            forall|k: int| 0 <= k < classes@.len() ==> compiled_from(defs@, origin[k], #[trigger] classes@[k]),
            forall|j: int|
                #![trigger defs@[j]]
                0 <= j < i && loadable(defs@, j) ==> class_compilable(defs@, j) && exists|k: int|
                    0 <= k < classes@.len() && #[trigger] classes@[k].name@ == #[trigger] defs@[j].name@,
        decreases defs.len() - i,
    {
        let def = &defs[i];
        let first = match crate::universe::find_def_index(defs, &def.name) {
            Some(j) => j == i,
            None => false,
        };
        if first {
            let fi = crate::universe::all_instance_fields(defs, &def.name);
            let fc = crate::universe::all_class_fields(defs, &def.name);
            match (fi, fc) {
                (Some(fi), Some(fc)) => {
                    assert(loadable(defs@, i as int));
                    match compiler.compile_class_checked(def, &fi, &fc) {
                        None => {
                            assert(!class_compilable(defs@, i as int));
                            return Err(def.name.clone());
                        },
                        Some(cc) => {
                            assert(compiled_from(defs@, i as int, cc));
                            let ghost before = classes@;
                            let ghost ob = origin;
                            assert forall|k: int| 0 <= k < before.len() implies
                                0 <= #[trigger] ob[k] < i && loadable(defs@, ob[k]) && compiled_from(defs@, ob[k], before[k]) by {
                                assert(classes@[k] == before[k]);
                            }
                            classes.push(cc);
                            proof {
                                origin = origin.push(i as int);
                                assert forall|a: int, b: int| 0 <= a < b < origin.len() implies #[trigger] origin[a] < #[trigger] origin[b] by {
                                    assert(origin[a] == ob[a]);
                                    if b < ob.len() {
                                        assert(origin[b] == ob[b]);
                                        assert(ob[a] < ob[b]);
                                    } else {
                                        assert(ob[a] < i);
                                    }
                                }
                                assert forall|k: int| #![trigger classes@[k]] 0 <= k < classes@.len() implies
                                    (0 <= origin[k] < i + 1 && loadable(defs@, origin[k]) && compiled_from(defs@, origin[k], classes@[k])) by {
                                    if k < before.len() {
                                        assert(classes@[k] == before[k]);
                                        assert(origin[k] == ob[k]);
                                    } else {
                                        assert(classes@[k] == cc);
                                        assert(origin[k] == i as int);
                                    }
                                }
                                assert forall|j: int| #![trigger defs@[j]] 0 <= j < i + 1 && loadable(defs@, j) implies class_compilable(defs@, j)
                                    && exists|k: int| 0 <= k < classes@.len() && #[trigger] classes@[k].name@ == #[trigger] defs@[j].name@ by {
                                    if j < i {
                                        let k = choose|k: int| 0 <= k < before.len() && #[trigger] before[k].name@ == defs@[j].name@;
                                        assert(classes@[k] == before[k]);
                                        assert(classes@[k].name@ == defs@[j].name@);
                                    } else {
                                        assert(classes@[before.len() as int].name@ == defs@[j].name@);
                                    }
                                }
                            }
                        },
                    }
                },
                _ => {
                    assert(!loadable(defs@, i as int));
                },
            }
        } else {
            assert(!loadable(defs@, i as int));
        }
        i = i + 1;
    }
    let image = Image { classes };
    proof {
        assert forall|a: int, b: int|
            0 <= a < b < image.classes@.len() implies #[trigger] image.classes@[a].name@ != #[trigger] image.classes@[b].name@ by {
            let ja = origin[a];
            let jb = origin[b];
            assert(classes@[a] == image.classes@[a]);
            assert(classes@[b] == image.classes@[b]);
            assert(crate::universe::find_def_from(defs@, defs@[ja].name@, 0) == Some(ja));
            assert(crate::universe::find_def_from(defs@, defs@[jb].name@, 0) == Some(jb));
            if ja == jb {
                assert(false);
            }
        }
        assert forall|k: int| #![trigger image.classes@[k]] 0 <= k < image.classes@.len() implies {
            let j = crate::universe::find_def_from(defs@, image.classes@[k].name@, 0);
            &&& j is Some
            &&& loadable(defs@, j.unwrap())
            &&& compiled_from(defs@, j.unwrap(), image.classes@[k])
        } by {
            assert(classes@[k] == image.classes@[k]);
            let j = origin[k];
            assert(compiled_from(defs@, j, image.classes@[k]));
            assert(loadable(defs@, j));
        }
        assert forall|j: int| #![trigger defs@[j]] 0 <= j < defs@.len() && loadable(defs@, j) implies class_compilable(defs@, j)
            && exists|k: int| 0 <= k < image.classes@.len() && #[trigger] image.classes@[k].name@ == #[trigger] defs@[j].name@ by {
            let k = choose|k: int| 0 <= k < classes@.len() && #[trigger] classes@[k].name@ == #[trigger] defs@[j].name@;
            assert(classes@[k] == image.classes@[k]);
        }
    }
    Ok(image)
}


/// The first position of `x` in `s` is `i` where `s[i]` is `x` and no
/// element before it is.
proof fn lemma_index_of_first(s: Seq<Seq<char>>, x: Seq<char>, i: int, k: int)
    requires
        0 <= k <= i < s.len(),
        s[i] == x,
        forall|j: int| 0 <= j < i ==> s[j] != x,
    ensures
        index_of_from(s, x, k) == Some(i),
    decreases i - k,
{
    if k < i {
        lemma_index_of_first(s, x, i, k + 1);
    }
}

/// A name bound in none of the contexts from `level` out to `l` (the
/// locals of `l` included) but among the arguments of context `l`, at `i`
/// first, resolves to argument `i` of context `l`.
proof fn lemma_resolve_argument(ctxs: Seq<CtxV>, name: Seq<char>, level: int, l: int, i: int)
    requires
        0 <= level <= l < ctxs.len(),
        0 <= i < ctxs[ctxs.len() - 1 - l].args.len(),
        ctxs[ctxs.len() - 1 - l].args[i] == name,
        forall|j: int| 0 <= j < i ==> #[trigger] ctxs[ctxs.len() - 1 - l].args[j] != name,
        !ctxs[ctxs.len() - 1 - l].locals.contains(name),
        forall|m: int|
            0 <= m < l ==> !(#[trigger] ctxs[ctxs.len() - 1 - m]).args.contains(name) && !ctxs[ctxs.len() - 1
                - m].locals.contains(name),
    ensures
        resolve_from(ctxs, name, level) == Some(Slot::Argument(l, i)),
    decreases l - level,
{
    let ctx = ctxs[ctxs.len() - 1 - level];
    lemma_index_of_from(ctx.locals, name, 0);
    lemma_index_of_from(ctx.args, name, 0);
    if level < l {
        assert(!ctx.args.contains(name));
        assert(!ctx.locals.contains(name));
        if index_of(ctx.locals, name) is Some {
            assert(ctx.locals.contains(name));
        }
        if index_of(ctx.args, name) is Some {
            assert(ctx.args.contains(name));
        }
        lemma_resolve_argument(ctxs, name, level + 1, l, i);
    } else {
        if index_of(ctx.locals, name) is Some {
            assert(ctx.locals.contains(name));
        }
        lemma_index_of_first(ctx.args, name, i, 0);
    }
}

/// A name that is argument `i` (its first occurrence) of the context `l`
/// levels out from the innermost, and is bound neither in a context closer
/// in nor among the locals of that context, is read with
/// `PushArgument(l, i)` and assigned with `PopArgument(l, i)`, the pool
/// unchanged.
pub proof fn law_argument_of_outer_context(env: Env, pool: Seq<ConstantV>, name: Seq<char>, l: int, i: int)
    requires
        0 <= l < env.ctxs.len(),
        l < 256,
        i < 256,
        0 <= i < env.ctxs[env.ctxs.len() - 1 - l].args.len(),
        env.ctxs[env.ctxs.len() - 1 - l].args[i] == name,
        forall|j: int| 0 <= j < i ==> #[trigger] env.ctxs[env.ctxs.len() - 1 - l].args[j] != name,
        !env.ctxs[env.ctxs.len() - 1 - l].locals.contains(name),
        forall|m: int|
            0 <= m < l ==> !(#[trigger] env.ctxs[env.ctxs.len() - 1 - m]).args.contains(name)
                && !env.ctxs[env.ctxs.len() - 1 - m].locals.contains(name),
        name != word_self(),
        name != word_super(),
        name != word_nil(),
        name != word_true(),
        name != word_false(),
    ensures
        read_op(env, pool, name) == (pool, Opcode::PushArgument(l as u8, i as u8)),
        write_op(env, pool, name) == (pool, Opcode::PopArgument(l as u8, i as u8)),
{
    lemma_resolve_argument(env.ctxs, name, 0, l, i);
}


/// A name bound in no context from `level` out to `l`, but among the locals
/// of context `l`, at `i` first, resolves to local `i` of context `l`.
proof fn lemma_resolve_local(ctxs: Seq<CtxV>, name: Seq<char>, level: int, l: int, i: int)
    requires
        0 <= level <= l < ctxs.len(),
        0 <= i < ctxs[ctxs.len() - 1 - l].locals.len(),
        ctxs[ctxs.len() - 1 - l].locals[i] == name,
        forall|j: int| 0 <= j < i ==> #[trigger] ctxs[ctxs.len() - 1 - l].locals[j] != name,
        forall|m: int|
            0 <= m < l ==> !(#[trigger] ctxs[ctxs.len() - 1 - m]).args.contains(name) && !ctxs[ctxs.len() - 1
                - m].locals.contains(name),
    ensures
        resolve_from(ctxs, name, level) == Some(Slot::Local(l, i)),
    decreases l - level,
{
    let ctx = ctxs[ctxs.len() - 1 - level];
    lemma_index_of_from(ctx.locals, name, 0);
    lemma_index_of_from(ctx.args, name, 0);
    if level < l {
        if index_of(ctx.locals, name) is Some {
            assert(ctx.locals.contains(name));
        }
        if index_of(ctx.args, name) is Some {
            assert(ctx.args.contains(name));
        }
        lemma_resolve_local(ctxs, name, level + 1, l, i);
    } else {
        lemma_index_of_first(ctx.locals, name, i, 0);
    }
}

/// A name that is local `i` (its first occurrence) of the context `l`
/// levels out from the innermost, and is bound in no context closer in, is
/// read with `PushLocal(l, i)` and assigned with `PopLocal(l, i)`, the pool
/// unchanged.
pub proof fn law_local_of_outer_context(env: Env, pool: Seq<ConstantV>, name: Seq<char>, l: int, i: int)
    requires
        0 <= l < env.ctxs.len(),
        l < 256,
        i < 256,
        0 <= i < env.ctxs[env.ctxs.len() - 1 - l].locals.len(),
        env.ctxs[env.ctxs.len() - 1 - l].locals[i] == name,
        forall|j: int| 0 <= j < i ==> #[trigger] env.ctxs[env.ctxs.len() - 1 - l].locals[j] != name,
        forall|m: int|
            0 <= m < l ==> !(#[trigger] env.ctxs[env.ctxs.len() - 1 - m]).args.contains(name)
                && !env.ctxs[env.ctxs.len() - 1 - m].locals.contains(name),
        name != word_self(),
        name != word_super(),
        name != word_nil(),
        name != word_true(),
        name != word_false(),
    ensures
        read_op(env, pool, name) == (pool, Opcode::PushLocal(l as u8, i as u8)),
        write_op(env, pool, name) == (pool, Opcode::PopLocal(l as u8, i as u8)),
{
    lemma_resolve_local(env.ctxs, name, 0, l, i);
}

} // verus!

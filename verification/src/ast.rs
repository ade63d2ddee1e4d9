use vstd::prelude::*;

verus! {

/// A class definition as it stands in a `.som` file.
#[derive(Debug)]
pub struct ClassDef {
    pub name: String,
    pub super_class: Option<String>,
    pub instance_fields: Vec<String>,
    pub instance_methods: Vec<MethodDef>,
    pub class_fields: Vec<String>,
    pub class_methods: Vec<MethodDef>,
}

#[derive(Debug)]
pub struct MethodDef {
    pub signature: Signature,
    pub body: MethodBody,
}

/// A method pattern: unary, binary (operator and argument name) or keyword
/// (keyword parts, each with its argument name).
#[derive(Debug)]
pub enum Signature {
    Unary(String),
    Binary(String, String),
    Keyword(Vec<(String, String)>),
}

#[derive(Debug)]
pub enum MethodBody {
    Primitive,
    Block(Block),
}

#[derive(Debug)]
pub struct Block {
    pub parameters: Vec<String>,
    pub locals: Vec<String>,
    pub body: Vec<Expression>,
}

#[derive(Debug)]
pub enum Expression {
    Assignment(String, Box<Expression>),
    Message(Box<Expression>, Message),
    Variable(String),
    Literal(Literal),
    Block(Block),
    Return(Box<Expression>),
}

#[derive(Debug)]
pub enum Message {
    Unary(String),
    Binary(String, Box<Expression>),
    Keyword(Vec<(String, Box<Expression>)>),
}

/// A literal. Numbers keep the text they were written with: an integer is an
/// optional `-` followed by decimal digits, a double additionally holds one `.`.
#[derive(Debug)]
pub enum Literal {
    Integer(String),
    Double(String),
    String(String),
    Symbol(String),
    Array(Vec<Literal>),
}

/// The concatenation of the first components of `parts`.
pub open spec fn join_keywords<T>(parts: Seq<(String, T)>) -> Seq<char>
    decreases parts.len(),
{
    if parts.len() == 0 {
        Seq::empty()
    } else {
        join_keywords(parts.drop_last()) + parts.last().0@
    }
}

impl Signature {
    /// The selector that this pattern defines.
    pub open spec fn spec_selector(&self) -> Seq<char> {
        match self {
            Signature::Unary(s) => s@,
            Signature::Binary(s, _) => s@,
            Signature::Keyword(parts) => join_keywords(parts@),
        }
    }

    /// The names of the arguments, in order.
    pub open spec fn spec_arguments(&self) -> Seq<Seq<char>> {
        match self {
            Signature::Unary(_) => Seq::empty(),
            Signature::Binary(_, a) => seq![a@],
            Signature::Keyword(parts) => parts@.map_values(|p: (String, String)| p.1@),
        }
    }

    pub fn selector(&self) -> (r: String)
        ensures
            r@ == self.spec_selector(),
    {
        match self {
            Signature::Unary(s) => s.clone(),
            Signature::Binary(s, _) => s.clone(),
            Signature::Keyword(parts) => join_keyword_parts(parts),
        }
    }
}

impl Message {
    pub open spec fn spec_selector(&self) -> Seq<char> {
        match self {
            Message::Unary(s) => s@,
            Message::Binary(s, _) => s@,
            Message::Keyword(parts) => join_keywords(parts@),
        }
    }

    pub fn selector(&self) -> (r: String)
        ensures
            r@ == self.spec_selector(),
    {
        match self {
            Message::Unary(s) => s.clone(),
            Message::Binary(s, _) => s.clone(),
            Message::Keyword(parts) => join_keyword_parts(parts),
        }
    }
}

/// Concatenates the keyword parts of a keyword pattern or message.
pub fn join_keyword_parts<T>(parts: &Vec<(String, T)>) -> (r: String)
    ensures
        r@ == join_keywords(parts@),
{
    let mut sel = String::new();
    let mut i: usize = 0;
    while i < parts.len()
        invariant
            i <= parts.len(),
            sel@ == join_keywords(parts@.subrange(0, i as int)),
        decreases parts.len() - i,
    {
        let ghost before = sel@;
        sel.append(parts[i].0.as_str());
        proof {
            let pre = parts@.subrange(0, i + 1);
            assert(pre.drop_last() =~= parts@.subrange(0, i as int));
        }
        i = i + 1;
    }
    assert(parts@.subrange(0, parts.len() as int) =~= parts@);
    sel
}

} // verus!

verus! {

// ---------------------------------------------------------------------------
// Views: the AST with its texts as character sequences
// ---------------------------------------------------------------------------

pub enum LiteralV {
    Integer(Seq<char>),
    Double(Seq<char>),
    String(Seq<char>),
    Symbol(Seq<char>),
    Array(Seq<LiteralV>),
}

pub enum ExprV {
    Assignment(Seq<char>, Box<ExprV>),
    Message(Box<ExprV>, MessageV),
    Variable(Seq<char>),
    Literal(LiteralV),
    Block(BlockV),
    Return(Box<ExprV>),
}

pub enum MessageV {
    Unary(Seq<char>),
    Binary(Seq<char>, Box<ExprV>),
    Keyword(Seq<(Seq<char>, ExprV)>),
}

pub struct BlockV {
    pub parameters: Seq<Seq<char>>,
    pub locals: Seq<Seq<char>>,
    pub body: Seq<ExprV>,
}

pub enum SignatureV {
    Unary(Seq<char>),
    Binary(Seq<char>, Seq<char>),
    Keyword(Seq<(Seq<char>, Seq<char>)>),
}

pub enum MethodBodyV {
    Primitive,
    Block(BlockV),
}

pub struct MethodDefV {
    pub signature: SignatureV,
    pub body: MethodBodyV,
}

pub struct ClassDefV {
    pub name: Seq<char>,
    pub super_class: Option<Seq<char>>,
    pub instance_fields: Seq<Seq<char>>,
    pub instance_methods: Seq<MethodDefV>,
    pub class_fields: Seq<Seq<char>>,
    pub class_methods: Seq<MethodDefV>,
}

pub open spec fn names_view(v: Seq<String>) -> Seq<Seq<char>> {
    v.map_values(|s: String| s@)
}

pub open spec fn literal_view(l: Literal) -> LiteralV
    decreases l, 1nat,
{
    match l {
        Literal::Integer(s) => LiteralV::Integer(s@),
        Literal::Double(s) => LiteralV::Double(s@),
        Literal::String(s) => LiteralV::String(s@),
        Literal::Symbol(s) => LiteralV::Symbol(s@),
        Literal::Array(v) => {
            proof {
                assert(decreases_to!(v => v@));
            }
            LiteralV::Array(literal_views(v@))
        },
    }
}

pub open spec fn literal_views(s: Seq<Literal>) -> Seq<LiteralV>
    decreases s, 0nat,
{
    if s.len() == 0 {
        Seq::empty()
    } else {
        literal_views(s.drop_last()).push(literal_view(s.last()))
    }
}

pub open spec fn expr_view(e: Expression) -> ExprV
    decreases e, 2nat,
{
    match e {
        Expression::Assignment(n, v) => ExprV::Assignment(n@, Box::new(expr_view(*v))),
        Expression::Message(r, m) => ExprV::Message(Box::new(expr_view(*r)), message_view(m)),
        Expression::Variable(n) => ExprV::Variable(n@),
        Expression::Literal(l) => ExprV::Literal(literal_view(l)),
        Expression::Block(b) => ExprV::Block(block_view(b)),
        Expression::Return(x) => ExprV::Return(Box::new(expr_view(*x))),
    }
}

pub open spec fn message_view(m: Message) -> MessageV
    decreases m, 1nat,
{
    match m {
        Message::Unary(s) => MessageV::Unary(s@),
        Message::Binary(s, a) => MessageV::Binary(s@, Box::new(expr_view(*a))),
        Message::Keyword(parts) => {
            proof {
                assert(decreases_to!(parts => parts@));
            }
            MessageV::Keyword(parts_view(parts@))
        },
    }
}

pub open spec fn parts_view(s: Seq<(String, Box<Expression>)>) -> Seq<(Seq<char>, ExprV)>
    decreases s, 0nat,
{
    if s.len() == 0 {
        Seq::empty()
    } else {
        proof {
            assert(decreases_to!(s => s[s.len() - 1]));
        }
        parts_view(s.drop_last()).push((s.last().0@, expr_view(*s.last().1)))
    }
}

pub open spec fn block_view(b: Block) -> BlockV
    decreases b, 1nat,
{
    proof {
        assert(decreases_to!(b => b.body));
        assert(decreases_to!(b.body => b.body@));
    }
    BlockV { parameters: names_view(b.parameters@), locals: names_view(b.locals@), body: exprs_view(b.body@) }
}

pub open spec fn exprs_view(s: Seq<Expression>) -> Seq<ExprV>
    decreases s, 0nat,
{
    if s.len() == 0 {
        Seq::empty()
    } else {
        exprs_view(s.drop_last()).push(expr_view(s.last()))
    }
}

pub open spec fn signature_view(s: Signature) -> SignatureV {
    match s {
        Signature::Unary(n) => SignatureV::Unary(n@),
        Signature::Binary(n, a) => SignatureV::Binary(n@, a@),
        Signature::Keyword(parts) => SignatureV::Keyword(pairs_view(parts@)),
    }
}

pub open spec fn pairs_view(v: Seq<(String, String)>) -> Seq<(Seq<char>, Seq<char>)> {
    v.map_values(|p: (String, String)| (p.0@, p.1@))
}

pub open spec fn methods_view(v: Seq<MethodDef>) -> Seq<MethodDefV> {
    v.map_values(|m: MethodDef| method_view(m))
}

pub open spec fn method_view(m: MethodDef) -> MethodDefV {
    MethodDefV {
        signature: signature_view(m.signature),
        body: match m.body {
            MethodBody::Primitive => MethodBodyV::Primitive,
            MethodBody::Block(b) => MethodBodyV::Block(block_view(b)),
        },
    }
}

pub open spec fn class_view(c: ClassDef) -> ClassDefV {
    ClassDefV {
        name: c.name@,
        super_class: match c.super_class {
            Some(s) => Some(s@),
            None => None,
        },
        instance_fields: names_view(c.instance_fields@),
        instance_methods: methods_view(c.instance_methods@),
        class_fields: names_view(c.class_fields@),
        class_methods: methods_view(c.class_methods@),
    }
}

pub proof fn lemma_exprs_view_push(s: Seq<Expression>, e: Expression)
    ensures
        exprs_view(s.push(e)) == exprs_view(s).push(expr_view(e)),
{
    assert(s.push(e).drop_last() =~= s);
}

pub proof fn lemma_parts_view_push(s: Seq<(String, Box<Expression>)>, p: (String, Box<Expression>))
    ensures
        parts_view(s.push(p)) == parts_view(s).push((p.0@, expr_view(*p.1))),
{
    assert(s.push(p).drop_last() =~= s);
}

pub proof fn lemma_literal_views_push(s: Seq<Literal>, l: Literal)
    ensures
        literal_views(s.push(l)) == literal_views(s).push(literal_view(l)),
{
    assert(s.push(l).drop_last() =~= s);
}

/// A copy of a literal.
pub fn copy_literal(l: &Literal) -> (r: Literal)
    ensures
        literal_view(r) == literal_view(*l),
    decreases l,
{
    match l {
        Literal::Integer(t) => Literal::Integer(t.clone()),
        Literal::Double(t) => Literal::Double(t.clone()),
        Literal::String(t) => Literal::String(t.clone()),
        Literal::Symbol(t) => Literal::Symbol(t.clone()),
        Literal::Array(v) => {
            let mut out: Vec<Literal> = Vec::new();
            let mut i: usize = 0;
            while i < v.len()
                invariant
                    i <= v.len(),
                    *l is Array,
                    (*l)->Array_0 == *v,
                    literal_views(out@) == literal_views(v@.take(i as int)),
                decreases v.len() - i,
            {
                proof {
                    assert(decreases_to!(*l => (*l)->Array_0));
                    assert(decreases_to!((*l)->Array_0 => (*l)->Array_0@));
                    assert(decreases_to!((*l)->Array_0@ => v@[i as int]));
                }
                let x = copy_literal(&v[i]);
                proof {
                    lemma_literal_views_push(out@, x);
                    lemma_literal_views_push(v@.take(i as int), v@[i as int]);
                    assert(v@.take(i + 1) =~= v@.take(i as int).push(v@[i as int]));
                }
                out.push(x);
                i = i + 1;
            }
            assert(v@.take(v.len() as int) =~= v@);
            Literal::Array(out)
        },
    }
}

/// A copy of a list of names.
pub fn copy_names(v: &Vec<String>) -> (r: Vec<String>)
    ensures
        names_view(r@) == names_view(v@),
{
    let mut out: Vec<String> = Vec::new();
    let mut i: usize = 0;
    while i < v.len()
        invariant
            i <= v.len(),
            out@.len() == i,
            forall|j: int| 0 <= j < i ==> #[trigger] out@[j]@ == v@[j]@,
        decreases v.len() - i,
    {
        let x = v[i].clone();
        out.push(x);
        i = i + 1;
    }
    assert(names_view(out@) =~= names_view(v@));
    out
}

/// A copy of an expression.
pub fn copy_expression(e: &Expression) -> (r: Expression)
    ensures
        expr_view(r) == expr_view(*e),
    decreases e,
{
    match e {
        Expression::Assignment(n, v) => Expression::Assignment(n.clone(), Box::new(copy_expression(v))),
        Expression::Message(rcv, m) => Expression::Message(Box::new(copy_expression(rcv)), copy_message(m)),
        Expression::Variable(n) => Expression::Variable(n.clone()),
        Expression::Literal(l) => Expression::Literal(copy_literal(l)),
        Expression::Block(b) => Expression::Block(copy_block(b)),
        Expression::Return(x) => Expression::Return(Box::new(copy_expression(x))),
    }
}

/// A copy of a message.
pub fn copy_message(m: &Message) -> (r: Message)
    ensures
        message_view(r) == message_view(*m),
    decreases m,
{
    match m {
        Message::Unary(t) => Message::Unary(t.clone()),
        Message::Binary(t, a) => Message::Binary(t.clone(), Box::new(copy_expression(a))),
        Message::Keyword(parts) => {
            let mut out: Vec<(String, Box<Expression>)> = Vec::new();
            let mut i: usize = 0;
            while i < parts.len()
                invariant
                    i <= parts.len(),
                    *m is Keyword,
                    (*m)->Keyword_0 == *parts,
                    parts_view(out@) == parts_view(parts@.take(i as int)),
                decreases parts.len() - i,
            {
                proof {
                    assert(decreases_to!(*m => (*m)->Keyword_0));
                    assert(decreases_to!((*m)->Keyword_0 => (*m)->Keyword_0@));
                    assert(decreases_to!((*m)->Keyword_0@ => parts@[i as int]));
                    assert(decreases_to!(parts@[i as int] => parts@[i as int].1));
                }
                let x = copy_expression(&parts[i].1);
                let p = (parts[i].0.clone(), Box::new(x));
                proof {
                    lemma_parts_view_push(out@, p);
                    lemma_parts_view_push(parts@.take(i as int), parts@[i as int]);
                    assert(parts@.take(i + 1) =~= parts@.take(i as int).push(parts@[i as int]));
                }
                out.push(p);
                i = i + 1;
            }
            assert(parts@.take(parts.len() as int) =~= parts@);
            Message::Keyword(out)
        },
    }
}

/// A copy of a block.
pub fn copy_block(b: &Block) -> (r: Block)
    ensures
        block_view(r) == block_view(*b),
    decreases b,
{
    let mut body: Vec<Expression> = Vec::new();
    let mut i: usize = 0;
    while i < b.body.len()
        invariant
            i <= b.body.len(),
            exprs_view(body@) == exprs_view(b.body@.take(i as int)),
        decreases b.body.len() - i,
    {
        proof {
            assert(decreases_to!(b => b.body@[i as int]));
        }
        let x = copy_expression(&b.body[i]);
        proof {
            lemma_exprs_view_push(body@, x);
            lemma_exprs_view_push(b.body@.take(i as int), b.body@[i as int]);
            assert(b.body@.take(i + 1) =~= b.body@.take(i as int).push(b.body@[i as int]));
        }
        body.push(x);
        i = i + 1;
    }
    assert(b.body@.take(b.body.len() as int) =~= b.body@);
    Block { parameters: copy_names(&b.parameters), locals: copy_names(&b.locals), body }
}

/// A copy of a method pattern.
pub fn copy_signature(sig: &Signature) -> (r: Signature)
    ensures
        signature_view(r) == signature_view(*sig),
{
    match sig {
        Signature::Unary(n) => Signature::Unary(n.clone()),
        Signature::Binary(n, a) => Signature::Binary(n.clone(), a.clone()),
        Signature::Keyword(parts) => {
            let mut out: Vec<(String, String)> = Vec::new();
            let mut i: usize = 0;
            while i < parts.len()
                invariant
                    i <= parts.len(),
                    out@.len() == i,
                    forall|j: int| 0 <= j < i ==> #[trigger] out@[j].0@ == parts@[j].0@ && out@[j].1@ == parts@[j].1@,
                decreases parts.len() - i,
            {
                out.push((parts[i].0.clone(), parts[i].1.clone()));
                i = i + 1;
            }
            assert(pairs_view(out@) =~= pairs_view(parts@));
            Signature::Keyword(out)
        },
    }
}

/// A copy of a method definition.
pub fn copy_method_def(m: &MethodDef) -> (r: MethodDef)
    ensures
        method_view(r) == method_view(*m),
{
    let body = match &m.body {
        MethodBody::Primitive => MethodBody::Primitive,
        MethodBody::Block(b) => MethodBody::Block(copy_block(b)),
    };
    MethodDef { signature: copy_signature(&m.signature), body }
}

/// A copy of a list of method definitions.
pub fn copy_method_defs(v: &Vec<MethodDef>) -> (r: Vec<MethodDef>)
    ensures
        methods_view(r@) == methods_view(v@),
{
    let mut out: Vec<MethodDef> = Vec::new();
    let mut i: usize = 0;
    while i < v.len()
        invariant
            i <= v.len(),
            out@.len() == i,
            forall|j: int| 0 <= j < i ==> #[trigger] method_view(out@[j]) == method_view(v@[j]),
        decreases v.len() - i,
    {
        out.push(copy_method_def(&v[i]));
        i = i + 1;
    }
    assert(methods_view(out@) =~= methods_view(v@));
    out
}

/// A copy of a class definition.
pub fn copy_class_def(c: &ClassDef) -> (r: ClassDef)
    ensures
        class_view(r) == class_view(*c),
{
    ClassDef {
        name: c.name.clone(),
        super_class: match &c.super_class {
            Some(n) => Some(n.clone()),
            None => None,
        },
        instance_fields: copy_names(&c.instance_fields),
        instance_methods: copy_method_defs(&c.instance_methods),
        class_fields: copy_names(&c.class_fields),
        class_methods: copy_method_defs(&c.class_methods),
    }
}

} // verus!

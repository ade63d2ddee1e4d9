use vstd::prelude::*;

verus! {

/// The instructions of the stack machine. Levels count lexical contexts
/// outwards from the current one; `u16` operands index the constants (or, for
/// `PushBlock`, the nested blocks) of the method or block being run.
#[derive(Debug, Clone, Copy, PartialEq, Eq, Structural)]
pub enum Opcode {
    Halt,
    Dup,
    PushLocal(u8, u8),
    PushArgument(u8, u8),
    PushField(u16),
    PushBlock(u16),
    PushConstant(u16),
    PushGlobal(u16),
    PushSelf(u8),
    PushNil,
    PushTrue,
    PushFalse,
    Pop,
    PopLocal(u8, u8),
    PopArgument(u8, u8),
    PopField(u16),
    Send(u16),
    SuperSend(u16),
    ReturnLocal,
    ReturnNonLocal,
}

/// An entry of a constant pool. Numbers are kept as decimal text.
#[derive(Debug)]
pub enum Constant {
    Integer(String),
    Double(String),
    String(String),
    Symbol(String),
    Array(Vec<Constant>),
}

/// What a constant stands for, with its texts as character sequences.
pub enum ConstantV {
    Integer(Seq<char>),
    Double(Seq<char>),
    String(Seq<char>),
    Symbol(Seq<char>),
    Array(Seq<ConstantV>),
}

pub open spec fn const_view(c: Constant) -> ConstantV
    decreases c, 0nat,
{
    match c {
        Constant::Integer(s) => ConstantV::Integer(s@),
        Constant::Double(s) => ConstantV::Double(s@),
        Constant::String(s) => ConstantV::String(s@),
        Constant::Symbol(s) => ConstantV::Symbol(s@),
        Constant::Array(v) => ConstantV::Array(const_views(v@)),
    }
}

pub open spec fn const_views(s: Seq<Constant>) -> Seq<ConstantV>
    decreases s, 1nat,
{
    if s.len() == 0 {
        Seq::empty()
    } else {
        const_views(s.drop_last()).push(const_view(s.last()))
    }
}

pub proof fn lemma_const_views(s: Seq<Constant>)
    ensures
        const_views(s).len() == s.len(),
        forall|i: int| 0 <= i < s.len() ==> #[trigger] const_views(s)[i] == const_view(s[i]),
    decreases s.len(),
{
    if s.len() > 0 {
        lemma_const_views(s.drop_last());
    }
}

impl Constant {
    /// Whether two constants are the same value (the pool keeps one copy of each).
    #[verifier::loop_isolation(false)]
    pub fn same_as(&self, other: &Constant) -> (r: bool)
        ensures
            r == (const_view(*self) == const_view(*other)),
        decreases *self,
    {
        match (self, other) {
            (Constant::Integer(a), Constant::Integer(b)) => *a == *b,
            (Constant::Double(a), Constant::Double(b)) => *a == *b,
            (Constant::String(a), Constant::String(b)) => *a == *b,
            (Constant::Symbol(a), Constant::Symbol(b)) => *a == *b,
            (Constant::Array(a), Constant::Array(b)) => {
                proof {
                    lemma_const_views(a@);
                    lemma_const_views(b@);
                }
                if a.len() != b.len() {
                    return false;
                }
                let mut i: usize = 0;
                while i < a.len()
                    invariant
                        i <= a.len(),
                        a.len() == b.len(),
                        const_views(a@).len() == a.len(),
                        const_views(b@).len() == b.len(),
                        forall|k: int| 0 <= k < a@.len() ==> #[trigger] const_views(a@)[k] == const_view(a@[k]),
                        forall|k: int| 0 <= k < b@.len() ==> #[trigger] const_views(b@)[k] == const_view(b@[k]),
                        forall|k: int| 0 <= k < i ==> const_view(a@[k]) == const_view(b@[k]),
                    decreases a.len() - i,
                {
                    proof {
                        assert(decreases_to!(*self => *a));
                        assert(decreases_to!(*a => a@));
                        assert(decreases_to!(a@ => a@[i as int]));
                    }
                    if !a[i].same_as(&b[i]) {
                        assert(const_views(a@)[i as int] != const_views(b@)[i as int]);
                        return false;
                    }
                    i = i + 1;
                }
                assert(const_views(a@) =~= const_views(b@));
                true
            },
            _ => false,
        }
    }

    /// A copy of this constant.
    #[verifier::loop_isolation(false)]
    pub fn duplicate(&self) -> (r: Constant)
        ensures
            const_view(r) == const_view(*self),
        decreases *self,
    {
        match self {
            Constant::Integer(s) => Constant::Integer(s.clone()),
            Constant::Double(s) => Constant::Double(s.clone()),
            Constant::String(s) => Constant::String(s.clone()),
            Constant::Symbol(s) => Constant::Symbol(s.clone()),
            Constant::Array(v) => {
                let mut out: Vec<Constant> = Vec::new();
                let mut i: usize = 0;
                proof {
                    lemma_const_views(v@);
                }
                while i < v.len()
                    invariant
                        i <= v.len(),
                        out@.len() == i,
                        const_views(v@).len() == v.len(),
                        forall|k: int| 0 <= k < v@.len() ==> #[trigger] const_views(v@)[k] == const_view(v@[k]),
                        forall|k: int| 0 <= k < i ==> const_view(#[trigger] out@[k]) == const_view(v@[k]),
                    decreases v.len() - i,
                {
                    proof {
                        assert(decreases_to!(*self => *v));
                        assert(decreases_to!(*v => v@));
                        assert(decreases_to!(v@ => v@[i as int]));
                    }
                    out.push(v[i].duplicate());
                    i = i + 1;
                }
                proof {
                    lemma_const_views(out@);
                    assert(const_views(out@) =~= const_views(v@));
                }
                Constant::Array(out)
            },
        }
    }
}

/// A compiled block: its code, constant pool, nested blocks, and the numbers
/// of its locals and arguments.
#[derive(Debug)]
pub struct CompiledBlock {
    pub bytecodes: Vec<Opcode>,
    pub constants: Vec<Constant>,
    pub blocks: Vec<CompiledBlock>,
    pub num_locals: usize,
    pub num_args: usize,
}

/// A compiled method. `name` and `signature` both hold the selector.
#[derive(Debug)]
pub struct CompiledMethod {
    pub name: String,
    pub is_primitive: bool,
    pub bytecodes: Vec<Opcode>,
    pub constants: Vec<Constant>,
    pub blocks: Vec<CompiledBlock>,
    pub num_locals: usize,
    pub num_args: usize,
    pub signature: String,
}

/// A compiled class. The method tables hold one method per selector.
#[derive(Debug)]
pub struct CompiledClass {
    pub name: String,
    pub super_class: Option<String>,
    pub instance_fields: Vec<String>,
    pub class_fields: Vec<String>,
    pub instance_methods: Vec<CompiledMethod>,
    pub class_methods: Vec<CompiledMethod>,
}

/// A program image: compiled classes, one per name.
#[derive(Debug)]
pub struct Image {
    pub classes: Vec<CompiledClass>,
}

} // verus!

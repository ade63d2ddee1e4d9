//! The state that the interpreter reads while it runs a program: classes,
//! methods, block closures, activations and globals, each kept in a table and
//! referred to by its index there, together with the heap of strings, arrays
//! and objects. The functions here are the interpreter's lookups over that
//! state: variables through the chain of activations, methods through the chain
//! of superclasses, the class of a value, and what a message send runs.
use vstd::prelude::*;
use crate::ast::Block;
use crate::object::{CellV, Heap, HeapCell, Value, ValueV};
use crate::text::{index_of, index_of_from, lemma_index_of_from, position_of, strings_view};

verus! {

/// What a method runs: the statements of its body, the primitive registered
/// under a key, or, for a primitive method with nothing registered for it,
/// nothing (it answers nil).
pub enum MethodCode {
    Ast(Block),
    Primitive(String),
    NilPrimitive,
}

/// A method installed in a class.
pub struct RtMethod {
    pub signature: String,
    /// The class that holds the method.
    pub holder: usize,
    pub parameters: Vec<String>,
    pub body: MethodCode,
}

/// A class: its metaclass, its superclass, the names of the fields of its
/// instances, the values of its own (class-side) fields, its methods by
/// selector, and the order in which its methods are listed.
pub struct RtClass {
    pub name: String,
    pub metaclass: Option<usize>,
    pub super_class: Option<usize>,
    pub instance_fields: Vec<String>,
    pub fields: Vec<Value>,
    pub methods: Vec<(String, usize)>,
    pub method_order: Vec<String>,
}

/// A block closure: its code and the activation it was created in.
pub struct BlockClosure {
    pub body: Block,
    pub context: Option<usize>,
}

/// A call frame: the class holding the running method (none for a block),
/// the receiver, the arguments and locals by name, the lexically enclosing
/// activation, and whether it is still running.
pub struct Activation {
    pub holder: Option<usize>,
    pub self_val: Value,
    pub args: Vec<(String, Value)>,
    pub locals: Vec<(String, Value)>,
    pub parent: Option<usize>,
    pub is_active: bool,
}

/// Everything a running program refers to, the keys (`Class>>selector`)
/// under which primitives are registered, and the text the program has
/// printed, as output and as error output.
pub struct Store {
    pub heap: Heap,
    pub classes: Vec<RtClass>,
    pub methods: Vec<RtMethod>,
    pub blocks: Vec<BlockClosure>,
    pub activations: Vec<Activation>,
    pub globals: Vec<(String, Value)>,
    pub primitives: Vec<String>,
    pub transcript: String,
    pub errors: String,
}

/// A place that holds a variable's value: a local or an argument of an
/// activation, a field of an object, or a field of a class.
pub enum Slot {
    Local(usize, usize),
    Arg(usize, usize),
    ObjectField(usize, usize),
    ClassField(usize, usize),
}

pub struct MethodV {
    pub signature: Seq<char>,
    pub holder: usize,
    pub parameters: Seq<Seq<char>>,
    pub primitive: bool,
    pub locals: Seq<Seq<char>>,
    /// The key of the registered primitive that the method runs, if any.
    pub key: Option<Seq<char>>,
    /// The statements that the method runs, if any.
    pub block: Option<Block>,
}

#[verifier::ext_equal]
pub struct ClassV {
    pub name: Seq<char>,
    pub metaclass: Option<usize>,
    pub super_class: Option<usize>,
    pub instance_fields: Seq<Seq<char>>,
    pub fields: Seq<ValueV>,
    pub methods: Seq<(Seq<char>, usize)>,
    pub method_order: Seq<Seq<char>>,
}

pub struct BlockV {
    pub parameters: Seq<Seq<char>>,
    pub locals: Seq<Seq<char>>,
    pub context: Option<usize>,
    /// The statements the block runs.
    pub statements: Seq<crate::ast::ExprV>,
}

#[verifier::ext_equal]
pub struct ActV {
    pub holder: Option<usize>,
    pub self_val: ValueV,
    pub args: Seq<(Seq<char>, ValueV)>,
    pub locals: Seq<(Seq<char>, ValueV)>,
    pub parent: Option<usize>,
    pub is_active: bool,
}

#[verifier::ext_equal]
pub struct StoreV {
    pub cells: Seq<CellV>,
    pub classes: Seq<ClassV>,
    pub methods: Seq<MethodV>,
    pub blocks: Seq<BlockV>,
    pub acts: Seq<ActV>,
    pub globals: Seq<(Seq<char>, ValueV)>,
    pub primitives: Seq<Seq<char>>,
    /// What the program has printed so far.
    pub transcript: Seq<char>,
    /// What the program has printed so far as error output.
    pub errors: Seq<char>,
}

pub open spec fn entries_view(e: Seq<(String, Value)>) -> Seq<(Seq<char>, ValueV)> {
    e.map_values(|p: (String, Value)| (p.0@, p.1@))
}

pub open spec fn table_view(e: Seq<(String, usize)>) -> Seq<(Seq<char>, usize)> {
    e.map_values(|p: (String, usize)| (p.0@, p.1))
}

/// The names of a table's entries, in order.
pub open spec fn keys<T>(e: Seq<(Seq<char>, T)>) -> Seq<Seq<char>> {
    e.map_values(|p: (Seq<char>, T)| p.0)
}

/// The index of the entry named `name`: the first one of that name, as a
/// map would hold one entry per name.
pub open spec fn entry_index<T>(e: Seq<(Seq<char>, T)>, name: Seq<char>) -> Option<int> {
    index_of(keys(e), name)
}

impl View for RtMethod {
    type V = MethodV;

    open spec fn view(&self) -> MethodV {
        MethodV {
            signature: self.signature@,
            holder: self.holder,
            parameters: strings_view(self.parameters@),
            primitive: !(self.body is Ast),
            locals: match &self.body {
                MethodCode::Ast(b) => strings_view(b.locals@),
                _ => Seq::empty(),
            },
            key: match &self.body {
                MethodCode::Primitive(k) => Some(k@),
                _ => None,
            },
            block: match &self.body {
                MethodCode::Ast(b) => Some(*b),
                _ => None,
            },
        }
    }
}

impl View for RtClass {
    type V = ClassV;

    open spec fn view(&self) -> ClassV {
        ClassV {
            name: self.name@,
            metaclass: self.metaclass,
            super_class: self.super_class,
            instance_fields: strings_view(self.instance_fields@),
            fields: crate::object::values_view(self.fields@),
            methods: table_view(self.methods@),
            method_order: strings_view(self.method_order@),
        }
    }
}

impl View for BlockClosure {
    type V = BlockV;

    open spec fn view(&self) -> BlockV {
        BlockV {
            parameters: strings_view(self.body.parameters@),
            locals: strings_view(self.body.locals@),
            context: self.context,
            statements: crate::ast::exprs_view(self.body.body@),
        }
    }
}

impl View for Activation {
    type V = ActV;

    open spec fn view(&self) -> ActV {
        ActV {
            holder: self.holder,
            self_val: self.self_val@,
            args: entries_view(self.args@),
            locals: entries_view(self.locals@),
            parent: self.parent,
            is_active: self.is_active,
        }
    }
}

impl View for Store {
    type V = StoreV;

    open spec fn view(&self) -> StoreV {
        StoreV {
            cells: self.heap@,
            classes: self.classes@.map_values(|c: RtClass| c@),
            methods: self.methods@.map_values(|m: RtMethod| m@),
            blocks: self.blocks@.map_values(|b: BlockClosure| b@),
            acts: self.activations@.map_values(|a: Activation| a@),
            globals: entries_view(self.globals@),
            primitives: strings_view(self.primitives@),
            transcript: self.transcript@,
            errors: self.errors@,
        }
    }
}

/// The class bound to `name` among the globals.
pub open spec fn global_class(s: StoreV, name: Seq<char>) -> Option<usize> {
    match entry_index(s.globals, name) {
        Some(i) => match s.globals[i].1 {
            ValueV::Class(k) => Some(k),
            _ => None,
        },
        None => None,
    }
}

/// The value bound to `name` among the globals.
pub open spec fn global_value(s: StoreV, name: Seq<char>) -> Option<ValueV> {
    match entry_index(s.globals, name) {
        Some(i) => Some(s.globals[i].1),
        None => None,
    }
}

/// A value refers, if it refers to anything, to an entry of the right table;
/// an object's class is bound among the globals and gives it one field per
/// field name.
pub open spec fn ref_ok(s: StoreV, v: ValueV) -> bool {
    match v {
        ValueV::String(c) => c < s.cells.len(),
        ValueV::Array(c) => c < s.cells.len(),
        ValueV::Object(c) => c < s.cells.len() && match s.cells[c as int] {
            CellV::Object(name, fields) => match global_class(s, name) {
                Some(k) => k < s.classes.len() && fields.len() == s.classes[k as int].instance_fields.len(),
                None => false,
            },
            _ => false,
        },
        ValueV::Class(k) => k < s.classes.len(),
        ValueV::Method(m) => m < s.methods.len(),
        ValueV::Block(b) => b < s.blocks.len(),
        _ => true,
    }
}

/// The chain of superclasses from class `k` ends within `fuel` steps.
pub open spec fn chain_ok(s: StoreV, k: int, fuel: nat) -> bool
    decreases fuel,
{
    &&& 0 <= k < s.classes.len()
    &&& match s.classes[k].super_class {
        None => true,
        Some(sup) => fuel > 0 && chain_ok(s, sup as int, (fuel - 1) as nat),
    }
}

/// A class's metaclass and superclass exist, its chain of superclasses has
/// no cycle, its methods exist, and each listed selector has a method.
pub open spec fn class_ok(s: StoreV, k: int) -> bool {
    let c = s.classes[k];
    &&& c.metaclass matches Some(m) ==> m < s.classes.len()
    &&& chain_ok(s, k, s.classes.len() as nat)
    &&& forall|j: int| 0 <= j < c.methods.len() ==> #[trigger] c.methods[j].1 < s.methods.len()
    &&& forall|j: int| 0 <= j < c.method_order.len() ==> #[trigger] entry_index(c.methods, c.method_order[j]) is Some
}

/// Class `k` has a metaclass, which names the class-side fields, and the
/// class holds one value for each.
pub open spec fn class_fields_ok(s: StoreV, k: int) -> bool {
    match s.classes[k].metaclass {
        Some(m) => m < s.classes.len() && s.classes[k].fields.len() == s.classes[m as int].instance_fields.len(),
        None => false,
    }
}

/// An activation's enclosing activation was made before it; a method's
/// activation whose receiver is a class can reach that class's fields.
pub open spec fn act_ok(s: StoreV, a: int) -> bool {
    let act = s.acts[a];
    &&& act.parent matches Some(p) ==> p < a
    &&& act.holder matches Some(h) ==> h < s.classes.len()
    &&& ref_ok(s, act.self_val)
    &&& act.holder is Some ==> (act.self_val matches ValueV::Class(k) ==> class_fields_ok(s, k as int))
}

impl StoreV {
    pub open spec fn wf(self) -> bool {
        &&& forall|k: int| 0 <= k < self.classes.len() ==> #[trigger] class_ok(self, k)
        &&& forall|m: int| 0 <= m < self.methods.len() ==> #[trigger] self.methods[m].holder < self.classes.len()
        &&& forall|b: int|
            0 <= b < self.blocks.len() ==> (#[trigger] self.blocks[b].context matches Some(a) ==> a
                < self.acts.len())
        &&& forall|a: int| 0 <= a < self.acts.len() ==> #[trigger] act_ok(self, a)
        &&& forall|i: int|
            0 <= i < self.globals.len() ==> (#[trigger] self.globals[i].1 matches ValueV::Class(k) ==> k
                < self.classes.len())
    }
}

/// The activation of the method that `a` runs in: `a` itself or the nearest
/// enclosing activation that has a holder.
pub open spec fn method_act(s: StoreV, a: int) -> Option<int>
    decreases a,
{
    if a < 0 || a >= s.acts.len() {
        None
    } else if s.acts[a].holder is Some {
        Some(a)
    } else {
        match s.acts[a].parent {
            Some(p) => if p < a {
                method_act(s, p as int)
            } else {
                None
            },
            None => None,
        }
    }
}

/// The method that class `k` answers `sel` with: its own, or the one its
/// superclass answers with, looking at most `fuel` superclasses up.
pub open spec fn method_from(s: StoreV, k: int, sel: Seq<char>, fuel: nat) -> Option<usize>
    decreases fuel,
{
    if k < 0 || k >= s.classes.len() {
        None
    } else {
        match entry_index(s.classes[k].methods, sel) {
            Some(j) => Some(s.classes[k].methods[j].1),
            None => match s.classes[k].super_class {
                Some(sup) => if fuel > 0 {
                    method_from(s, sup as int, sel, (fuel - 1) as nat)
                } else {
                    None
                },
                None => None,
            },
        }
    }
}

/// The method that class `k` answers `sel` with: its own, or the one its
/// superclass answers with (the chain of superclasses, having no cycle, is
/// never longer than the number of classes).
pub open spec fn method_in(s: StoreV, k: int, sel: Seq<char>) -> Option<usize> {
    method_from(s, k, sel, s.classes.len() as nat)
}

/// The class of a value: the class bound to the name of its kind, an
/// object's own class, a class's metaclass.
pub open spec fn class_of(s: StoreV, v: ValueV) -> Option<usize> {
    match v {
        ValueV::Integer(_) => global_class(s, "Integer"@),
        ValueV::String(_) => global_class(s, "String"@),
        ValueV::Boolean(b) => if b {
            global_class(s, "True"@)
        } else {
            global_class(s, "False"@)
        },
        ValueV::Nil => global_class(s, "Nil"@),
        ValueV::Double(_) => global_class(s, "Double"@),
        ValueV::Object(c) => match s.cells[c as int] {
            CellV::Object(name, _) => global_class(s, name),
            _ => None,
        },
        ValueV::Array(_) => global_class(s, "Array"@),
        ValueV::Class(k) => s.classes[k as int].metaclass,
        ValueV::Block(_) => global_class(s, "Block"@),
        ValueV::Runtime => global_class(s, "Block"@),
        ValueV::Symbol(_) => global_class(s, "Symbol"@),
        ValueV::Method(m) => if s.methods[m as int].primitive {
            global_class(s, "Primitive"@)
        } else {
            global_class(s, "Method"@)
        },
    }
}

/// The field of `v` named `name`: of an object, among the fields its class
/// names; of a class, among the fields its metaclass names.
pub open spec fn field_slot(s: StoreV, v: ValueV, name: Seq<char>) -> Option<Slot> {
    match v {
        ValueV::Object(c) => match s.cells[c as int] {
            CellV::Object(cn, _) => match global_class(s, cn) {
                Some(k) => match index_of(s.classes[k as int].instance_fields, name) {
                    Some(i) => Some(Slot::ObjectField(c, i as usize)),
                    None => None,
                },
                None => None,
            },
            _ => None,
        },
        ValueV::Class(k) => match s.classes[k as int].metaclass {
            Some(m) => match index_of(s.classes[m as int].instance_fields, name) {
                Some(i) => Some(Slot::ClassField(k, i as usize)),
                None => None,
            },
            None => None,
        },
        _ => None,
    }
}

/// Where variable `name` lives as seen from activation `a`: a local, then an
/// argument of `a`, then (in a method's activation) a field of the receiver,
/// then the same in the enclosing activations.
pub open spec fn var_slot(s: StoreV, name: Seq<char>, a: int) -> Option<Slot>
    decreases a,
{
    if a < 0 || a >= s.acts.len() {
        None
    } else {
        let act = s.acts[a];
        match entry_index(act.locals, name) {
            Some(i) => Some(Slot::Local(a as usize, i as usize)),
            None => match entry_index(act.args, name) {
                Some(i) => Some(Slot::Arg(a as usize, i as usize)),
                None => {
                    let f = if act.holder is Some {
                        field_slot(s, act.self_val, name)
                    } else {
                        None
                    };
                    match f {
                        Some(sl) => Some(sl),
                        None => match act.parent {
                            Some(p) => if p < a {
                                var_slot(s, name, p as int)
                            } else {
                                None
                            },
                            None => None,
                        },
                    }
                },
            },
        }
    }
}

/// The slot exists.
pub open spec fn slot_ok(s: StoreV, slot: Slot) -> bool {
    match slot {
        Slot::Local(a, i) => a < s.acts.len() && i < s.acts[a as int].locals.len(),
        Slot::Arg(a, i) => a < s.acts.len() && i < s.acts[a as int].args.len(),
        Slot::ObjectField(c, i) => c < s.cells.len() && match s.cells[c as int] {
            CellV::Object(_, f) => i < f.len(),
            _ => false,
        },
        Slot::ClassField(k, i) => k < s.classes.len() && i < s.classes[k as int].fields.len(),
    }
}

/// The value held in a slot.
pub open spec fn read_slot(s: StoreV, slot: Slot) -> ValueV {
    match slot {
        Slot::Local(a, i) => s.acts[a as int].locals[i as int].1,
        Slot::Arg(a, i) => s.acts[a as int].args[i as int].1,
        Slot::ObjectField(c, i) => match s.cells[c as int] {
            CellV::Object(_, f) => f[i as int],
            _ => ValueV::Nil,
        },
        Slot::ClassField(k, i) => s.classes[k as int].fields[i as int],
    }
}

/// The store with `v` in the slot, everything else unchanged.
pub open spec fn put_slot(s: StoreV, slot: Slot, v: ValueV) -> StoreV {
    match slot {
        Slot::Local(a, i) => StoreV {
            acts: s.acts.update(
                a as int,
                ActV {
                    locals: s.acts[a as int].locals.update(i as int, (s.acts[a as int].locals[i as int].0, v)),
                    ..s.acts[a as int]
                },
            ),
            ..s
        },
        Slot::Arg(a, i) => StoreV {
            acts: s.acts.update(
                a as int,
                ActV { args: s.acts[a as int].args.update(i as int, (s.acts[a as int].args[i as int].0, v)), ..s.acts[a as int] },
            ),
            ..s
        },
        Slot::ObjectField(c, i) => StoreV {
            cells: s.cells.update(
                c as int,
                match s.cells[c as int] {
                    CellV::Object(n, f) => CellV::Object(n, f.update(i as int, v)),
                    other => other,
                },
            ),
            ..s
        },
        Slot::ClassField(k, i) => StoreV {
            classes: s.classes.update(
                k as int,
                ClassV { fields: s.classes[k as int].fields.update(i as int, v), ..s.classes[k as int] },
            ),
            ..s
        },
    }
}

/// The value of variable `name` as seen from activation `a`: the receiver,
/// the constants `nil`, `true`, `false`, the variable's slot, or else the
/// global of that name.
pub open spec fn lookup_var(s: StoreV, name: Seq<char>, a: int) -> Option<ValueV> {
    if name == "self"@ {
        Some(s.acts[a].self_val)
    } else if name == "nil"@ {
        Some(ValueV::Nil)
    } else if name == "true"@ {
        Some(ValueV::Boolean(true))
    } else if name == "false"@ {
        Some(ValueV::Boolean(false))
    } else {
        match var_slot(s, name, a) {
            Some(sl) => Some(read_slot(s, sl)),
            None => global_value(s, name),
        }
    }
}

/// What a message send runs.
pub enum Dispatch {
    /// The block itself: a `value` message to a block.
    RunBlock(usize),
    /// Nothing: the class of the receiver cannot be found.
    NoClass,
    /// The receiver is the answer: `asInteger` or `round` sent to an integer.
    Receiver,
    /// This method, on the receiver.
    Run(usize),
    /// `doesNotUnderstand:arguments:`, sent to the receiver.
    NotUnderstood,
}

pub open spec fn is_value_selector(sel: Seq<char>) -> bool {
    sel == "value"@ || sel == "value:"@ || sel == "value:with:"@ || sel == "value:with:with:"@
}

/// What sending `sel` to `recv` runs.
pub open spec fn dispatch_of(s: StoreV, recv: ValueV, sel: Seq<char>) -> Dispatch {
    if recv is Block && is_value_selector(sel) {
        Dispatch::RunBlock(recv->Block_0)
    } else {
        match class_of(s, recv) {
            None => Dispatch::NoClass,
            Some(k) => if recv is Integer && (sel == "asInteger"@ || sel == "round"@) {
                Dispatch::Receiver
            } else {
                match method_in(s, k as int, sel) {
                    Some(m) => Dispatch::Run(m),
                    None => Dispatch::NotUnderstood,
                }
            },
        }
    }
}

/// `e` with `name` bound to `v`: the entry of that name given the new value,
/// or a new entry at the end, as inserting into a map does.
pub open spec fn bind(e: Seq<(Seq<char>, ValueV)>, name: Seq<char>, v: ValueV) -> Seq<(Seq<char>, ValueV)> {
    match entry_index(e, name) {
        Some(i) => e.update(i, (name, v)),
        None => e.push((name, v)),
    }
}

/// The first `n` parameters bound, in order, to the arguments in their
/// positions; a parameter without an argument stays unbound.
pub open spec fn bind_args(params: Seq<Seq<char>>, args: Seq<ValueV>, n: nat) -> Seq<(Seq<char>, ValueV)>
    decreases n,
{
    if n == 0 {
        Seq::empty()
    } else {
        let prev = bind_args(params, args, (n - 1) as nat);
        if n - 1 < args.len() {
            bind(prev, params[n - 1], args[n - 1])
        } else {
            prev
        }
    }
}

/// The first `n` names bound, in order, to nil.
pub open spec fn nil_locals(names: Seq<Seq<char>>, n: nat) -> Seq<(Seq<char>, ValueV)>
    decreases n,
{
    if n == 0 {
        Seq::empty()
    } else {
        bind(nil_locals(names, (n - 1) as nat), names[n - 1], ValueV::Nil)
    }
}

/// The activation in which method `m` runs on `recv` with `args`.
pub open spec fn method_activation(s: StoreV, m: int, recv: ValueV, args: Seq<ValueV>) -> ActV {
    let meth = s.methods[m];
    ActV {
        holder: Some(meth.holder),
        self_val: recv,
        args: bind_args(meth.parameters, args, meth.parameters.len()),
        locals: nil_locals(meth.locals, meth.locals.len()),
        parent: None,
        is_active: true,
    }
}

/// The activation in which block `b` runs with `args`: its receiver is the
/// receiver of the activation the block was made in (nil if none), which
/// encloses it.
pub open spec fn block_activation(s: StoreV, b: int, args: Seq<ValueV>) -> ActV {
    let blk = s.blocks[b];
    ActV {
        holder: None,
        self_val: match blk.context {
            Some(c) => s.acts[c as int].self_val,
            None => ValueV::Nil,
        },
        args: bind_args(blk.parameters, args, blk.parameters.len()),
        locals: nil_locals(blk.locals, blk.locals.len()),
        parent: blk.context,
        is_active: true,
    }
}

/// The store with one more activation.
pub open spec fn push_act(s: StoreV, act: ActV) -> StoreV {
    StoreV { acts: s.acts.push(act), ..s }
}

/// The store with activation `a` no longer running.
pub open spec fn deactivate(s: StoreV, a: int) -> StoreV {
    StoreV { acts: s.acts.update(a, ActV { is_active: false, ..s.acts[a] }), ..s }
}

/// How evaluating code ended: with a value, with a return out of the method
/// of activation `.1`, or with a request to run the code again.
pub enum Outcome {
    Value(Value),
    NonLocalReturn(Value, usize),
    Restart,
}

/// Why a `super` send cannot find its method.
#[derive(Debug, Clone, Copy, PartialEq, Eq, Structural)]
pub enum SuperError {
    /// The code does not run inside a method.
    NoMethodActivation,
    /// The class holding the method has no superclass.
    NoSuperclass,
    /// No superclass answers the selector.
    NotFound,
}

/// The method that a `super` send of `sel` from activation `a` runs: the
/// one the superclass of the class holding the running method answers with.
pub open spec fn super_method_of(s: StoreV, a: int, sel: Seq<char>) -> Result<usize, SuperError> {
    match method_act(s, a) {
        None => Err(SuperError::NoMethodActivation),
        Some(ma) => match s.classes[s.acts[ma].holder.unwrap() as int].super_class {
            None => Err(SuperError::NoSuperclass),
            Some(sup) => match method_in(s, sup as int, sel) {
                Some(m) => Ok(m),
                None => Err(SuperError::NotFound),
            },
        },
    }
}

/// Position of the entry named `name` in `e`.
pub fn find_entry<T>(e: &Vec<(String, T)>, name: &String) -> (r: Option<usize>)
    ensures
        match r {
            Some(i) => index_of(e@.map_values(|p: (String, T)| p.0@), name@) == Some(i as int) && i < e@.len(),
            None => index_of(e@.map_values(|p: (String, T)| p.0@), name@) is None,
        },
{
    let ghost ks = e@.map_values(|p: (String, T)| p.0@);
    let mut i: usize = 0;
    while i < e.len()
        invariant
            i <= e.len(),
            ks == e@.map_values(|p: (String, T)| p.0@),
            index_of(ks, name@) == index_of_from(ks, name@, i as int),
        decreases e.len() - i,
    {
        if e[i].0 == *name {
            assert(ks[i as int] == name@);
            return Some(i);
        }
        i = i + 1;
    }
    None
}

pub(crate) proof fn lemma_entry_keys(e: Seq<(String, Value)>)
    ensures
        keys(entries_view(e)) == e.map_values(|p: (String, Value)| p.0@),
{
    assert(keys(entries_view(e)) =~= e.map_values(|p: (String, Value)| p.0@));
}

pub(crate) proof fn lemma_table_keys(e: Seq<(String, usize)>)
    ensures
        keys(table_view(e)) == e.map_values(|p: (String, usize)| p.0@),
{
    assert(keys(table_view(e)) =~= e.map_values(|p: (String, usize)| p.0@));
}

impl Store {
    /// The class bound to `name` among the globals.
    pub fn global_class(&self, name: &String) -> (r: Option<usize>)
        ensures
            r == global_class(self@, name@),
    {
        proof {
            lemma_entry_keys(self.globals@);
        }
        match find_entry(&self.globals, name) {
            Some(i) => {
                assert(self@.globals[i as int].1 == self.globals@[i as int].1@);
                match &self.globals[i].1 {
                    Value::Class(k) => Some(*k),
                    _ => None,
                }
            },
            None => None,
        }
    }

    /// The activation of the method that activation `a` runs in.
    pub fn find_method_activation(&self, a: usize) -> (r: Option<usize>)
        requires
            self@.wf(),
            a < self.activations@.len(),
        ensures
            match r {
                Some(m) => method_act(self@, a as int) == Some(m as int) && m < self.activations@.len(),
                None => method_act(self@, a as int) is None,
            },
    {
        let mut cur = a;
        loop
            invariant
                self@.wf(),
                cur < self.activations@.len(),
                method_act(self@, a as int) == method_act(self@, cur as int),
            decreases cur,
        {
            assert(self@.acts[cur as int] == self.activations@[cur as int]@);
            assert(act_ok(self@, cur as int));
            if self.activations[cur].holder.is_some() {
                return Some(cur);
            }
            match self.activations[cur].parent {
                Some(p) => {
                    cur = p;
                },
                None => {
                    return None;
                },
            }
        }
    }

    /// The method that class `k` answers `selector` with.
    pub fn lookup_method(&self, k: usize, selector: &String) -> (r: Option<usize>)
        requires
            self@.wf(),
            k < self.classes@.len(),
        ensures
            r == method_in(self@, k as int, selector@),
            r matches Some(m) ==> m < self.methods@.len(),
    {
        let mut cur = k;
        let mut fuel: usize = self.classes.len();
        assert(class_ok(self@, k as int));
        loop
            invariant
                self@.wf(),
                cur < self.classes@.len(),
                fuel <= self.classes@.len(),
                chain_ok(self@, cur as int, fuel as nat),
                method_in(self@, k as int, selector@) == method_from(self@, cur as int, selector@, fuel as nat),
            decreases fuel,
        {
            let ghost cv = self@.classes[cur as int];
            assert(cv == self.classes@[cur as int]@);
            assert(class_ok(self@, cur as int));
            proof {
                lemma_table_keys(self.classes@[cur as int].methods@);
            }
            match find_entry(&self.classes[cur].methods, selector) {
                Some(j) => {
                    assert(cv.methods[j as int].1 == self.classes@[cur as int].methods@[j as int].1);
                    assert(cv.methods[j as int].1 < self@.methods.len());
                    return Some(self.classes[cur].methods[j].1);
                },
                None => {},
            }
            match self.classes[cur].super_class {
                Some(sup) => {
                    assert(cv.super_class == Some(sup));
                    assert(chain_ok(self@, sup as int, (fuel - 1) as nat));
                    cur = sup;
                    fuel = fuel - 1;
                },
                None => {
                    return None;
                },
            }
        }
    }
}

impl Store {
    pub(crate) fn field_slot(&self, v: &Value, name: &String) -> (r: Option<Slot>)
        requires
            self@.wf(),
            ref_ok(self@, v@),
            v@ matches ValueV::Class(k) ==> class_fields_ok(self@, k as int),
        ensures
            r == field_slot(self@, v@, name@),
            r matches Some(sl) ==> slot_ok(self@, sl),
    {
        match v {
            Value::Object(c) => {
                let c = *c;
                assert(self@.cells[c as int] == self.heap.cells@[c as int]@);
                match &self.heap.cells[c] {
                    HeapCell::Object { class_name, fields } => match self.global_class(class_name) {
                        Some(k) => {
                            assert(self@.classes[k as int] == self.classes@[k as int]@);
                            match position_of(&self.classes[k].instance_fields, name) {
                                Some(i) => {
                                    proof {
                                        lemma_index_of_from(strings_view(self.classes@[k as int].instance_fields@), name@, 0);
                                    }
                                    Some(Slot::ObjectField(c, i))
                                },
                                None => None,
                            }
                        },
                        None => None,
                    },
                    _ => None,
                }
            },
            Value::Class(k) => {
                let k = *k;
                assert(self@.classes[k as int] == self.classes@[k as int]@);
                assert(class_fields_ok(self@, k as int));
                match self.classes[k].metaclass {
                    Some(m) => {
                        assert(self@.classes[m as int] == self.classes@[m as int]@);
                        match position_of(&self.classes[m].instance_fields, name) {
                            Some(i) => {
                                proof {
                                    lemma_index_of_from(strings_view(self.classes@[m as int].instance_fields@), name@, 0);
                                }
                                Some(Slot::ClassField(k, i))
                            },
                            None => None,
                        }
                    },
                    None => None,
                }
            },
            _ => None,
        }
    }

    /// Where variable `name` lives as seen from activation `a`.
    pub fn find_slot(&self, name: &String, a: usize) -> (r: Option<Slot>)
        requires
            self@.wf(),
            a < self.activations@.len(),
        ensures
            r == var_slot(self@, name@, a as int),
            r matches Some(sl) ==> slot_ok(self@, sl),
    {
        let mut cur = a;
        loop
            invariant
                self@.wf(),
                cur < self.activations@.len(),
                var_slot(self@, name@, a as int) == var_slot(self@, name@, cur as int),
            decreases cur,
        {
            let act = &self.activations[cur];
            assert(self@.acts[cur as int] == act@);
            assert(act_ok(self@, cur as int));
            proof {
                lemma_entry_keys(act.locals@);
                lemma_entry_keys(act.args@);
            }
            match find_entry(&act.locals, name) {
                Some(i) => {
                    return Some(Slot::Local(cur, i));
                },
                None => {},
            }
            match find_entry(&act.args, name) {
                Some(i) => {
                    return Some(Slot::Arg(cur, i));
                },
                None => {},
            }
            if act.holder.is_some() {
                match self.field_slot(&act.self_val, name) {
                    Some(sl) => {
                        return Some(sl);
                    },
                    None => {},
                }
            }
            match act.parent {
                Some(p) => {
                    cur = p;
                },
                None => {
                    return None;
                },
            }
        }
    }

    /// The value held in a slot.
    pub fn read_slot(&self, slot: &Slot) -> (r: Value)
        requires
            slot_ok(self@, *slot),
        ensures
            r@ == read_slot(self@, *slot),
    {
        match slot {
            Slot::Local(a, i) => {
                assert(self@.acts[*a as int] == self.activations@[*a as int]@);
                self.activations[*a].locals[*i].1.copy()
            },
            Slot::Arg(a, i) => {
                assert(self@.acts[*a as int] == self.activations@[*a as int]@);
                self.activations[*a].args[*i].1.copy()
            },
            Slot::ObjectField(c, i) => {
                assert(self@.cells[*c as int] == self.heap.cells@[*c as int]@);
                match &self.heap.cells[*c] {
                    HeapCell::Object { fields, .. } => fields[*i].copy(),
                    _ => {
                        assert(false);
                        Value::Nil
                    },
                }
            },
            Slot::ClassField(k, i) => {
                assert(self@.classes[*k as int] == self.classes@[*k as int]@);
                self.classes[*k].fields[*i].copy()
            },
        }
    }

    /// The value of variable `name` as seen from activation `a`; `None` for
    /// an unknown variable.
    pub fn lookup(&self, name: &String, a: usize) -> (r: Option<Value>)
        requires
            self@.wf(),
            a < self.activations@.len(),
        ensures
            match r {
                Some(v) => lookup_var(self@, name@, a as int) == Some(v@),
                None => lookup_var(self@, name@, a as int) is None,
            },
    {
        if *name == String::from_str("self") {
            assert(self@.acts[a as int] == self.activations@[a as int]@);
            return Some(self.activations[a].self_val.copy());
        }
        if *name == String::from_str("nil") {
            return Some(Value::Nil);
        }
        if *name == String::from_str("true") {
            return Some(Value::Boolean(true));
        }
        if *name == String::from_str("false") {
            return Some(Value::Boolean(false));
        }
        match self.find_slot(name, a) {
            Some(sl) => Some(self.read_slot(&sl)),
            None => {
                proof {
                    lemma_entry_keys(self.globals@);
                }
                match find_entry(&self.globals, name) {
                    Some(i) => {
                        assert(self@.globals[i as int].1 == self.globals@[i as int].1@);
                        Some(self.globals[i].1.copy())
                    },
                    None => None,
                }
            },
        }
    }
}

/// Two stores with the same superclass links agree on which chains of
/// superclasses end.
pub proof fn lemma_chain_transfer(s: StoreV, t: StoreV, k: int, fuel: nat)
    requires
        t.classes.len() == s.classes.len(),
        forall|j: int| 0 <= j < s.classes.len() ==> #[trigger] t.classes[j].super_class == s.classes[j].super_class,
    ensures
        chain_ok(t, k, fuel) == chain_ok(s, k, fuel),
    decreases fuel,
{
    if 0 <= k < s.classes.len() {
        match s.classes[k].super_class {
            Some(sup) => if fuel > 0 {
                lemma_chain_transfer(s, t, sup as int, (fuel - 1) as nat);
            },
            None => {},
        }
    }
}

/// A chain of superclasses that ends keeps ending once classes are added.
pub proof fn lemma_chain_prefix(s: StoreV, t: StoreV, k: int, fuel: nat)
    requires
        t.classes.len() >= s.classes.len(),
        forall|j: int| 0 <= j < s.classes.len() ==> #[trigger] t.classes[j].super_class == s.classes[j].super_class,
        chain_ok(s, k, fuel),
    ensures
        chain_ok(t, k, fuel),
    decreases fuel,
{
    match s.classes[k].super_class {
        Some(sup) => {
            lemma_chain_prefix(s, t, sup as int, (fuel - 1) as nat);
        },
        None => {},
    }
}

/// A chain that ends within some steps ends within more.
pub proof fn lemma_chain_more_fuel(s: StoreV, k: int, fuel: nat, more: nat)
    requires
        chain_ok(s, k, fuel),
        fuel <= more,
    ensures
        chain_ok(s, k, more),
    decreases fuel,
{
    match s.classes[k].super_class {
        Some(sup) => {
            lemma_chain_more_fuel(s, sup as int, (fuel - 1) as nat, (more - 1) as nat);
        },
        None => {},
    }
}

/// Storing into a slot that exists keeps the store well formed.
pub(crate) proof fn lemma_put_keeps_wf(s: StoreV, slot: Slot, v: ValueV)
    requires
        s.wf(),
        slot_ok(s, slot),
    ensures
        put_slot(s, slot, v).wf(),
{
    let t = put_slot(s, slot, v);
    assert(t.globals == s.globals);
    assert forall|n: Seq<char>| #[trigger] global_class(t, n) == global_class(s, n) by {}
    assert forall|x: ValueV| #[trigger] ref_ok(t, x) == ref_ok(s, x) by {
        match x {
            ValueV::Object(c) => {
                if c < s.cells.len() {
                    assert(global_class(t, s.cells[c as int]->Object_0) == global_class(s, s.cells[c as int]->Object_0));
                }
            },
            _ => {},
        }
    }
    assert forall|k: int| 0 <= k < t.classes.len() implies #[trigger] class_ok(t, k) by {
        assert(class_ok(s, k));
        lemma_chain_transfer(s, t, k, s.classes.len() as nat);
    }
    assert forall|a: int| 0 <= a < t.acts.len() implies #[trigger] act_ok(t, a) by {
        assert(act_ok(s, a));
        assert(ref_ok(t, s.acts[a].self_val) == ref_ok(s, s.acts[a].self_val));
        if let ValueV::Class(k) = s.acts[a].self_val {
            if s.acts[a].holder is Some {
                assert(class_fields_ok(s, k as int));
                assert(t.classes[k as int].fields.len() == s.classes[k as int].fields.len());
            }
        }
    }
    assert forall|m: int| 0 <= m < t.methods.len() implies #[trigger] t.methods[m].holder < t.classes.len() by {
        assert(s.methods[m].holder < s.classes.len());
    }
    assert forall|b: int| 0 <= b < t.blocks.len() implies (#[trigger] t.blocks[b].context matches Some(a) ==> a
        < t.acts.len()) by {
        assert(s.blocks[b].context matches Some(a) ==> a < s.acts.len());
    }
    assert forall|i: int| 0 <= i < t.globals.len() implies (#[trigger] t.globals[i].1 matches ValueV::Class(k) ==> k
        < t.classes.len()) by {
        assert(s.globals[i].1 matches ValueV::Class(k) ==> k < s.classes.len());
    }
}

impl Store {
    pub(crate) fn write_slot(&mut self, slot: &Slot, v: Value)
        requires
            slot_ok(old(self)@, *slot),
        ensures
            final(self)@ == put_slot(old(self)@, *slot, v@),
    {
        let ghost s0 = self@;
        match slot {
            Slot::Local(a, i) => {
                let (a, i) = (*a, *i);
                let mut act = Activation {
                    holder: None,
                    self_val: Value::Nil,
                    args: Vec::new(),
                    locals: Vec::new(),
                    parent: None,
                    is_active: false,
                };
                self.activations.set_and_swap(a, &mut act);
                let ghost a0 = act@;
                let mut entry = (String::new(), Value::Nil);
                act.locals.set_and_swap(i, &mut entry);
                let (key, _) = entry;
                act.locals.set(i, (key, v));
                assert(act@.locals =~= a0.locals.update(i as int, (a0.locals[i as int].0, v@)));
                self.activations.set(a, act);
                assert(self@.acts =~= put_slot(s0, *slot, v@).acts);
                assert(self@ =~= put_slot(s0, *slot, v@));
            },
            Slot::Arg(a, i) => {
                let (a, i) = (*a, *i);
                let mut act = Activation {
                    holder: None,
                    self_val: Value::Nil,
                    args: Vec::new(),
                    locals: Vec::new(),
                    parent: None,
                    is_active: false,
                };
                self.activations.set_and_swap(a, &mut act);
                let ghost a0 = act@;
                let mut entry = (String::new(), Value::Nil);
                act.args.set_and_swap(i, &mut entry);
                let (key, _) = entry;
                act.args.set(i, (key, v));
                assert(act@.args =~= a0.args.update(i as int, (a0.args[i as int].0, v@)));
                self.activations.set(a, act);
                assert(self@.acts =~= put_slot(s0, *slot, v@).acts);
                assert(self@ =~= put_slot(s0, *slot, v@));
            },
            Slot::ObjectField(c, i) => {
                let (c, i) = (*c, *i);
                let mut cell = HeapCell::Str(String::new());
                self.heap.cells.set_and_swap(c, &mut cell);
                let updated = match cell {
                    HeapCell::Object { class_name, mut fields } => {
                        let ghost f0 = crate::object::values_view(fields@);
                        fields.set(i, v);
                        assert(crate::object::values_view(fields@) =~= f0.update(i as int, v@));
                        HeapCell::Object { class_name, fields }
                    },
                    other => other,
                };
                self.heap.cells.set(c, updated);
                assert(self@.cells =~= put_slot(s0, *slot, v@).cells);
                assert(self@ =~= put_slot(s0, *slot, v@));
            },
            Slot::ClassField(k, i) => {
                let (k, i) = (*k, *i);
                let mut cls = RtClass {
                    name: String::new(),
                    metaclass: None,
                    super_class: None,
                    instance_fields: Vec::new(),
                    fields: Vec::new(),
                    methods: Vec::new(),
                    method_order: Vec::new(),
                };
                self.classes.set_and_swap(k, &mut cls);
                let ghost c0 = cls@;
                cls.fields.set(i, v);
                assert(cls@.fields =~= c0.fields.update(i as int, v@));
                self.classes.set(k, cls);
                assert(self@.classes =~= put_slot(s0, *slot, v@).classes);
                assert(self@ =~= put_slot(s0, *slot, v@));
            },
        }
    }

    /// Stores `val` in variable `name` as seen from activation `a`, and
    /// answers it; `Err` with the name when no activation of the chain, nor the
    /// receiver of a method in it, has such a variable.
    pub fn assign(&mut self, name: &String, val: Value, a: usize) -> (r: Result<Value, String>)
        requires
            old(self)@.wf(),
            a < old(self).activations@.len(),
        ensures
            final(self)@.wf(),
            final(self)@.acts.len() == old(self)@.acts.len(),
            match var_slot(old(self)@, name@, a as int) {
                Some(sl) => final(self)@ == put_slot(old(self)@, sl, val@) && (r matches Ok(v) && v@ == val@),
                None => final(self)@ == old(self)@ && (r matches Err(n) && n@ == name@),
            },
    {
        match self.find_slot(name, a) {
            Some(sl) => {
                let answer = val.copy();
                proof {
                    lemma_put_keeps_wf(self@, sl, val@);
                }
                self.write_slot(&sl, val);
                Ok(answer)
            },
            None => Err(name.clone()),
        }
    }

    /// The class of a value.
    pub fn class_of(&self, v: &Value) -> (r: Option<usize>)
        requires
            self@.wf(),
            ref_ok(self@, v@),
        ensures
            r == class_of(self@, v@),
            r matches Some(k) ==> k < self.classes@.len(),
    {
        let name = match v {
            Value::Integer(_) => String::from_str("Integer"),
            Value::String(_) => String::from_str("String"),
            Value::Boolean(b) => if *b {
                String::from_str("True")
            } else {
                String::from_str("False")
            },
            Value::Nil => String::from_str("Nil"),
            Value::Double(_) => String::from_str("Double"),
            Value::Object(c) => {
                assert(self@.cells[*c as int] == self.heap.cells@[*c as int]@);
                match &self.heap.cells[*c] {
                    HeapCell::Object { class_name, .. } => class_name.clone(),
                    _ => {
                        return None;
                    },
                }
            },
            Value::Array(_) => String::from_str("Array"),
            Value::Class(k) => {
                assert(self@.classes[*k as int] == self.classes@[*k as int]@);
                assert(class_ok(self@, *k as int));
                return self.classes[*k].metaclass;
            },
            Value::Block(_) | Value::Runtime => String::from_str("Block"),
            Value::Symbol(_) => String::from_str("Symbol"),
            Value::Method(m) => {
                assert(self@.methods[*m as int] == self.methods@[*m as int]@);
                match self.methods[*m].body {
                    MethodCode::Ast(_) => String::from_str("Method"),
                    _ => String::from_str("Primitive"),
                }
            },
        };
        let r = self.global_class(&name);
        proof {
            if r is Some {
                let i = entry_index(self@.globals, name@).unwrap();
                lemma_index_of_from(keys(self@.globals), name@, 0);
                assert(self@.globals[i].1 matches ValueV::Class(k) ==> k < self@.classes.len());
            }
        }
        r
    }

    /// What sending `selector` to `receiver` runs.
    pub fn dispatch_plan(&self, receiver: &Value, selector: &String) -> (r: Dispatch)
        requires
            self@.wf(),
            ref_ok(self@, receiver@),
        ensures
            r == dispatch_of(self@, receiver@, selector@),
    {
        if let Value::Block(b) = receiver {
            if *selector == String::from_str("value") || *selector == String::from_str("value:")
                || *selector == String::from_str("value:with:") || *selector == String::from_str(
                "value:with:with:",
            ) {
                return Dispatch::RunBlock(*b);
            }
        }
        match self.class_of(receiver) {
            None => Dispatch::NoClass,
            Some(k) => {
                if let Value::Integer(_) = receiver {
                    if *selector == String::from_str("asInteger") || *selector == String::from_str("round") {
                        return Dispatch::Receiver;
                    }
                }
                match self.lookup_method(k, selector) {
                    Some(m) => Dispatch::Run(m),
                    None => Dispatch::NotUnderstood,
                }
            },
        }
    }
}

/// Binds `name` to `v` in `e`.
pub(crate) fn bind_entry(e: &mut Vec<(String, Value)>, name: &String, v: Value)
    ensures
        entries_view(final(e)@) == bind(entries_view(old(e)@), name@, v@),
{
    proof {
        lemma_entry_keys(e@);
    }
    let ghost e0 = entries_view(e@);
    match find_entry(e, name) {
        Some(i) => {
            e.set(i, (name.clone(), v));
            assert(entries_view(e@) =~= e0.update(i as int, (name@, v@)));
        },
        None => {
            e.push((name.clone(), v));
            assert(entries_view(e@) =~= e0.push((name@, v@)));
        },
    }
}

/// Binds `params`, in order, to the arguments in their positions.
fn bind_parameters(params: &Vec<String>, args: &Vec<Value>) -> (r: Vec<(String, Value)>)
    ensures
        entries_view(r@) == bind_args(strings_view(params@), crate::object::values_view(args@), params@.len()),
{
    let mut r: Vec<(String, Value)> = Vec::new();
    let mut i: usize = 0;
    while i < params.len()
        invariant
            i <= params.len(),
            entries_view(r@) == bind_args(strings_view(params@), crate::object::values_view(args@), i as nat),
        decreases params.len() - i,
    {
        if i < args.len() {
            assert(strings_view(params@)[i as int] == params@[i as int]@);
            assert(crate::object::values_view(args@)[i as int] == args@[i as int]@);
            bind_entry(&mut r, &params[i], args[i].copy());
        }
        i = i + 1;
    }
    r
}

/// Binds each of `names`, in order, to nil.
fn nil_bindings(names: &Vec<String>) -> (r: Vec<(String, Value)>)
    ensures
        entries_view(r@) == nil_locals(strings_view(names@), names@.len()),
{
    let mut r: Vec<(String, Value)> = Vec::new();
    let mut i: usize = 0;
    while i < names.len()
        invariant
            i <= names.len(),
            entries_view(r@) == nil_locals(strings_view(names@), i as nat),
        decreases names.len() - i,
    {
        assert(strings_view(names@)[i as int] == names@[i as int]@);
        bind_entry(&mut r, &names[i], Value::Nil);
        i = i + 1;
    }
    r
}

/// A store with one more activation, well formed, stays well formed.
proof fn lemma_push_keeps_wf(s: StoreV, act: ActV)
    requires
        s.wf(),
        act.parent matches Some(p) ==> p < s.acts.len(),
        act.holder matches Some(h) ==> h < s.classes.len(),
        ref_ok(s, act.self_val),
        act.holder is Some ==> (act.self_val matches ValueV::Class(k) ==> class_fields_ok(s, k as int)),
    ensures
        push_act(s, act).wf(),
{
    let t = push_act(s, act);
    assert forall|n: Seq<char>| #[trigger] global_class(t, n) == global_class(s, n) by {}
    assert forall|x: ValueV| #[trigger] ref_ok(t, x) == ref_ok(s, x) by {
        match x {
            ValueV::Object(c) => {
                if c < s.cells.len() {
                    assert(global_class(t, s.cells[c as int]->Object_0) == global_class(s, s.cells[c as int]->Object_0));
                }
            },
            _ => {},
        }
    }
    assert forall|k: int| 0 <= k < t.classes.len() implies #[trigger] class_ok(t, k) by {
        assert(class_ok(s, k));
        lemma_chain_transfer(s, t, k, s.classes.len() as nat);
    }
    assert forall|a: int| 0 <= a < t.acts.len() implies #[trigger] act_ok(t, a) by {
        if a < s.acts.len() {
            assert(act_ok(s, a));
            assert(ref_ok(t, s.acts[a].self_val) == ref_ok(s, s.acts[a].self_val));
            if let ValueV::Class(k) = s.acts[a].self_val {
                if s.acts[a].holder is Some {
                    assert(class_fields_ok(s, k as int));
                }
            }
        } else {
            assert(ref_ok(t, act.self_val) == ref_ok(s, act.self_val));
        }
    }
    assert forall|m: int| 0 <= m < t.methods.len() implies #[trigger] t.methods[m].holder < t.classes.len() by {
        assert(s.methods[m].holder < s.classes.len());
    }
    assert forall|b: int| 0 <= b < t.blocks.len() implies (#[trigger] t.blocks[b].context matches Some(a) ==> a
        < t.acts.len()) by {
        assert(s.blocks[b].context matches Some(a) ==> a < s.acts.len());
    }
    assert forall|i: int| 0 <= i < t.globals.len() implies (#[trigger] t.globals[i].1 matches ValueV::Class(k) ==> k
        < t.classes.len()) by {
        assert(s.globals[i].1 matches ValueV::Class(k) ==> k < s.classes.len());
    }
}

impl Store {
    /// Makes the activation in which method `m` runs on `self_val` with
    /// `args`, and answers its index: each parameter is bound to the argument
    /// in its position, where there is one, and each local of the method's
    /// body is nil.
    pub fn enter_method(&mut self, m: usize, self_val: Value, args: &Vec<Value>) -> (r: usize)
        requires
            old(self)@.wf(),
            m < old(self).methods@.len(),
            !old(self)@.methods[m as int].primitive,
            ref_ok(old(self)@, self_val@),
            self_val@ matches ValueV::Class(k) ==> class_fields_ok(old(self)@, k as int),
        ensures
            r == old(self).activations@.len(),
            final(self)@ == push_act(
                old(self)@,
                method_activation(old(self)@, m as int, self_val@, crate::object::values_view(args@)),
            ),
            final(self)@.wf(),
    {
        let ghost s0 = self@;
        assert(s0.methods[m as int] == self.methods@[m as int]@);
        let holder = self.methods[m].holder;
        let arg_map = bind_parameters(&self.methods[m].parameters, args);
        let locals = match &self.methods[m].body {
            MethodCode::Ast(b) => nil_bindings(&b.locals),
            _ => Vec::new(),
        };
        let act = Activation { holder: Some(holder), self_val, args: arg_map, locals, parent: None, is_active: true };
        let ghost av = act@;
        assert(av == method_activation(s0, m as int, self_val@, crate::object::values_view(args@)));
        let r = self.activations.len();
        self.activations.push(act);
        assert(self@.acts =~= s0.acts.push(av));
        assert(self@ =~= push_act(s0, av));
        proof {
            lemma_push_keeps_wf(s0, av);
        }
        r
    }

    /// Makes the activation in which block `b` runs with `args`, and answers
    /// its index.
    pub fn enter_block(&mut self, b: usize, args: &Vec<Value>) -> (r: usize)
        requires
            old(self)@.wf(),
            b < old(self).blocks@.len(),
        ensures
            r == old(self).activations@.len(),
            final(self)@ == push_act(old(self)@, block_activation(old(self)@, b as int, crate::object::values_view(args@))),
            final(self)@.wf(),
    {
        let ghost s0 = self@;
        assert(s0.blocks[b as int] == self.blocks@[b as int]@);
        let context = self.blocks[b].context;
        let self_val = match context {
            Some(c) => {
                assert(s0.acts[c as int] == self.activations@[c as int]@);
                assert(act_ok(s0, c as int));
                self.activations[c].self_val.copy()
            },
            None => Value::Nil,
        };
        let arg_map = bind_parameters(&self.blocks[b].body.parameters, args);
        let locals = nil_bindings(&self.blocks[b].body.locals);
        let act = Activation { holder: None, self_val, args: arg_map, locals, parent: context, is_active: true };
        let ghost av = act@;
        assert(av == block_activation(s0, b as int, crate::object::values_view(args@)));
        let r = self.activations.len();
        self.activations.push(act);
        assert(self@.acts =~= s0.acts.push(av));
        assert(self@ =~= push_act(s0, av));
        proof {
            lemma_push_keeps_wf(s0, av);
        }
        r
    }

    /// Ends the activation `a` of a method, whose body ended with `res`, and
    /// answers what the method answers: the receiver when the body ended
    /// normally, the value of a return out of this method, and otherwise what
    /// the body ended with.
    pub fn finish_method<E>(&mut self, a: usize, res: Result<Outcome, E>) -> (r: Result<Outcome, E>)
        requires
            a < old(self).activations@.len(),
            !(res matches Ok(Outcome::Restart)),
        ensures
            final(self)@ == deactivate(old(self)@, a as int),
            match res {
                Ok(Outcome::Value(_)) => r matches Ok(Outcome::Value(v)) && v@ == old(self)@.acts[a as int].self_val,
                Ok(Outcome::NonLocalReturn(v, t)) => if t == a {
                    r matches Ok(Outcome::Value(w)) && w@ == v@
                } else {
                    r matches Ok(Outcome::NonLocalReturn(w, u)) && w@ == v@ && u == t
                },
                Ok(Outcome::Restart) => false,
                Err(e) => r matches Err(f) && f == e,
            },
    {
        let ghost s0 = self@;
        let mut act = Activation {
            holder: None,
            self_val: Value::Nil,
            args: Vec::new(),
            locals: Vec::new(),
            parent: None,
            is_active: false,
        };
        self.activations.set_and_swap(a, &mut act);
        let ghost a0 = act@;
        act.is_active = false;
        let receiver = act.self_val.copy();
        self.activations.set(a, act);
        assert(self@.acts =~= deactivate(s0, a as int).acts);
        assert(self@ =~= deactivate(s0, a as int));
        match res {
            Ok(Outcome::Value(_)) => Ok(Outcome::Value(receiver)),
            Ok(Outcome::NonLocalReturn(v, t)) => if t == a {
                Ok(Outcome::Value(v))
            } else {
                Ok(Outcome::NonLocalReturn(v, t))
            },
            Ok(Outcome::Restart) => Ok(Outcome::Restart),
            Err(e) => Err(e),
        }
    }

    /// The receiver to send `escapedBlock:` to when a block ended with a
    /// return out of a method that no longer runs; `None` otherwise.
    pub fn escaped_return(&self, res: &Outcome) -> (r: Option<Value>)
        requires
            res matches Outcome::NonLocalReturn(_, t) ==> t < self.activations@.len(),
        ensures
            match res {
                Outcome::NonLocalReturn(_, t) => if self@.acts[*t as int].is_active {
                    r is None
                } else {
                    r matches Some(v) && v@ == self@.acts[*t as int].self_val
                },
                _ => r is None,
            },
    {
        match res {
            Outcome::NonLocalReturn(_, t) => {
                assert(self@.acts[*t as int] == self.activations@[*t as int]@);
                if self.activations[*t].is_active {
                    None
                } else {
                    Some(self.activations[*t].self_val.copy())
                }
            },
            _ => None,
        }
    }

    /// The method that a `super` send of `selector` from activation `a` runs.
    pub fn super_method(&self, a: usize, selector: &String) -> (r: Result<usize, SuperError>)
        requires
            self@.wf(),
            a < self.activations@.len(),
        ensures
            r == super_method_of(self@, a as int, selector@),
            r matches Ok(m) ==> m < self.methods@.len(),
    {
        match self.find_method_activation(a) {
            None => Err(SuperError::NoMethodActivation),
            Some(ma) => {
                assert(self@.acts[ma as int] == self.activations@[ma as int]@);
                assert(act_ok(self@, ma as int));
                proof {
                    lemma_method_act_has_holder(self@, a as int);
                }
                let h = match self.activations[ma].holder {
                    Some(h) => h,
                    None => {
                        proof {
                            assert(false);
                        }
                        return Err(SuperError::NoMethodActivation);
                    },
                };
                assert(self@.classes[h as int] == self.classes@[h as int]@);
                assert(class_ok(self@, h as int));
                assert(self@.classes[h as int].super_class matches Some(sup) ==> chain_ok(self@, sup as int, (self@.classes.len() - 1) as nat));
                match self.classes[h].super_class {
                    None => Err(SuperError::NoSuperclass),
                    Some(sup) => match self.lookup_method(sup, selector) {
                        Some(m) => Ok(m),
                        None => Err(SuperError::NotFound),
                    },
                }
            },
        }
    }
}

/// The activation that `method_act` finds runs a method.
pub proof fn lemma_method_act_has_holder(s: StoreV, a: int)
    ensures
        method_act(s, a) matches Some(m) ==> 0 <= m < s.acts.len() && s.acts[m].holder is Some,
    decreases a,
{
    if 0 <= a < s.acts.len() && s.acts[a].holder is None {
        match s.acts[a].parent {
            Some(p) => if p < a {
                lemma_method_act_has_holder(s, p as int);
            },
            None => {},
        }
    }
}

/// Why the code of a message send ended without a value for it.
#[derive(Debug, Clone, Copy, PartialEq, Eq, Structural)]
pub enum Escape {
    /// A return out of a method escaped the method's scope.
    NonLocalReturn,
    /// A restart escaped the block or method it was meant for.
    Restart,
}

/// The answer of a message send whose code ended with `res`: a return out
/// of a method, or a restart, cannot leave the send.
pub fn outcome_value(res: Outcome) -> (r: Result<Value, Escape>)
    ensures
        match res {
            Outcome::Value(v) => r matches Ok(w) && w@ == v@,
            Outcome::NonLocalReturn(_, _) => r == Err::<Value, Escape>(Escape::NonLocalReturn),
            Outcome::Restart => r == Err::<Value, Escape>(Escape::Restart),
        },
{
    match res {
        Outcome::Value(v) => Ok(v),
        Outcome::NonLocalReturn(_, _) => Err(Escape::NonLocalReturn),
        Outcome::Restart => Err(Escape::Restart),
    }
}

/// Every table, and every table inside an entry, has a length that an index
/// of the machine can reach.
pub open spec fn bounded(s: StoreV) -> bool {
    &&& s.acts.len() <= usize::MAX
    &&& s.cells.len() <= usize::MAX
    &&& s.classes.len() <= usize::MAX
    &&& forall|a: int|
        0 <= a < s.acts.len() ==> #[trigger] s.acts[a].locals.len() <= usize::MAX && s.acts[a].args.len()
            <= usize::MAX
    &&& forall|k: int| 0 <= k < s.classes.len() ==> #[trigger] s.classes[k].instance_fields.len() <= usize::MAX
}

proof fn lemma_field_slot_ok(s: StoreV, v: ValueV, name: Seq<char>)
    requires
        s.wf(),
        bounded(s),
        ref_ok(s, v),
        v matches ValueV::Class(k) ==> class_fields_ok(s, k as int),
    ensures
        field_slot(s, v, name) matches Some(sl) ==> slot_ok(s, sl),
{
    match v {
        ValueV::Object(c) => {
            lemma_index_of_from(s.classes[global_class(s, s.cells[c as int]->Object_0).unwrap() as int].instance_fields, name, 0);
        },
        ValueV::Class(k) => {
            lemma_index_of_from(s.classes[s.classes[k as int].metaclass.unwrap() as int].instance_fields, name, 0);
        },
        _ => {},
    }
}

/// A variable's slot exists.
pub proof fn lemma_var_slot_ok(s: StoreV, name: Seq<char>, a: int)
    requires
        s.wf(),
        bounded(s),
    ensures
        var_slot(s, name, a) matches Some(sl) ==> slot_ok(s, sl),
    decreases a,
{
    if 0 <= a < s.acts.len() {
        let act = s.acts[a];
        assert(act_ok(s, a));
        lemma_index_of_from(keys(act.locals), name, 0);
        lemma_index_of_from(keys(act.args), name, 0);
        if act.holder is Some {
            lemma_field_slot_ok(s, act.self_val, name);
        }
        match act.parent {
            Some(p) => if p < a {
                lemma_var_slot_ok(s, name, p as int);
            },
            None => {},
        }
    }
}

proof fn lemma_put_keeps_keys(e: Seq<(Seq<char>, ValueV)>, i: int, v: ValueV)
    requires
        0 <= i < e.len(),
    ensures
        keys(e.update(i, (e[i].0, v))) == keys(e),
{
    assert(keys(e.update(i, (e[i].0, v))) =~= keys(e));
}

proof fn lemma_put_keeps_field_slot(s: StoreV, slot: Slot, v: ValueV, x: ValueV, name: Seq<char>)
    requires
        s.wf(),
        slot_ok(s, slot),
        ref_ok(s, x),
    ensures
        field_slot(put_slot(s, slot, v), x, name) == field_slot(s, x, name),
{
    let t = put_slot(s, slot, v);
    assert forall|n: Seq<char>| #[trigger] global_class(t, n) == global_class(s, n) by {}
    match x {
        ValueV::Object(c) => {
            match slot {
                Slot::ObjectField(d, i) => if d == c {
                    assert(t.cells[c as int]->Object_0 == s.cells[c as int]->Object_0);
                },
                _ => {},
            }
            let k = global_class(s, s.cells[c as int]->Object_0).unwrap();
            assert(t.classes[k as int].instance_fields == s.classes[k as int].instance_fields);
        },
        ValueV::Class(k) => {
            assert(class_ok(s, k as int));
            assert(t.classes[k as int].metaclass == s.classes[k as int].metaclass);
            match s.classes[k as int].metaclass {
                Some(m) => {
                    assert(t.classes[m as int].instance_fields == s.classes[m as int].instance_fields);
                },
                None => {},
            }
        },
        _ => {},
    }
}

/// Storing into a slot moves no variable: each name lives where it lived.
pub proof fn lemma_put_keeps_var_slot(s: StoreV, slot: Slot, v: ValueV, name: Seq<char>, a: int)
    requires
        s.wf(),
        slot_ok(s, slot),
    ensures
        var_slot(put_slot(s, slot, v), name, a) == var_slot(s, name, a),
    decreases a,
{
    let t = put_slot(s, slot, v);
    if 0 <= a < s.acts.len() {
        assert(act_ok(s, a));
        lemma_put_keeps_field_slot(s, slot, v, s.acts[a].self_val, name);
        match slot {
            Slot::Local(x, i) => if x == a {
                lemma_put_keeps_keys(s.acts[a].locals, i as int, v);
            },
            Slot::Arg(x, i) => if x == a {
                lemma_put_keeps_keys(s.acts[a].args, i as int, v);
            },
            _ => {},
        }
        assert(keys(t.acts[a].locals) == keys(s.acts[a].locals));
        assert(keys(t.acts[a].args) == keys(s.acts[a].args));
        assert forall|n: Seq<char>| #[trigger] global_class(t, n) == global_class(s, n) by {}
        assert(field_slot(t, s.acts[a].self_val, name) == field_slot(s, s.acts[a].self_val, name));
        match s.acts[a].parent {
            Some(p) => if p < a {
                lemma_put_keeps_var_slot(s, slot, v, name, p as int);
            },
            None => {},
        }
    }
}

/// Assigning a variable and then looking it up from the same activation
/// gives the value assigned (for any name but `self`, `nil`, `true` and
/// `false`, which a lookup answers before it looks for a variable).
pub proof fn law_lookup_after_assign(s: StoreV, name: Seq<char>, a: int, v: ValueV)
    requires
        s.wf(),
        bounded(s),
        0 <= a < s.acts.len(),
        var_slot(s, name, a) is Some,
        name != "self"@,
        name != "nil"@,
        name != "true"@,
        name != "false"@,
    ensures
        lookup_var(put_slot(s, var_slot(s, name, a).unwrap(), v), name, a) == Some(v),
{
    let sl = var_slot(s, name, a).unwrap();
    lemma_var_slot_ok(s, name, a);
    lemma_put_keeps_var_slot(s, sl, v, name, a);
}

/// Assigning a variable changes no other variable.
pub proof fn law_assign_keeps_other_slots(s: StoreV, slot: Slot, v: ValueV, other: Slot)
    requires
        s.wf(),
        slot_ok(s, slot),
        slot_ok(s, other),
        other != slot,
    ensures
        read_slot(put_slot(s, slot, v), other) == read_slot(s, other),
{
}

} // verus!

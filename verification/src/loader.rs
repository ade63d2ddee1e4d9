//! Assembling a class definition into the store: the class's metaclass, its
//! fields with the inherited ones, and its methods, each one the primitive
//! registered for it or the code of its definition. Finding the `.som` file
//! and loading the superclass first are left to the caller, which hands over
//! the classes it loaded.
use vstd::prelude::*;
use crate::ast::{block_view, method_view, signature_view, Block, ClassDef, MethodBody, MethodDef, MethodDefV, Signature, SignatureV};
use crate::object::{values_view, CellV, HeapCell, Value, ValueV};
use crate::runtime::{entry_index, global_class, keys, ref_ok, ClassV, MethodCode, MethodV, RtClass, RtMethod, Store, StoreV};
use crate::serialize::nils;
use crate::text::strings_view;
use crate::universe::{injected_spec, selector_v, StubV};

verus! {

/// One method to install: on the class or its metaclass, with a pattern,
/// the statements of its body (none for a primitive), listed in the order
/// of the class's methods or not.
pub struct InstallV {
    pub class_side: bool,
    pub sig: SignatureV,
    pub block: Option<Block>,
    pub listed: bool,
}

/// The names of the arguments of a pattern.
pub open spec fn args_v(s: SignatureV) -> Seq<Seq<char>> {
    match s {
        SignatureV::Unary(_) => Seq::empty(),
        SignatureV::Binary(_, a) => seq![a],
        SignatureV::Keyword(parts) => parts.map_values(|p: (Seq<char>, Seq<char>)| p.1),
    }
}

/// The stubs added before (`after_own` false) or after the class's own
/// methods, in order.
pub open spec fn stub_installs(stubs: Seq<StubV>, after_own: bool) -> Seq<InstallV>
    decreases stubs.len(),
{
    if stubs.len() == 0 {
        Seq::empty()
    } else {
        let rest = stub_installs(stubs.drop_last(), after_own);
        let m = stubs.last();
        if m.after_own == after_own {
            rest.push(InstallV { class_side: m.class_side, sig: m.signature, block: None, listed: m.listed })
        } else {
            rest
        }
    }
}

pub open spec fn def_install(m: MethodDef, class_side: bool) -> InstallV {
    InstallV {
        class_side,
        sig: signature_view(m.signature),
        block: match m.body {
            MethodBody::Block(b) => Some(b),
            MethodBody::Primitive => None,
        },
        listed: true,
    }
}

pub open spec fn def_installs(defs: Seq<MethodDef>, class_side: bool) -> Seq<InstallV> {
    defs.map_values(|m: MethodDef| def_install(m, class_side))
}

/// The methods that assembling `def` installs, in order: the stubs added
/// before the class's own methods, its instance methods, its class methods,
/// the stubs added after them.
pub open spec fn installs_of(def: ClassDef) -> Seq<InstallV> {
    let stubs = injected_spec(def.name@);
    stub_installs(stubs, false) + def_installs(def.instance_methods@, false) + def_installs(def.class_methods@, true)
        + stub_installs(stubs, true)
}

/// The method that `it` becomes in class `holder`: the primitive registered
/// under `holder name>>selector` if there is one; otherwise the statements
/// of its body, or, for a primitive body, a primitive that answers nil.
pub open spec fn assembled_method(s: StoreV, holder: usize, it: InstallV) -> MethodV {
    let sel = selector_v(it.sig);
    let key = s.classes[holder as int].name + ">>"@ + sel;
    let registered = s.primitives.contains(key);
    MethodV {
        signature: sel,
        holder,
        parameters: args_v(it.sig),
        primitive: registered || it.block is None,
        locals: if registered {
            Seq::empty()
        } else {
            match it.block {
                Some(b) => strings_view(b.locals@),
                None => Seq::empty(),
            }
        },
        key: if registered {
            Some(key)
        } else {
            None
        },
        block: if registered {
            None
        } else {
            it.block
        },
    }
}

/// `e` with `name` mapped to `m`: the entry of that name replaced, or a new
/// one added.
pub open spec fn bind_table(e: Seq<(Seq<char>, usize)>, name: Seq<char>, m: usize) -> Seq<(Seq<char>, usize)> {
    match entry_index(e, name) {
        Some(i) => e.update(i, (name, m)),
        None => e.push((name, m)),
    }
}

/// The store with `it` installed in class `cls` or, class-side, in its
/// metaclass `mc`: a new method, the class's table mapping the selector to
/// it, and the selector listed if `it` is.
pub open spec fn install(s: StoreV, cls: usize, mc: usize, it: InstallV) -> StoreV {
    let holder = if it.class_side {
        mc
    } else {
        cls
    };
    let mv = assembled_method(s, holder, it);
    let c = s.classes[holder as int];
    StoreV {
        methods: s.methods.push(mv),
        classes: s.classes.update(
            holder as int,
            ClassV {
                methods: bind_table(c.methods, mv.signature, s.methods.len() as usize),
                method_order: if it.listed {
                    c.method_order.push(mv.signature)
                } else {
                    c.method_order
                },
                ..c
            },
        ),
        ..s
    }
}

/// The store with `items` installed in order.
pub open spec fn install_all(s: StoreV, cls: usize, mc: usize, items: Seq<InstallV>) -> StoreV
    decreases items.len(),
{
    if items.len() == 0 {
        s
    } else {
        install(install_all(s, cls, mc, items.drop_last()), cls, mc, items.last())
    }
}

/// The superclass of the metaclass of a class named `name` with superclass
/// `sup`: `Class` for `Object` and for a class without superclass (or whose
/// superclass has no metaclass), otherwise the superclass's metaclass.
pub open spec fn metaclass_super(s: StoreV, name: Seq<char>, sup: Option<usize>, class_class: usize) -> usize {
    if name == "Object"@ {
        class_class
    } else {
        match sup {
            Some(k) => match s.classes[k as int].metaclass {
                Some(m) => m,
                None => class_class,
            },
            None => class_class,
        }
    }
}

/// The store with the metaclass of `def` added (named after the class, an
/// instance of `metaclass_class`, its fields those of its superclass then the
/// class-side fields of `def`) and class `cls` given that metaclass, the
/// superclass `sup`, the fields of its instances (inherited ones first) and
/// a nil for each class-side field.
pub open spec fn prepared(
    s: StoreV,
    def: ClassDef,
    cls: usize,
    sup: Option<usize>,
    class_class: usize,
    metaclass_class: usize,
) -> StoreV {
    let inherited = match sup {
        Some(k) => s.classes[k as int].instance_fields,
        None => Seq::empty(),
    };
    let mc_super = metaclass_super(s, def.name@, sup, class_class);
    let class_fields = s.classes[mc_super as int].instance_fields + strings_view(def.class_fields@);
    let meta = ClassV {
        name: def.name@ + " class"@,
        metaclass: Some(metaclass_class),
        super_class: Some(mc_super),
        instance_fields: class_fields,
        fields: nils(class_fields.len()),
        methods: Seq::empty(),
        method_order: Seq::empty(),
    };
    let c = s.classes[cls as int];
    let updated = ClassV {
        metaclass: Some(s.classes.len() as usize),
        super_class: sup,
        instance_fields: inherited + strings_view(def.instance_fields@),
        fields: nils(class_fields.len()),
        ..c
    };
    StoreV { classes: s.classes.push(meta).update(cls as int, updated), ..s }
}

/// The store once `def` is assembled into class `cls`.
pub open spec fn assembled(
    s: StoreV,
    def: ClassDef,
    cls: usize,
    sup: Option<usize>,
    class_class: usize,
    metaclass_class: usize,
) -> StoreV {
    install_all(
        prepared(s, def, cls, sup, class_class, metaclass_class),
        cls,
        s.classes.len() as usize,
        installs_of(def),
    )
}

/// The names of the arguments of a pattern, as its view gives them.
pub proof fn lemma_args_v(s: Signature)
    ensures
        args_v(signature_view(s)) == s.spec_arguments(),
{
    match s {
        Signature::Keyword(parts) => {
            assert(args_v(signature_view(s)) =~= s.spec_arguments());
        },
        _ => {},
    }
}

/// Installing `a` then `b` is installing `a + b`.
pub proof fn lemma_install_all_append(s: StoreV, cls: usize, mc: usize, a: Seq<InstallV>, b: Seq<InstallV>)
    ensures
        install_all(s, cls, mc, a + b) == install_all(install_all(s, cls, mc, a), cls, mc, b),
    decreases b.len(),
{
    if b.len() == 0 {
        assert(a + b =~= a);
    } else {
        lemma_install_all_append(s, cls, mc, a, b.drop_last());
        assert((a + b).drop_last() =~= a + b.drop_last());
        assert((a + b).last() == b.last());
    }
}

impl Store {
    /// The method that `def` becomes in class `holder`.
    pub fn assemble_method(&self, def: MethodDef, holder: usize) -> (r: RtMethod)
        requires
            holder < self.classes@.len(),
        ensures
            r@ == assembled_method(self@, holder, def_install(def, false)),
    {
        proof {
            crate::universe::lemma_selector_v(def.signature);
            lemma_args_v(def.signature);
        }
        assert(self@.classes[holder as int] == self.classes@[holder as int]@);
        let signature = def.signature.selector();
        let parameters = crate::universe::method_parameters(&def.signature);
        let key = crate::universe::primitive_key(&self.classes[holder].name, &def.signature);
        let registered = crate::text::contains_string(&self.primitives, &key);
        let body = if registered {
            MethodCode::Primitive(key)
        } else {
            match def.body {
                MethodBody::Primitive => MethodCode::NilPrimitive,
                MethodBody::Block(b) => MethodCode::Ast(b),
            }
        };
        RtMethod { signature, holder, parameters, body }
    }

    /// Installs `def` in class `cls` or, class-side, in its metaclass `mc`.
    fn install(&mut self, cls: usize, mc: usize, class_side: bool, def: MethodDef, listed: bool)
        requires
            cls < old(self).classes@.len(),
            mc < old(self).classes@.len(),
        ensures
            final(self)@ == install(
                old(self)@,
                cls,
                mc,
                InstallV { listed, class_side, ..def_install(def, class_side) },
            ),
            final(self).classes@.len() == old(self).classes@.len(),
    {
        let ghost s0 = self@;
        let ghost it = InstallV { listed, class_side, ..def_install(def, class_side) };
        let holder = if class_side {
            mc
        } else {
            cls
        };
        let m = self.assemble_method(def, holder);
        let ghost mv = m@;
        assert(mv == assembled_method(s0, holder, it));
        let sel = m.signature.clone();
        let index = self.methods.len();
        self.methods.push(m);
        let mut c = RtClass {
            name: String::new(),
            metaclass: None,
            super_class: None,
            instance_fields: Vec::new(),
            fields: Vec::new(),
            methods: Vec::new(),
            method_order: Vec::new(),
        };
        self.classes.set_and_swap(holder, &mut c);
        let ghost c0 = c@;
        assert(c0 == s0.classes[holder as int]);
        proof {
            crate::runtime::lemma_table_keys(c.methods@);
        }
        match crate::runtime::find_entry(&c.methods, &sel) {
            Some(i) => {
                c.methods.set(i, (sel.clone(), index));
                assert(crate::runtime::table_view(c.methods@) =~= bind_table(c0.methods, mv.signature, index));
            },
            None => {
                c.methods.push((sel.clone(), index));
                assert(crate::runtime::table_view(c.methods@) =~= bind_table(c0.methods, mv.signature, index));
            },
        }
        if listed {
            let ghost o0 = c.method_order@;
            c.method_order.push(sel);
            assert(strings_view(c.method_order@) =~= strings_view(o0).push(mv.signature));
        }
        self.classes.set(holder, c);
        assert(self@.methods =~= install(s0, cls, mc, it).methods);
        assert(self@.classes =~= install(s0, cls, mc, it).classes);
        assert(self@ =~= install(s0, cls, mc, it));
    }
}

impl Store {
    /// Installs the stubs that assembling the class named `name` adds before
    /// (`after_own` false) or after its own methods.
    fn install_stubs(&mut self, cls: usize, mc: usize, name: &String, after_own: bool)
        requires
            cls < old(self).classes@.len(),
            mc < old(self).classes@.len(),
        ensures
            final(self)@ == install_all(old(self)@, cls, mc, stub_installs(injected_spec(name@), after_own)),
            final(self).classes@.len() == old(self).classes@.len(),
    {
        let ghost s0 = self@;
        let mut stubs = crate::universe::injected_methods(name);
        let ghost full = crate::universe::stubs_view(stubs@);
        let ghost mut k: int = 0;
        assert(stub_installs(full.take(0), after_own) =~= Seq::<InstallV>::empty());
        while stubs.len() > 0
            invariant
                0 <= k <= full.len(),
                full == injected_spec(name@),
                crate::universe::stubs_view(stubs@) == full.skip(k),
                self@.classes.len() == s0.classes.len(),
                self.classes@.len() == s0.classes.len(),
                cls < s0.classes.len(),
                mc < s0.classes.len(),
                self@ == install_all(s0, cls, mc, stub_installs(full.take(k), after_own)),
            decreases stubs.len(),
        {
            let ghost before = stubs@;
            assert(crate::universe::stubs_view(before).len() == before.len());
            assert(k < full.len());
            assert(crate::universe::stubs_view(before)[0] == full[k]);
            let m = stubs.remove(0);
            assert(crate::universe::stub_view(m) == full[k]);
            assert(crate::universe::stubs_view(stubs@) =~= full.skip(k + 1)) by {
                assert(stubs@ =~= before.subrange(1, before.len() as int));
                assert forall|j: int| 0 <= j < stubs@.len() implies crate::universe::stubs_view(stubs@)[j] == full.skip(k + 1)[j] by {
                    assert(crate::universe::stubs_view(before)[j + 1] == full.skip(k)[j + 1]);
                }
            }
            assert(full.take(k + 1).drop_last() =~= full.take(k));
            assert(full.take(k + 1).last() == full[k]);
            let ghost prev = stub_installs(full.take(k), after_own);
            if m.after_own == after_own {
                let ghost it = InstallV { class_side: m.class_side, sig: full[k].signature, block: None, listed: m.listed };
                assert(stub_installs(full.take(k + 1), after_own) == prev.push(it));
                assert(prev.push(it).drop_last() =~= prev);
                let def = MethodDef { signature: m.signature, body: MethodBody::Primitive };
                proof {
                    assert(InstallV { listed: m.listed, class_side: m.class_side, ..def_install(def, m.class_side) } == it);
                }
                self.install(cls, mc, m.class_side, def, m.listed);
            } else {
                assert(stub_installs(full.take(k + 1), after_own) == prev);
            }
            proof {
                k = k + 1;
            }
        }
        assert(full.take(k) =~= full);
    }

    /// Installs `defs`, in order, in class `cls` or, class-side, in its
    /// metaclass `mc`.
    fn install_defs(&mut self, cls: usize, mc: usize, defs: Vec<MethodDef>, class_side: bool)
        requires
            cls < old(self).classes@.len(),
            mc < old(self).classes@.len(),
        ensures
            final(self)@ == install_all(old(self)@, cls, mc, def_installs(defs@, class_side)),
            final(self).classes@.len() == old(self).classes@.len(),
    {
        let ghost s0 = self@;
        let ghost full = defs@;
        let mut defs = defs;
        let ghost mut k: int = 0;
        assert(def_installs(full.take(0), class_side) =~= Seq::<InstallV>::empty());
        while defs.len() > 0
            invariant
                0 <= k <= full.len(),
                defs@ == full.skip(k),
                self@.classes.len() == s0.classes.len(),
                self.classes@.len() == s0.classes.len(),
                cls < s0.classes.len(),
                mc < s0.classes.len(),
                self@ == install_all(s0, cls, mc, def_installs(full.take(k), class_side)),
            decreases defs.len(),
        {
            let ghost before = defs@;
            let m = defs.remove(0);
            assert(m == full[k]);
            assert(defs@ =~= full.skip(k + 1));
            assert(def_installs(full.take(k + 1), class_side).drop_last() =~= def_installs(full.take(k), class_side));
            assert(def_installs(full.take(k + 1), class_side).last() == def_install(full[k], class_side));
            proof {
                assert(InstallV { listed: true, class_side, ..def_install(m, class_side) } == def_install(m, class_side));
            }
            self.install(cls, mc, class_side, m, true);
            proof {
                k = k + 1;
            }
        }
        assert(full.take(k) =~= full);
    }
}

/// The strings of `a` followed by those of `b`.
fn concat_strings(a: &Vec<String>, b: &Vec<String>) -> (r: Vec<String>)
    ensures
        strings_view(r@) == strings_view(a@) + strings_view(b@),
{
    let mut r = crate::text::copy_strings(a);
    let mut i: usize = 0;
    while i < b.len()
        invariant
            i <= b.len(),
            strings_view(r@) == strings_view(a@) + strings_view(b@).take(i as int),
        decreases b.len() - i,
    {
        let ghost before = strings_view(r@);
        r.push(b[i].clone());
        assert(strings_view(r@) =~= before.push(b@[i as int]@));
        assert(strings_view(b@).take(i + 1) =~= strings_view(b@).take(i as int).push(b@[i as int]@));
        i = i + 1;
    }
    assert(strings_view(b@).take(b@.len() as int) =~= strings_view(b@));
    r
}

/// `n` nils.
fn nil_values(n: usize) -> (r: Vec<Value>)
    ensures
        values_view(r@) == nils(n as nat),
{
    let mut r: Vec<Value> = Vec::new();
    let mut i: usize = 0;
    while i < n
        invariant
            i <= n,
            values_view(r@) =~= nils(i as nat),
        decreases n - i,
    {
        let ghost before = values_view(r@);
        r.push(Value::Nil);
        assert(values_view(r@) =~= before.push(ValueV::Nil));
        assert(values_view(r@) =~= nils((i + 1) as nat));
        i = i + 1;
    }
    r
}

impl Store {
    /// Adds the metaclass of `def` and gives class `cls` that metaclass, the
    /// superclass `sup` and its fields.
    fn prepare(
        &mut self,
        def: &ClassDef,
        cls: usize,
        sup: Option<usize>,
        class_class: usize,
        metaclass_class: usize,
    )
        requires
            old(self)@.wf(),
            cls < old(self).classes@.len(),
            sup matches Some(k) ==> k < old(self).classes@.len(),
            class_class < old(self).classes@.len(),
            metaclass_class < old(self).classes@.len(),
        ensures
            final(self)@ == prepared(old(self)@, *def, cls, sup, class_class, metaclass_class),
            final(self).classes@.len() == old(self).classes@.len() + 1,
    {
        let ghost s0 = self@;
        let inherited: Vec<String> = match sup {
            Some(k) => {
                assert(s0.classes[k as int] == self.classes@[k as int]@);
                crate::text::copy_strings(&self.classes[k].instance_fields)
            },
            None => Vec::new(),
        };
        assert(sup is None ==> strings_view(inherited@) =~= Seq::<Seq<char>>::empty());
        let instance_fields = concat_strings(&inherited, &def.instance_fields);
        let mc_super = if def.name == String::from_str("Object") {
            class_class
        } else {
            match sup {
                Some(k) => {
                    assert(s0.classes[k as int] == self.classes@[k as int]@);
                    assert(crate::runtime::class_ok(s0, k as int));
                    match self.classes[k].metaclass {
                        Some(m) => m,
                        None => class_class,
                    }
                },
                None => class_class,
            }
        };
        assert(mc_super == metaclass_super(s0, def.name@, sup, class_class));
        assert(s0.classes[mc_super as int] == self.classes@[mc_super as int]@);
        let class_fields = concat_strings(&self.classes[mc_super].instance_fields, &def.class_fields);
        let n = class_fields.len();
        let mut mc_name = def.name.clone();
        mc_name.append(" class");
        let meta = RtClass {
            name: mc_name,
            metaclass: Some(metaclass_class),
            super_class: Some(mc_super),
            instance_fields: class_fields,
            fields: nil_values(n),
            methods: Vec::new(),
            method_order: Vec::new(),
        };
        let ghost meta_v = meta@;
        assert(crate::runtime::table_view(meta.methods@) =~= Seq::<(Seq<char>, usize)>::empty());
        assert(strings_view(meta.method_order@) =~= Seq::<Seq<char>>::empty());
        let mc = self.classes.len();
        self.classes.push(meta);
        let mut c = RtClass {
            name: String::new(),
            metaclass: None,
            super_class: None,
            instance_fields: Vec::new(),
            fields: Vec::new(),
            methods: Vec::new(),
            method_order: Vec::new(),
        };
        self.classes.set_and_swap(cls, &mut c);
        let ghost c0 = c@;
        assert(c0 == s0.classes[cls as int]);
        c.metaclass = Some(mc);
        c.super_class = sup;
        c.instance_fields = instance_fields;
        c.fields = nil_values(n);
        self.classes.set(cls, c);
        let ghost want = prepared(s0, *def, cls, sup, class_class, metaclass_class);
        assert(self@.classes =~= want.classes);
        assert(self@ =~= want);
    }

    /// Assembles `def` into class `cls`, whose superclass `sup` (if any) and
    /// the classes `Class` and `Metaclass` are already in the store: adds the
    /// metaclass, gives the class its metaclass, superclass and fields, then
    /// installs the methods that `installs_of` lists.
    pub fn assemble_class_into(
        &mut self,
        def: ClassDef,
        cls: usize,
        sup: Option<usize>,
        class_class: usize,
        metaclass_class: usize,
    )
        requires
            old(self)@.wf(),
            cls < old(self).classes@.len(),
            sup matches Some(k) ==> k < old(self).classes@.len(),
            class_class < old(self).classes@.len(),
            metaclass_class < old(self).classes@.len(),
        ensures
            final(self)@ == assembled(old(self)@, def, cls, sup, class_class, metaclass_class),
    {
        let ghost s0 = self@;
        let mc = self.classes.len();
        self.prepare(&def, cls, sup, class_class, metaclass_class);
        let ghost p = self@;
        let ClassDef { name, super_class: _, instance_fields: _, instance_methods, class_fields: _, class_methods } = def;
        let ghost stubs = injected_spec(name@);
        let ghost a = stub_installs(stubs, false);
        let ghost b = def_installs(instance_methods@, false);
        let ghost c = def_installs(class_methods@, true);
        let ghost d = stub_installs(stubs, true);
        self.install_stubs(cls, mc, &name, false);
        self.install_defs(cls, mc, instance_methods, false);
        self.install_defs(cls, mc, class_methods, true);
        self.install_stubs(cls, mc, &name, true);
        proof {
            lemma_install_all_append(p, cls, mc, a, b);
            lemma_install_all_append(p, cls, mc, a + b, c);
            lemma_install_all_append(p, cls, mc, a + b + c, d);
            assert(installs_of(def) == a + b + c + d);
        }
    }
}

/// The store a program starts with: the class `Metaclass`, bound to its name,
/// as its own metaclass, and the given primitives registered.
pub open spec fn initial(primitives: Seq<Seq<char>>) -> StoreV {
    StoreV {
        cells: Seq::empty(),
        classes: seq![
            ClassV {
                name: "Metaclass"@,
                metaclass: Some(0),
                super_class: None,
                instance_fields: Seq::empty(),
                fields: Seq::empty(),
                methods: Seq::empty(),
                method_order: Seq::empty(),
            },
        ],
        methods: Seq::empty(),
        blocks: Seq::empty(),
        acts: Seq::empty(),
        globals: seq![("Metaclass"@, ValueV::Class(0))],
        primitives,
        transcript: Seq::empty(),
        errors: Seq::empty(),
    }
}

/// The store with a primitive registered under `key`.
pub open spec fn with_primitive(s: StoreV, key: Seq<char>) -> StoreV {
    StoreV {
        primitives: if s.primitives.contains(key) {
            s.primitives
        } else {
            s.primitives.push(key)
        },
        ..s
    }
}

impl Store {
    /// A new store, with the primitives registered under `primitives`.
    pub fn new(primitives: Vec<String>) -> (r: Store)
        ensures
            r@ == initial(strings_view(primitives@)),
            r@.wf(),
    {
        let metaclass = RtClass {
            name: String::from_str("Metaclass"),
            metaclass: Some(0),
            super_class: None,
            instance_fields: Vec::new(),
            fields: Vec::new(),
            methods: Vec::new(),
            method_order: Vec::new(),
        };
        let r = Store {
            heap: crate::object::Heap { cells: Vec::new() },
            classes: vec![metaclass],
            methods: Vec::new(),
            blocks: Vec::new(),
            activations: Vec::new(),
            globals: vec![(String::from_str("Metaclass"), Value::Class(0))],
            primitives,
            transcript: String::new(),
            errors: String::new(),
        };
        let ghost want = initial(strings_view(primitives@));
        assert(r@.cells =~= want.cells);
        assert(r@.classes[0].methods =~= Seq::<(Seq<char>, usize)>::empty());
        assert(r@.classes[0].method_order =~= Seq::<Seq<char>>::empty());
        assert(r@.classes[0].instance_fields =~= Seq::<Seq<char>>::empty());
        assert(r@.classes[0].fields =~= Seq::<ValueV>::empty());
        assert(r@.classes =~= want.classes);
        assert(r@.methods =~= want.methods);
        assert(r@.blocks =~= want.blocks);
        assert(r@.acts =~= want.acts);
        assert(r@.globals =~= want.globals);
        assert(r@ =~= want);
        proof {
            assert(crate::runtime::chain_ok(r@, 0, 1));
            assert(crate::runtime::class_ok(r@, 0));
            assert(keys(r@.globals) =~= seq!["Metaclass"@]);
        }
        r
    }

    /// Registers a primitive for `method_name` of class `class_name`.
    pub fn register_primitive(&mut self, class_name: &String, method_name: &String)
        ensures
            final(self)@ == with_primitive(old(self)@, class_name@ + ">>"@ + method_name@),
    {
        let mut key = class_name.clone();
        key.append(">>");
        key.append(method_name.as_str());
        if !crate::text::contains_string(&self.primitives, &key) {
            let ghost before = self@;
            self.primitives.push(key);
            assert(self@.primitives =~= before.primitives.push(key@));
            assert(self@ =~= with_primitive(before, key@));
        }
    }
}

/// Class `cls` maps `sel` to a method that it holds and that has that selector.
pub open spec fn answers(s: StoreV, cls: usize, sel: Seq<char>) -> bool {
    match entry_index(s.classes[cls as int].methods, sel) {
        Some(j) => {
            let m = s.classes[cls as int].methods[j].1;
            &&& m < s.methods.len()
            &&& s.methods[m as int].holder == cls
            &&& s.methods[m as int].signature == sel
        },
        None => false,
    }
}

proof fn lemma_index_of_push(ks: Seq<Seq<char>>, x: Seq<char>, k: Seq<char>, i: int)
    requires
        0 <= i <= ks.len(),
    ensures
        crate::text::index_of_from(ks.push(x), k, i) == match crate::text::index_of_from(ks, k, i) {
            Some(j) => Some(j),
            None => if k == x {
                Some(ks.len() as int)
            } else {
                None
            },
        },
    decreases ks.len() - i,
{
    if i < ks.len() {
        assert(ks.push(x)[i] == ks[i]);
        lemma_index_of_push(ks, x, k, i + 1);
    } else {
        assert(ks.push(x)[i] == x);
        assert(crate::text::index_of_from(ks.push(x), k, i + 1) is None);
    }
}

/// Binding a selector in a table keeps every other selector's entry.
proof fn lemma_bind_table(e: Seq<(Seq<char>, usize)>, n: Seq<char>, m: usize, k: Seq<char>)
    ensures
        k == n ==> (entry_index(bind_table(e, n, m), k) matches Some(j) && bind_table(e, n, m)[j].1 == m),
        k != n ==> entry_index(bind_table(e, n, m), k) == entry_index(e, k),
        k != n ==> (entry_index(e, k) matches Some(j) ==> bind_table(e, n, m)[j] == e[j]),
{
    crate::text::lemma_index_of_from(keys(e), n, 0);
    crate::text::lemma_index_of_from(keys(e), k, 0);
    match entry_index(e, n) {
        Some(i) => {
            assert(keys(e.update(i, (n, m))) =~= keys(e));
        },
        None => {
            assert(keys(e.push((n, m))) =~= keys(e).push(n));
            lemma_index_of_push(keys(e), n, k, 0);
        },
    }
}

/// Installing a method keeps what class `cls` answers.
proof fn lemma_install_keeps(s: StoreV, cls: usize, mc: usize, it: InstallV, sel: Seq<char>)
    requires
        answers(s, cls, sel),
        cls != mc,
        cls < s.classes.len(),
        mc < s.classes.len(),
        s.methods.len() < usize::MAX,
    ensures
        answers(install(s, cls, mc, it), cls, sel),
{
    let t = install(s, cls, mc, it);
    let holder = if it.class_side { mc } else { cls };
    let mv = assembled_method(s, holder, it);
    let n = s.methods.len() as usize;
    assert(t.methods == s.methods.push(mv));
    let j0 = entry_index(s.classes[cls as int].methods, sel).unwrap();
    crate::text::lemma_index_of_from(keys(s.classes[cls as int].methods), sel, 0);
    let m0 = s.classes[cls as int].methods[j0].1;
    assert(t.methods[m0 as int] == s.methods[m0 as int]);
    if holder == cls {
        lemma_bind_table(s.classes[cls as int].methods, mv.signature, n, sel);
        if sel == mv.signature {
            assert(t.methods[n as int] == mv);
        }
    } else {
        assert(t.classes[cls as int] == s.classes[cls as int]);
    }
}

/// Installing an instance-side method makes class `cls` answer its selector.
proof fn lemma_install_gives(s: StoreV, cls: usize, mc: usize, it: InstallV)
    requires
        !it.class_side,
        cls < s.classes.len(),
        mc < s.classes.len(),
        s.methods.len() < usize::MAX,
    ensures
        answers(install(s, cls, mc, it), cls, selector_v(it.sig)),
{
    let mv = assembled_method(s, cls, it);
    let t = install(s, cls, mc, it);
    lemma_bind_table(s.classes[cls as int].methods, mv.signature, s.methods.len() as usize, mv.signature);
    assert(t.methods[s.methods.len() as int] == mv);
}

proof fn lemma_install_all_keeps(s: StoreV, cls: usize, mc: usize, items: Seq<InstallV>, sel: Seq<char>)
    requires
        answers(s, cls, sel),
        cls != mc,
        cls < s.classes.len(),
        mc < s.classes.len(),
        s.methods.len() + items.len() < usize::MAX,
    ensures
        answers(install_all(s, cls, mc, items), cls, sel),
        install_all(s, cls, mc, items).classes.len() == s.classes.len(),
        install_all(s, cls, mc, items).methods.len() == s.methods.len() + items.len(),
    decreases items.len(),
{
    if items.len() > 0 {
        lemma_install_all_keeps(s, cls, mc, items.drop_last(), sel);
        lemma_install_all_sizes(s, cls, mc, items.drop_last());
        lemma_install_keeps(install_all(s, cls, mc, items.drop_last()), cls, mc, items.last(), sel);
    }
}

proof fn lemma_install_all_sizes(s: StoreV, cls: usize, mc: usize, items: Seq<InstallV>)
    requires
        cls < s.classes.len(),
        mc < s.classes.len(),
    ensures
        install_all(s, cls, mc, items).classes.len() == s.classes.len(),
        install_all(s, cls, mc, items).methods.len() == s.methods.len() + items.len(),
    decreases items.len(),
{
    if items.len() > 0 {
        lemma_install_all_sizes(s, cls, mc, items.drop_last());
    }
}

/// Once a class definition is assembled, the class answers the selector of
/// each of its instance methods with a method of its own that has that
/// selector.
pub proof fn law_assembled_class_answers_its_methods(
    s: StoreV,
    def: ClassDef,
    cls: usize,
    sup: Option<usize>,
    class_class: usize,
    metaclass_class: usize,
    i: int,
)
    requires
        cls < s.classes.len(),
        s.classes.len() < usize::MAX,
        s.methods.len() + installs_of(def).len() < usize::MAX,
        0 <= i < def.instance_methods@.len(),
    ensures
        answers(
            assembled(s, def, cls, sup, class_class, metaclass_class),
            cls,
            def.instance_methods@[i].signature.spec_selector(),
        ),
{
    let p = prepared(s, def, cls, sup, class_class, metaclass_class);
    let mc = s.classes.len() as usize;
    let stubs = injected_spec(def.name@);
    let a = stub_installs(stubs, false);
    let b = def_installs(def.instance_methods@, false);
    let rest = b.skip(i + 1) + def_installs(def.class_methods@, true) + stub_installs(stubs, true);
    let before = a + b.take(i);
    let it = b[i];
    assert(installs_of(def) =~= before.push(it) + rest);
    lemma_install_all_sizes(p, cls, mc, before);
    let q = install_all(p, cls, mc, before);
    assert(before.push(it).drop_last() =~= before);
    lemma_install_gives(q, cls, mc, it);
    crate::universe::lemma_selector_v(def.instance_methods@[i].signature);
    lemma_install_all_keeps(install(q, cls, mc, it), cls, mc, rest, selector_v(it.sig));
    lemma_install_all_append(p, cls, mc, before.push(it), rest);
}

/// What loading a class by name starts with.
pub enum LoadStep {
    /// The class is loaded already.
    Loaded(usize),
    /// The class's definition is to be found and assembled into this class.
    Assemble(usize),
}

/// An empty class named `name`, which stands for it while it is loaded.
pub open spec fn stub_class(name: Seq<char>) -> ClassV {
    ClassV {
        name,
        metaclass: None,
        super_class: None,
        instance_fields: Seq::empty(),
        fields: Seq::empty(),
        methods: Seq::empty(),
        method_order: Seq::empty(),
    }
}

/// Loading the class `name`: the class bound to that name is loaded, unless
/// it is `Metaclass` still as a new store has it (a metaclass of its own, no
/// superclass, no methods), which is assembled into; with no class bound to
/// the name, an empty class is added, bound to it, and assembled into.
pub open spec fn load_step(s: StoreV, name: Seq<char>) -> (LoadStep, StoreV) {
    match global_class(s, name) {
        Some(k) => {
            let c = s.classes[k as int];
            if name == "Metaclass"@ && c.metaclass is Some && c.super_class is None && c.methods.len() == 0 {
                (LoadStep::Assemble(k), s)
            } else {
                (LoadStep::Loaded(k), s)
            }
        },
        None => {
            let k = s.classes.len() as usize;
            (
                LoadStep::Assemble(k),
                StoreV {
                    classes: s.classes.push(stub_class(name)),
                    globals: crate::runtime::bind(s.globals, name, ValueV::Class(k)),
                    ..s
                },
            )
        },
    }
}

impl Store {
    /// The start of loading the class `name`.
    pub fn class_to_load(&mut self, name: &String) -> (r: LoadStep)
        requires
            old(self)@.wf(),
        ensures
            (r, final(self)@) == load_step(old(self)@, name@),
            final(self)@.wf(),
            match r {
                LoadStep::Loaded(k) => k < final(self).classes@.len(),
                LoadStep::Assemble(k) => k < final(self).classes@.len(),
            },
    {
        let ghost s0 = self@;
        match self.global_class(name) {
            Some(k) => {
                proof {
                    let i = entry_index(s0.globals, name@).unwrap();
                    crate::text::lemma_index_of_from(keys(s0.globals), name@, 0);
                    assert(s0.globals[i].1 matches ValueV::Class(j) ==> j < s0.classes.len());
                }
                assert(s0.classes[k as int] == self.classes@[k as int]@);
                let c = &self.classes[k];
                if *name == String::from_str("Metaclass") && c.metaclass.is_some() && c.super_class.is_none()
                    && c.methods.len() == 0 {
                    LoadStep::Assemble(k)
                } else {
                    LoadStep::Loaded(k)
                }
            },
            None => {
                let k = self.classes.len();
                let stub = RtClass {
                    name: name.clone(),
                    metaclass: None,
                    super_class: None,
                    instance_fields: Vec::new(),
                    fields: Vec::new(),
                    methods: Vec::new(),
                    method_order: Vec::new(),
                };
                assert(stub@ =~= stub_class(name@));
                self.classes.push(stub);
                crate::runtime::bind_entry(&mut self.globals, name, Value::Class(k));
                let ghost t = self@;
                let ghost want = load_step(s0, name@).1;
                assert(t.classes =~= want.classes);
                assert(t =~= want);
                proof {
                    lemma_load_keeps_wf(s0, name@);
                }
                LoadStep::Assemble(k)
            },
        }
    }
}

/// Adding a class for a name bound to no class keeps the store well formed.
proof fn lemma_load_keeps_wf(s: StoreV, name: Seq<char>)
    requires
        s.wf(),
        global_class(s, name) is None,
    ensures
        load_step(s, name).1.wf(),
{
    let t = load_step(s, name).1;
    let k = s.classes.len() as usize;
    let e = s.globals;
    crate::text::lemma_index_of_from(keys(e), name, 0);
    assert forall|n: Seq<char>| n != name implies #[trigger] global_class(t, n) == global_class(s, n) by {
        match entry_index(e, name) {
            Some(i) => {
                assert(keys(e.update(i, (name, ValueV::Class(k)))) =~= keys(e));
            },
            None => {
                assert(keys(e.push((name, ValueV::Class(k)))) =~= keys(e).push(name));
                lemma_index_of_push(keys(e), name, n, 0);
            },
        }
        crate::text::lemma_index_of_from(keys(e), n, 0);
    }
    assert forall|x: ValueV| ref_ok(s, x) implies #[trigger] ref_ok(t, x) by {
        match x {
            ValueV::Object(c) => {
                let n = s.cells[c as int]->Object_0;
                if n == name {
                    assert(false);
                }
            },
            _ => {},
        }
    }
    assert forall|j: int| 0 <= j < t.classes.len() implies #[trigger] crate::runtime::class_ok(t, j) by {
        if j < s.classes.len() {
            assert(crate::runtime::class_ok(s, j));
            crate::runtime::lemma_chain_prefix(s, t, j, s.classes.len() as nat);
            crate::runtime::lemma_chain_more_fuel(t, j, s.classes.len() as nat, t.classes.len() as nat);
        } else {
            assert(crate::runtime::chain_ok(t, j, t.classes.len() as nat));
        }
    }
    assert forall|a: int| 0 <= a < t.acts.len() implies #[trigger] crate::runtime::act_ok(t, a) by {
        assert(crate::runtime::act_ok(s, a));
    }
    assert forall|m: int| 0 <= m < t.methods.len() implies #[trigger] t.methods[m].holder < t.classes.len() by {
        assert(s.methods[m].holder < s.classes.len());
    }
    assert forall|b: int| 0 <= b < t.blocks.len() implies (#[trigger] t.blocks[b].context matches Some(a) ==> a
        < t.acts.len()) by {
        assert(s.blocks[b].context matches Some(a) ==> a < s.acts.len());
    }
    assert forall|i: int| 0 <= i < t.globals.len() implies (#[trigger] t.globals[i].1 matches ValueV::Class(j) ==> j
        < t.classes.len()) by {
        match entry_index(e, name) {
            Some(p) => {
                if i != p {
                    assert(t.globals[i] == e[i]);
                }
            },
            None => {
                if i < e.len() {
                    assert(t.globals[i] == e[i]);
                }
            },
        }
    }
}

/// The store with method `m` installed in class `k` under its selector,
/// which is listed if it was not.
pub open spec fn with_method(s: StoreV, k: usize, m: usize) -> StoreV {
    let sel = s.methods[m as int].signature;
    let c = s.classes[k as int];
    StoreV {
        classes: s.classes.update(
            k as int,
            ClassV {
                methods: bind_table(c.methods, sel, m),
                method_order: if c.method_order.contains(sel) {
                    c.method_order
                } else {
                    c.method_order.push(sel)
                },
                ..c
            },
        ),
        ..s
    }
}

impl Store {
    /// `System>>installMethod:inClass:`: installs a method in a class, and
    /// answers true; false, with nothing installed, unless the arguments are
    /// a method and a class.
    pub fn sys_install_method_in_class(&mut self, args: &Vec<Value>) -> (r: Value)
        requires
            old(self)@.wf(),
            forall|i: int| 0 <= i < args@.len() ==> ref_ok(old(self)@, #[trigger] args@[i]@),
        ensures
            final(self).activations@.len() == old(self).activations@.len(),
            final(self)@.wf(),
            if args@.len() >= 2 && args@[0]@ is Method && args@[1]@ is Class {
                r@ == ValueV::Boolean(true) && final(self)@ == with_method(
                    old(self)@,
                    args@[1]@->Class_0,
                    args@[0]@->Method_0,
                )
            } else {
                r@ == ValueV::Boolean(false) && final(self)@ == old(self)@
            },
    {
        if args.len() < 2 {
            return Value::Boolean(false);
        }
        assert(ref_ok(self@, args@[0]@));
        assert(ref_ok(self@, args@[1]@));
        let (m, k) = match (&args[0], &args[1]) {
            (Value::Method(m), Value::Class(k)) => (*m, *k),
            _ => {
                return Value::Boolean(false);
            },
        };
        let ghost s0 = self@;
        assert(s0.methods[m as int] == self.methods@[m as int]@);
        let sel = self.methods[m].signature.clone();
        let mut c = RtClass {
            name: String::new(),
            metaclass: None,
            super_class: None,
            instance_fields: Vec::new(),
            fields: Vec::new(),
            methods: Vec::new(),
            method_order: Vec::new(),
        };
        self.classes.set_and_swap(k, &mut c);
        let ghost c0 = c@;
        assert(c0 == s0.classes[k as int]);
        proof {
            crate::runtime::lemma_table_keys(c.methods@);
        }
        match crate::runtime::find_entry(&c.methods, &sel) {
            Some(i) => {
                c.methods.set(i, (sel.clone(), m));
            },
            None => {
                c.methods.push((sel.clone(), m));
            },
        }
        assert(crate::runtime::table_view(c.methods@) =~= bind_table(c0.methods, sel@, m));
        if !crate::text::contains_string(&c.method_order, &sel) {
            let ghost o0 = c.method_order@;
            c.method_order.push(sel);
            assert(strings_view(c.method_order@) =~= strings_view(o0).push(s0.methods[m as int].signature));
        }
        self.classes.set(k, c);
        let ghost t = self@;
        assert(t.classes =~= with_method(s0, k, m).classes);
        assert(t =~= with_method(s0, k, m));
        proof {
            lemma_with_method_keeps_wf(s0, k, m);
        }
        Value::Boolean(true)
    }
}

proof fn lemma_with_method_keeps_wf(s: StoreV, k: usize, m: usize)
    requires
        s.wf(),
        k < s.classes.len(),
        m < s.methods.len(),
    ensures
        with_method(s, k, m).wf(),
{
    let t = with_method(s, k, m);
    let sel = s.methods[m as int].signature;
    let c = s.classes[k as int];
    assert forall|n: Seq<char>| #[trigger] global_class(t, n) == global_class(s, n) by {}
    assert forall|x: ValueV| #[trigger] ref_ok(t, x) == ref_ok(s, x) by {
        match x {
            ValueV::Object(o) => {
                if o < s.cells.len() {
                    assert(global_class(t, s.cells[o as int]->Object_0) == global_class(s, s.cells[o as int]->Object_0));
                }
            },
            _ => {},
        }
    }
    assert forall|j: int| 0 <= j < t.classes.len() implies #[trigger] crate::runtime::class_ok(t, j) by {
        assert(crate::runtime::class_ok(s, j));
        crate::runtime::lemma_chain_transfer(s, t, j, s.classes.len() as nat);
        if j == k {
            let tm = t.classes[j].methods;
            crate::text::lemma_index_of_from(keys(c.methods), sel, 0);
            assert forall|i: int| 0 <= i < tm.len() implies #[trigger] tm[i].1 < t.methods.len() by {
                match entry_index(c.methods, sel) {
                    Some(p) => {
                        if i != p {
                            assert(tm[i] == c.methods[i]);
                        }
                    },
                    None => {
                        if i < c.methods.len() {
                            assert(tm[i] == c.methods[i]);
                        }
                    },
                }
            }
            let to = t.classes[j].method_order;
            assert forall|i: int| 0 <= i < to.len() implies #[trigger] entry_index(tm, to[i]) is Some by {
                lemma_bind_table(c.methods, sel, m, to[i]);
                if to[i] != sel {
                    assert(to[i] == c.method_order[i]);
                }
            }
        }
    }
    assert forall|a: int| 0 <= a < t.acts.len() implies #[trigger] crate::runtime::act_ok(t, a) by {
        assert(crate::runtime::act_ok(s, a));
        assert(ref_ok(t, s.acts[a].self_val) == ref_ok(s, s.acts[a].self_val));
    }
    assert forall|q: int| 0 <= q < t.methods.len() implies #[trigger] t.methods[q].holder < t.classes.len() by {
        assert(s.methods[q].holder < s.classes.len());
    }
    assert forall|b: int| 0 <= b < t.blocks.len() implies (#[trigger] t.blocks[b].context matches Some(a) ==> a
        < t.acts.len()) by {
        assert(s.blocks[b].context matches Some(a) ==> a < s.acts.len());
    }
    assert forall|i: int| 0 <= i < t.globals.len() implies (#[trigger] t.globals[i].1 matches ValueV::Class(j) ==> j
        < t.classes.len()) by {
        assert(s.globals[i].1 matches ValueV::Class(j) ==> j < s.classes.len());
    }
}

/// The text and the class that `System>>compileMethod:inClass:` works on: a
/// string and a class.
pub open spec fn compile_args(s: StoreV, args: Seq<ValueV>) -> Option<(Seq<char>, usize)> {
    if args.len() >= 2 && args[0] is String && args[1] is Class {
        match s.cells[args[0]->String_0 as int] {
            CellV::Str(t) => Some((t, args[1]->Class_0)),
            _ => None,
        }
    } else {
        None
    }
}

/// `mv` is what the parsed definition `d` becomes in class `holder`: the
/// primitive registered under `holder name>>selector` if there is one;
/// otherwise the statements of its body, or, for a primitive body, a
/// primitive that answers nil.
pub open spec fn method_compiled_from(s: StoreV, holder: usize, d: MethodDefV, mv: MethodV) -> bool {
    let sel = selector_v(d.signature);
    let key = s.classes[holder as int].name + ">>"@ + sel;
    let registered = s.primitives.contains(key);
    &&& mv.signature == sel
    &&& mv.holder == holder
    &&& mv.parameters == args_v(d.signature)
    &&& mv.key == (if registered { Some(key) } else { None::<Seq<char>> })
    &&& mv.primitive == (registered || d.body is Primitive)
    &&& if !registered && d.body is Block {
        mv.block matches Some(b) && block_view(b) == d.body->Block_0 && mv.locals == d.body->Block_0.locals
    } else {
        mv.block is None && mv.locals == Seq::<Seq<char>>::empty()
    }
}

/// A new method keeps the store well formed when its holder is a class of
/// the store.
proof fn lemma_push_method_keeps_wf(s: StoreV, mv: MethodV)
    requires
        s.wf(),
        mv.holder < s.classes.len(),
    ensures
        (StoreV { methods: s.methods.push(mv), ..s }).wf(),
{
    let t = StoreV { methods: s.methods.push(mv), ..s };
    assert forall|n: Seq<char>| #[trigger] global_class(t, n) == global_class(s, n) by {}
    assert forall|x: ValueV| ref_ok(s, x) implies #[trigger] ref_ok(t, x) by {
        match x {
            ValueV::Object(o) => {
                assert(global_class(t, s.cells[o as int]->Object_0) == global_class(s, s.cells[o as int]->Object_0));
            },
            _ => {},
        }
    }
    assert forall|j: int| 0 <= j < t.classes.len() implies #[trigger] crate::runtime::class_ok(t, j) by {
        assert(crate::runtime::class_ok(s, j));
        crate::runtime::lemma_chain_transfer(s, t, j, s.classes.len() as nat);
    }
    assert forall|a: int| 0 <= a < t.acts.len() implies #[trigger] crate::runtime::act_ok(t, a) by {
        assert(crate::runtime::act_ok(s, a));
        assert(ref_ok(t, s.acts[a].self_val));
    }
    assert forall|q: int| 0 <= q < t.methods.len() implies #[trigger] t.methods[q].holder < t.classes.len() by {
        if q < s.methods.len() {
            assert(s.methods[q].holder < s.classes.len());
        }
    }
    assert forall|b: int| 0 <= b < t.blocks.len() implies (#[trigger] t.blocks[b].context matches Some(a) ==> a
        < t.acts.len()) by {
        assert(s.blocks[b].context matches Some(a) ==> a < s.acts.len());
    }
    assert forall|i: int| 0 <= i < t.globals.len() implies (#[trigger] t.globals[i].1 matches ValueV::Class(j) ==> j
        < t.classes.len()) by {
        assert(s.globals[i].1 matches ValueV::Class(j) ==> j < s.classes.len());
    }
}

/// What `assemble_method` makes of a definition is what that definition,
/// as parsed, compiles to.
proof fn lemma_assembled_is_compiled(s: StoreV, holder: usize, def: MethodDef)
    ensures
        method_compiled_from(s, holder, method_view(def), assembled_method(s, holder, def_install(def, false))),
{
    if def.body is Block {
        let b = def.body->Block_0;
        assert(strings_view(b.locals@) =~= crate::ast::names_view(b.locals@));
    }
}

impl Store {
    /// `System>>compileMethod:inClass:`: parses a method from a string and
    /// answers the method it becomes in a class, without installing it; on a
    /// parse error, a string that describes it. Nil, with nothing changed,
    /// unless the arguments are a string and a class.
    pub fn sys_compile_method_in_class(&mut self, args: &Vec<Value>) -> (r: Value)
        requires
            old(self)@.wf(),
            forall|i: int| 0 <= i < args@.len() ==> ref_ok(old(self)@, #[trigger] args@[i]@),
        ensures
            final(self).activations@.len() == old(self).activations@.len(),
            final(self)@.wf(),
            match compile_args(old(self)@, values_view(args@)) {
                None => r@ == ValueV::Nil && final(self)@ == old(self)@,
                Some((text, k)) => match crate::grammar::method(crate::grammar::input_of(text), 0) {
                    Ok((d, _)) => {
                        &&& r@ == ValueV::Method(old(self)@.methods.len() as usize)
                        &&& final(self)@ == (StoreV { methods: old(self)@.methods.push(final(self)@.methods.last()), ..old(self)@ })
                        &&& method_compiled_from(old(self)@, k, d, final(self)@.methods.last())
                    },
                    Err(e) => (r@, final(self)@) == crate::reflect::new_string(
                        old(self)@,
                        "Error parsing: "@ + crate::grammar::error_text(e, text),
                    ),
                },
            },
    {
        if args.len() < 2 {
            return Value::Nil;
        }
        assert(ref_ok(self@, args@[0]@));
        assert(ref_ok(self@, args@[1]@));
        let (c, k) = match (&args[0], &args[1]) {
            (Value::String(c), Value::Class(k)) => (*c, *k),
            _ => {
                return Value::Nil;
            },
        };
        let text = match &self.heap.cells[c] {
            HeapCell::Str(t) => t.clone(),
            _ => {
                return Value::Nil;
            },
        };
        let ghost s0 = self@;
        let mut parser = crate::parser::Parser::new(text.as_str());
        match parser.parse_method() {
            Ok(def) => {
                let ghost d = method_view(def);
                let m = self.assemble_method(def, k);
                let ghost mv = m@;
                proof {
                    lemma_assembled_is_compiled(s0, k, def);
                }
                let index = self.methods.len();
                self.methods.push(m);
                proof {
                    assert(self@.methods =~= s0.methods.push(mv));
                    assert(self@ =~= StoreV { methods: s0.methods.push(mv), ..s0 });
                    lemma_push_method_keeps_wf(s0, mv);
                }
                Value::Method(index)
            },
            Err(e) => {
                let mut msg = String::from_str("Error parsing: ");
                msg.append(e.message(text.as_str()).as_str());
                let index = self.heap.cells.len();
                let ghost cv = CellV::Str(msg@);
                self.heap.cells.push(HeapCell::Str(msg));
                proof {
                    assert(self@ =~= crate::reflect::push_cell(s0, cv));
                    crate::reflect::lemma_push_cell_keeps_wf(s0, cv);
                }
                Value::String(index)
            },
        }
    }
}

/// What `System>>defineClass:` does first.
pub enum DefineStep {
    /// The answer, with nothing left to do.
    Answer(Value),
    /// The definition, to be assembled into class `k`, which is bound to its
    /// name; the answer is then that class.
    Assemble(ClassDef, usize),
}

/// The text that `System>>defineClass:` defines a class from: a string.
pub open spec fn define_text(s: StoreV, args: Seq<ValueV>) -> Option<Seq<char>> {
    if args.len() >= 1 && args[0] is String {
        match s.cells[args[0]->String_0 as int] {
            CellV::Str(t) => Some(t),
            _ => None,
        }
    } else {
        None
    }
}

/// The class that a definition named `name` is assembled into: the class
/// bound to that name; with none, a new empty class, bound to it.
pub open spec fn class_to_define(s: StoreV, name: Seq<char>) -> (usize, StoreV) {
    match global_class(s, name) {
        Some(k) => (k, s),
        None => {
            let k = s.classes.len() as usize;
            (
                k,
                StoreV {
                    classes: s.classes.push(stub_class(name)),
                    globals: crate::runtime::bind(s.globals, name, ValueV::Class(k)),
                    ..s
                },
            )
        },
    }
}

impl Store {
    /// `System>>defineClass:`: parses a class definition from a string and
    /// finds the class it is to be assembled into; on a parse error, answers
    /// a string that describes it; nil, with nothing changed, unless the
    /// argument is a string.
    pub fn sys_define_class(&mut self, args: &Vec<Value>) -> (r: DefineStep)
        requires
            old(self)@.wf(),
            forall|i: int| 0 <= i < args@.len() ==> ref_ok(old(self)@, #[trigger] args@[i]@),
        ensures
            final(self)@.wf(),
            match define_text(old(self)@, values_view(args@)) {
                None => r matches DefineStep::Answer(v) && v@ == ValueV::Nil && final(self)@ == old(self)@,
                Some(text) => match crate::grammar::parse_class_spec(text) {
                    Err(e) => r matches DefineStep::Answer(v) && (v@, final(self)@) == crate::reflect::new_string(
                        old(self)@,
                        "Error parsing class: "@ + crate::grammar::error_text(e, text),
                    ),
                    Ok(d) => r matches DefineStep::Assemble(def, k) && crate::ast::class_view(def) == d
                        && (k, final(self)@) == class_to_define(old(self)@, d.name) && k < final(self).classes@.len(),
                },
            },
    {
        if args.len() < 1 {
            return DefineStep::Answer(Value::Nil);
        }
        assert(ref_ok(self@, args@[0]@));
        let c = match &args[0] {
            Value::String(c) => *c,
            _ => {
                return DefineStep::Answer(Value::Nil);
            },
        };
        let text = match &self.heap.cells[c] {
            HeapCell::Str(t) => t.clone(),
            _ => {
                return DefineStep::Answer(Value::Nil);
            },
        };
        let ghost s0 = self@;
        let mut parser = crate::parser::Parser::new(text.as_str());
        match parser.parse_class() {
            Ok(def) => {
                let name = def.name.clone();
                let step = self.class_to_load(&name);
                let k = match step {
                    LoadStep::Loaded(k) => k,
                    LoadStep::Assemble(k) => k,
                };
                DefineStep::Assemble(def, k)
            },
            Err(e) => {
                let mut msg = String::from_str("Error parsing class: ");
                msg.append(e.message(text.as_str()).as_str());
                let index = self.heap.cells.len();
                let ghost cv = CellV::Str(msg@);
                self.heap.cells.push(HeapCell::Str(msg));
                proof {
                    assert(self@ =~= crate::reflect::push_cell(s0, cv));
                    crate::reflect::lemma_push_cell_keeps_wf(s0, cv);
                }
                DefineStep::Answer(Value::String(index))
            },
        }
    }
}

/// Once a method is installed in a class, the class answers the method's
/// selector with that method.
pub proof fn law_installed_method_answers(s: StoreV, k: usize, m: usize)
    requires
        s.wf(),
        k < s.classes.len(),
        m < s.methods.len(),
    ensures
        crate::runtime::method_in(with_method(s, k, m), k as int, s.methods[m as int].signature) == Some(m),
{
    let sel = s.methods[m as int].signature;
    lemma_bind_table(s.classes[k as int].methods, sel, m, sel);
}

/// The class that a definition named `name` is assembled into is the class
/// bound to that name afterwards.
pub proof fn law_defined_class_is_bound(s: StoreV, name: Seq<char>)
    requires
        s.wf(),
    ensures
        ({
            let (k, t) = class_to_define(s, name);
            global_class(t, name) == Some(k) && k < t.classes.len()
        }),
{
    let g = s.globals;
    crate::text::lemma_index_of_from(keys(g), name, 0);
    match global_class(s, name) {
        Some(k) => {
            let i = entry_index(g, name).unwrap();
            assert(g[i].1 matches ValueV::Class(j) ==> j < s.classes.len());
        },
        None => {
            let k = s.classes.len() as usize;
            match entry_index(g, name) {
                Some(i) => {
                    assert(keys(g.update(i, (name, ValueV::Class(k)))) =~= keys(g));
                },
                None => {
                    assert(keys(g.push((name, ValueV::Class(k)))) =~= keys(g).push(name));
                    lemma_index_of_push(keys(g), name, name, 0);
                },
            }
        },
    }
}

/// Installing methods leaves the globals as they were.
pub(crate) proof fn lemma_install_all_keeps_globals(s: StoreV, cls: usize, mc: usize, items: Seq<InstallV>)
    ensures
        install_all(s, cls, mc, items).globals == s.globals,
    decreases items.len(),
{
    if items.len() > 0 {
        lemma_install_all_keeps_globals(s, cls, mc, items.drop_last());
    }
}

/// Assembling a class leaves the globals as they were.
pub(crate) proof fn lemma_assembled_keeps_globals(
    s: StoreV,
    def: ClassDef,
    cls: usize,
    sup: Option<usize>,
    class_class: usize,
    metaclass_class: usize,
)
    ensures
        assembled(s, def, cls, sup, class_class, metaclass_class).globals == s.globals,
{
    lemma_install_all_keeps_globals(
        prepared(s, def, cls, sup, class_class, metaclass_class),
        cls,
        s.classes.len() as usize,
        installs_of(def),
    );
}

/// The first step of loading `name` leaves it bound to the class it answers,
/// and every class bound to a name still bound to it.
pub(crate) proof fn lemma_load_step_binds(s: StoreV, name: Seq<char>)
    requires
        s.wf(),
    ensures
        ({
            let (step, t) = load_step(s, name);
            let k = match step {
                LoadStep::Loaded(k) => k,
                LoadStep::Assemble(k) => k,
            };
            &&& global_class(t, name) == Some(k)
            &&& forall|n: Seq<char>| #[trigger] global_class(s, n) is Some ==> global_class(t, n) == global_class(s, n)
        }),
{
    let g = s.globals;
    crate::text::lemma_index_of_from(keys(g), name, 0);
    match global_class(s, name) {
        Some(k) => {},
        None => {
            let k = s.classes.len() as usize;
            let t = load_step(s, name).1;
            match entry_index(g, name) {
                Some(i) => {
                    assert(keys(g.update(i, (name, ValueV::Class(k)))) =~= keys(g));
                },
                None => {
                    assert(keys(g.push((name, ValueV::Class(k)))) =~= keys(g).push(name));
                    lemma_index_of_push(keys(g), name, name, 0);
                },
            }
            assert forall|n: Seq<char>| #[trigger] global_class(s, n) is Some implies global_class(t, n) == global_class(s, n) by {
                crate::text::lemma_index_of_from(keys(g), n, 0);
                if n != name {
                    match entry_index(g, name) {
                        Some(i) => {
                            assert(keys(g.update(i, (name, ValueV::Class(k)))) =~= keys(g));
                        },
                        None => {
                            assert(keys(g.push((name, ValueV::Class(k)))) =~= keys(g).push(name));
                            lemma_index_of_push(keys(g), name, n, 0);
                        },
                    }
                }
            }
        },
    }
}

/// The first step of loading `name` leaves every other name without a
/// class bound to it as it was.
pub(crate) proof fn lemma_load_step_unbound(s: StoreV, name: Seq<char>, n: Seq<char>)
    requires
        s.wf(),
        n != name,
        global_class(s, n) is None,
    ensures
        global_class(load_step(s, name).1, n) is None,
{
    let g = s.globals;
    crate::text::lemma_index_of_from(keys(g), name, 0);
    crate::text::lemma_index_of_from(keys(g), n, 0);
    match global_class(s, name) {
        Some(k) => {},
        None => {
            let k = s.classes.len() as usize;
            match entry_index(g, name) {
                Some(i) => {
                    assert(keys(g.update(i, (name, ValueV::Class(k)))) =~= keys(g));
                },
                None => {
                    assert(keys(g.push((name, ValueV::Class(k)))) =~= keys(g).push(name));
                    lemma_index_of_push(keys(g), name, n, 0);
                },
            }
        },
    }
}

/// Installing methods in `cls` or its metaclass `mc` leaves every other
/// class as it was.
pub(crate) proof fn lemma_install_all_keeps_classes(s: StoreV, cls: usize, mc: usize, items: Seq<InstallV>, j: int)
    requires
        0 <= j < s.classes.len(),
        j != cls,
        j != mc,
        cls < s.classes.len(),
        mc < s.classes.len(),
    ensures
        install_all(s, cls, mc, items).classes.len() == s.classes.len(),
        install_all(s, cls, mc, items).classes[j] == s.classes[j],
    decreases items.len(),
{
    if items.len() > 0 {
        lemma_install_all_keeps_classes(s, cls, mc, items.drop_last(), j);
    }
}

/// Installing methods in `cls` or its metaclass `mc` adds no class.
pub(crate) proof fn lemma_install_all_len(s: StoreV, cls: usize, mc: usize, items: Seq<InstallV>)
    requires
        cls < s.classes.len(),
        mc < s.classes.len(),
    ensures
        install_all(s, cls, mc, items).classes.len() == s.classes.len(),
    decreases items.len(),
{
    if items.len() > 0 {
        lemma_install_all_len(s, cls, mc, items.drop_last());
    }
}

/// Assembling a class adds one class, its metaclass.
pub(crate) proof fn lemma_assembled_len(
    s: StoreV,
    def: ClassDef,
    cls: usize,
    sup: Option<usize>,
    class_class: usize,
    metaclass_class: usize,
)
    requires
        cls < s.classes.len(),
        s.classes.len() <= usize::MAX,
    ensures
        assembled(s, def, cls, sup, class_class, metaclass_class).classes.len() == s.classes.len() + 1,
{
    let p = prepared(s, def, cls, sup, class_class, metaclass_class);
    lemma_install_all_len(p, cls, s.classes.len() as usize, installs_of(def));
}

/// Assembling a class into `cls` leaves every other class of `s` as it was.
pub(crate) proof fn lemma_assembled_keeps_classes(
    s: StoreV,
    def: ClassDef,
    cls: usize,
    sup: Option<usize>,
    class_class: usize,
    metaclass_class: usize,
    j: int,
)
    requires
        0 <= j < s.classes.len(),
        j != cls,
        cls < s.classes.len(),
        s.classes.len() <= usize::MAX,
    ensures
        assembled(s, def, cls, sup, class_class, metaclass_class).classes.len() == s.classes.len() + 1,
        assembled(s, def, cls, sup, class_class, metaclass_class).classes[j] == s.classes[j],
{
    let p = prepared(s, def, cls, sup, class_class, metaclass_class);
    assert(p.classes[j] == s.classes[j]);
    lemma_install_all_keeps_classes(p, cls, s.classes.len() as usize, installs_of(def), j);
}

/// Installing methods changes only the classes and the methods, and keeps
/// the methods there were in front.
pub(crate) proof fn lemma_install_all_frame(s: StoreV, cls: usize, mc: usize, items: Seq<InstallV>)
    ensures
        ({
            let t = install_all(s, cls, mc, items);
            &&& t == StoreV { classes: t.classes, methods: t.methods, ..s }
            &&& s.methods.len() <= t.methods.len()
            &&& t.methods.subrange(0, s.methods.len() as int) == s.methods
        }),
    decreases items.len(),
{
    if items.len() > 0 {
        lemma_install_all_frame(s, cls, mc, items.drop_last());
        let u = install_all(s, cls, mc, items.drop_last());
        let t = install_all(s, cls, mc, items);
        assert(t.methods.subrange(0, s.methods.len() as int) =~= u.methods.subrange(0, s.methods.len() as int));
    } else {
        assert(s.methods.subrange(0, s.methods.len() as int) =~= s.methods);
    }
}

/// Assembling a class changes only the classes and the methods, and keeps
/// the methods there were in front.
pub(crate) proof fn lemma_assembled_frame(
    s: StoreV,
    def: ClassDef,
    cls: usize,
    sup: Option<usize>,
    class_class: usize,
    metaclass_class: usize,
)
    ensures
        ({
            let t = assembled(s, def, cls, sup, class_class, metaclass_class);
            &&& t == StoreV { classes: t.classes, methods: t.methods, ..s }
            &&& s.methods.len() <= t.methods.len()
            &&& t.methods.subrange(0, s.methods.len() as int) == s.methods
        }),
{
    lemma_install_all_frame(
        prepared(s, def, cls, sup, class_class, metaclass_class),
        cls,
        s.classes.len() as usize,
        installs_of(def),
    );
}

/// A copy of a class.
fn copy_class(c: &RtClass) -> (r: RtClass)
    ensures
        r@ == c@,
{
    let mut fields: Vec<Value> = Vec::new();
    let mut i: usize = 0;
    while i < c.fields.len()
        invariant
            i <= c.fields@.len(),
            fields@.len() == i,
            forall|j: int| 0 <= j < i ==> #[trigger] fields@[j]@ == c.fields@[j]@,
        decreases c.fields.len() - i,
    {
        fields.push(c.fields[i].copy());
        i = i + 1;
    }
    let mut methods: Vec<(String, usize)> = Vec::new();
    let mut i: usize = 0;
    while i < c.methods.len()
        invariant
            i <= c.methods@.len(),
            methods@.len() == i,
            forall|j: int| 0 <= j < i ==> #[trigger] methods@[j].0@ == c.methods@[j].0@ && methods@[j].1 == c.methods@[j].1,
        decreases c.methods.len() - i,
    {
        methods.push((c.methods[i].0.clone(), c.methods[i].1));
        i = i + 1;
    }
    let r = RtClass {
        name: c.name.clone(),
        metaclass: c.metaclass,
        super_class: c.super_class,
        instance_fields: crate::text::copy_strings(&c.instance_fields),
        fields,
        methods,
        method_order: crate::text::copy_strings(&c.method_order),
    };
    assert(values_view(r.fields@) =~= values_view(c.fields@));
    assert(crate::runtime::table_view(r.methods@) =~= crate::runtime::table_view(c.methods@));
    r
}

/// A copy of the classes.
fn copy_classes(v: &Vec<RtClass>) -> (r: Vec<RtClass>)
    ensures
        r@.map_values(|c: RtClass| c@) == v@.map_values(|c: RtClass| c@),
{
    let mut out: Vec<RtClass> = Vec::new();
    let mut i: usize = 0;
    while i < v.len()
        invariant
            i <= v@.len(),
            out@.len() == i,
            forall|j: int| 0 <= j < i ==> #[trigger] out@[j]@ == v@[j]@,
        decreases v.len() - i,
    {
        out.push(copy_class(&v[i]));
        i = i + 1;
    }
    assert(out@.map_values(|c: RtClass| c@) =~= v@.map_values(|c: RtClass| c@));
    out
}

impl Store {
    /// Assembles `def` into class `cls` as `assemble_class_into` does, and
    /// answers true, when the state it leaves is well formed; otherwise
    /// leaves the state as it was and answers false.
    pub fn assemble_class_checked(
        &mut self,
        def: ClassDef,
        cls: usize,
        sup: Option<usize>,
        class_class: usize,
        metaclass_class: usize,
    ) -> (r: bool)
        requires
            old(self)@.wf(),
            cls < old(self).classes@.len(),
            sup matches Some(k) ==> k < old(self).classes@.len(),
            class_class < old(self).classes@.len(),
            metaclass_class < old(self).classes@.len(),
        ensures
            final(self)@.wf(),
            r == assembled(old(self)@, def, cls, sup, class_class, metaclass_class).wf(),
            r ==> final(self)@ == assembled(old(self)@, def, cls, sup, class_class, metaclass_class),
            !r ==> final(self)@ == old(self)@,
    {
        let ghost s0 = self@;
        let ghost d = def;
        let saved = copy_classes(&self.classes);
        let n = self.methods.len();
        self.assemble_class_into(def, cls, sup, class_class, metaclass_class);
        if self.is_well_formed() {
            true
        } else {
            proof {
                lemma_assembled_frame(s0, d, cls, sup, class_class, metaclass_class);
            }
            self.classes = saved;
            self.methods.truncate(n);
            assert(self@.methods =~= s0.methods);
            assert(self@ =~= s0);
            false
        }
    }
}

} // verus!

use vstd::prelude::*;
use crate::ast::{ClassDef, Signature, SignatureV, signature_view};
use crate::text::strings_view;

verus! {

/// The outcome of an asynchronous operation.
#[derive(Debug)]
pub enum AsyncResult {
    SuccessNil,
    SuccessString(String),
    SuccessHandle(usize),
    Error(String),
}

/// An asynchronous operation that has finished, with the id of the
/// callbacks waiting for it.
#[derive(Debug)]
pub struct AsyncEvent {
    pub callback_id: u64,
    pub result: AsyncResult,
}

/// Whether the interpreter runs freely, is paused, or stops after each step.
#[derive(Debug, Clone, Copy, PartialEq, Eq, Structural)]
pub enum VmState {
    Running,
    Paused,
    Stepping,
}

/// The argument handed to a callback block.
#[derive(Debug)]
pub enum CallbackArgument {
    Nothing,
    Text(String),
    Handle(usize),
}

/// How the callbacks of a finished operation are invoked: which of the two
/// blocks, with which selector and argument.
#[derive(Debug)]
pub struct CallbackCall {
    pub on_error: bool,
    pub selector: String,
    pub argument: CallbackArgument,
}

/// A success without a value runs the success block with `value`; one with a
/// value, and an error, run their block with `value:` and the value or message.
pub fn callback_call(result: AsyncResult) -> (c: CallbackCall)
    ensures
        c.on_error == (result is Error),
        c.selector@ == (if result is SuccessNil { "value"@ } else { "value:"@ }),
        match (result, c.argument) {
            (AsyncResult::SuccessNil, CallbackArgument::Nothing) => true,
            (AsyncResult::SuccessString(s), CallbackArgument::Text(t)) => t@ == s@,
            (AsyncResult::SuccessHandle(h), CallbackArgument::Handle(k)) => k == h,
            (AsyncResult::Error(s), CallbackArgument::Text(t)) => t@ == s@,
            _ => false,
        },
{
    match result {
        AsyncResult::SuccessNil => CallbackCall {
            on_error: false,
            selector: String::from_str("value"),
            argument: CallbackArgument::Nothing,
        },
        AsyncResult::SuccessString(s) => CallbackCall {
            on_error: false,
            selector: String::from_str("value:"),
            argument: CallbackArgument::Text(s),
        },
        AsyncResult::SuccessHandle(h) => CallbackCall {
            on_error: false,
            selector: String::from_str("value:"),
            argument: CallbackArgument::Handle(h),
        },
        AsyncResult::Error(s) => CallbackCall {
            on_error: true,
            selector: String::from_str("value:"),
            argument: CallbackArgument::Text(s),
        },
    }
}

// ---------------------------------------------------------------------------
// Methods
// ---------------------------------------------------------------------------

/// The names of the parameters of a method with this pattern.
pub fn method_parameters(signature: &Signature) -> (r: Vec<String>)
    ensures
        strings_view(r@) == signature.spec_arguments(),
{
    match signature {
        Signature::Unary(_) => {
            let r: Vec<String> = Vec::new();
            assert(strings_view(r@) =~= Seq::<Seq<char>>::empty());
            r
        },
        Signature::Binary(_, arg) => {
            let mut r: Vec<String> = Vec::new();
            r.push(arg.clone());
            assert(strings_view(r@) =~= seq![arg@]);
            r
        },
        Signature::Keyword(parts) => {
            let mut r: Vec<String> = Vec::new();
            let mut i: usize = 0;
            while i < parts.len()
                invariant
                    i <= parts.len(),
                    strings_view(r@) == parts@.subrange(0, i as int).map_values(|p: (String, String)| p.1@),
                decreases parts.len() - i,
            {
                let ghost before = r@;
                r.push(parts[i].1.clone());
                assert(strings_view(r@) =~= strings_view(before).push(parts@[i as int].1@));
                assert(parts@.subrange(0, i + 1).map_values(|p: (String, String)| p.1@) =~= parts@.subrange(
                    0,
                    i as int,
                ).map_values(|p: (String, String)| p.1@).push(parts@[i as int].1@));
                i = i + 1;
            }
            assert(parts@.subrange(0, parts.len() as int) =~= parts@);
            r
        },
    }
}

/// The key under which the native implementation of a method is registered:
/// the name of the class that holds it, `>>`, and its selector.
pub fn primitive_key(holder: &String, signature: &Signature) -> (r: String)
    ensures
        r@ == holder@ + ">>"@ + signature.spec_selector(),
{
    let sel = signature.selector();
    let mut key = holder.clone();
    key.append(">>");
    key.append(sel.as_str());
    key
}

// ---------------------------------------------------------------------------
// Fields of classes
// ---------------------------------------------------------------------------

/// The index of the first definition of a class named `name`, from `i` on.
pub open spec fn find_def_from(defs: Seq<ClassDef>, name: Seq<char>, i: int) -> Option<int>
    decreases defs.len() - i,
{
    if i < 0 || i >= defs.len() {
        None
    } else if defs[i].name@ == name {
        Some(i)
    } else {
        find_def_from(defs, name, i + 1)
    }
}

/// The superclass of a class: the one named, `nil` naming none; a class that
/// names none inherits from `Object`, except `Object` itself.
pub open spec fn super_of(d: ClassDef) -> Option<Seq<char>> {
    match d.super_class {
        Some(s) => if s@ == "nil"@ {
            None
        } else {
            Some(s@)
        },
        None => if d.name@ == "Object"@ {
            None
        } else {
            Some("Object"@)
        },
    }
}

/// The fields of the instances of class `name`, inherited ones first, as
/// loading it gives while the classes of `loading` are being loaded: such a
/// class contributes no fields yet. `None` when a class of the chain has no
/// definition; `fuel` bounds the length of the chain.
pub open spec fn instance_fields_of(defs: Seq<ClassDef>, name: Seq<char>, loading: Seq<Seq<char>>, fuel: nat) -> Option<
    Seq<Seq<char>>,
>
    decreases fuel,
{
    if loading.contains(name) {
        Some(Seq::empty())
    } else {
        match find_def_from(defs, name, 0) {
            None => None,
            Some(i) => if fuel == 0 {
                None
            } else {
                let d = defs[i];
                let inherited = match super_of(d) {
                    None => Some(Seq::empty()),
                    Some(s) => instance_fields_of(defs, s, loading.push(name), (fuel - 1) as nat),
                };
                match inherited {
                    None => None,
                    Some(f) => Some(f + strings_view(d.instance_fields@)),
                }
            },
        }
    }
}

/// The index of the first definition of a class named `name`.
pub fn find_def_index(defs: &Vec<ClassDef>, name: &String) -> (r: Option<usize>)
    ensures
        match r {
            Some(i) => find_def_from(defs@, name@, 0) == Some(i as int) && i < defs@.len(),
            None => find_def_from(defs@, name@, 0) is None,
        },
{
    find_def(defs, name)
}

fn find_def(defs: &Vec<ClassDef>, name: &String) -> (r: Option<usize>)
    ensures
        match r {
            Some(i) => find_def_from(defs@, name@, 0) == Some(i as int) && i < defs@.len(),
            None => find_def_from(defs@, name@, 0) is None,
        },
{
    let mut i: usize = 0;
    while i < defs.len()
        invariant
            i <= defs.len(),
            find_def_from(defs@, name@, 0) == find_def_from(defs@, name@, i as int),
        decreases defs.len() - i,
    {
        if defs[i].name == *name {
            return Some(i);
        }
        i = i + 1;
    }
    None
}

fn super_name(d: &ClassDef) -> (r: Option<String>)
    ensures
        match r {
            Some(s) => super_of(*d) == Some(s@),
            None => super_of(*d) is None,
        },
{
    match &d.super_class {
        Some(s) => {
            let nil = String::from_str("nil");
            if *s == nil {
                None
            } else {
                Some(s.clone())
            }
        },
        None => {
            let object = String::from_str("Object");
            if d.name == object {
                None
            } else {
                Some(object)
            }
        },
    }
}

fn instance_fields_in(defs: &Vec<ClassDef>, name: &String, loading: &mut Vec<String>, fuel: usize) -> (r: Option<
    Vec<String>,
>)
    ensures
        final(loading)@ == old(loading)@,
        match r {
            Some(f) => instance_fields_of(defs@, name@, strings_view(old(loading)@), fuel as nat) == Some(
                strings_view(f@),
            ),
            None => instance_fields_of(defs@, name@, strings_view(old(loading)@), fuel as nat) is None,
        },
    decreases fuel,
{
    if crate::text::contains_string(loading, name) {
        let r: Vec<String> = Vec::new();
        assert(strings_view(r@) =~= Seq::<Seq<char>>::empty());
        return Some(r);
    }
    match find_def(defs, name) {
        None => None,
        Some(i) => {
            if fuel == 0 {
                return None;
            }
            let d = &defs[i];
            let inherited: Option<Vec<String>> = match super_name(d) {
                None => {
                    let r: Vec<String> = Vec::new();
                    assert(strings_view(r@) =~= Seq::<Seq<char>>::empty());
                    Some(r)
                },
                Some(s) => {
                    let ghost before = loading@;
                    loading.push(name.clone());
                    assert(strings_view(loading@) =~= strings_view(before).push(name@));
                    let f = instance_fields_in(defs, &s, loading, fuel - 1);
                    loading.pop();
                    assert(loading@ =~= before);
                    f
                },
            };
            match inherited {
                None => None,
                Some(f) => {
                    let mut all = f;
                    append_strings(&mut all, &d.instance_fields);
                    Some(all)
                },
            }
        },
    }
}

/// The fields of the instances of class `name` among `defs`, inherited ones
/// first; `None` when a class of its chain has no definition.
pub fn all_instance_fields(defs: &Vec<ClassDef>, name: &String) -> (r: Option<Vec<String>>)
    ensures
        match r {
            Some(f) => instance_fields_of(defs@, name@, Seq::empty(), defs@.len() as nat) == Some(strings_view(f@)),
            None => instance_fields_of(defs@, name@, Seq::empty(), defs@.len() as nat) is None,
        },
{
    let mut loading: Vec<String> = Vec::new();
    assert(strings_view(loading@) =~= Seq::<Seq<char>>::empty());
    instance_fields_in(defs, name, &mut loading, defs.len())
}

/// The fields of class `name` itself (those of its metaclass), inherited ones
/// first, as loading it gives while the classes of `loading` are being loaded.
/// The chain of metaclasses ends in the instance fields of `Class`: for a class
/// without superclass, and for one whose superclass is still being loaded.
pub open spec fn class_fields_of(defs: Seq<ClassDef>, name: Seq<char>, loading: Seq<Seq<char>>, fuel: nat) -> Option<
    Seq<Seq<char>>,
>
    decreases fuel,
{
    match find_def_from(defs, name, 0) {
        None => None,
        Some(i) => if fuel == 0 {
            None
        } else {
            let d = defs[i];
            let inner = loading.push(name);
            let base = match super_of(d) {
                None => instance_fields_of(defs, "Class"@, inner, (fuel - 1) as nat),
                Some(s) => if inner.contains(s) {
                    instance_fields_of(defs, "Class"@, inner, (fuel - 1) as nat)
                } else {
                    class_fields_of(defs, s, inner, (fuel - 1) as nat)
                },
            };
            match base {
                None => None,
                Some(f) => Some(f + strings_view(d.class_fields@)),
            }
        },
    }
}

fn append_strings(all: &mut Vec<String>, more: &Vec<String>)
    ensures
        strings_view(final(all)@) == strings_view(old(all)@) + strings_view(more@),
{
    let mut k: usize = 0;
    let ghost base = all@;
    while k < more.len()
        invariant
            k <= more.len(),
            strings_view(all@) == strings_view(base) + strings_view(more@.subrange(0, k as int)),
        decreases more.len() - k,
    {
        let ghost pre = all@;
        all.push(more[k].clone());
        assert(strings_view(all@) =~= strings_view(pre).push(more@[k as int]@));
        assert(strings_view(more@.subrange(0, k + 1)) =~= strings_view(more@.subrange(0, k as int)).push(
            more@[k as int]@,
        ));
        k = k + 1;
    }
    assert(more@.subrange(0, more.len() as int) =~= more@);
}

fn class_fields_in(defs: &Vec<ClassDef>, name: &String, loading: &mut Vec<String>, fuel: usize) -> (r: Option<
    Vec<String>,
>)
    ensures
        final(loading)@ == old(loading)@,
        match r {
            Some(f) => class_fields_of(defs@, name@, strings_view(old(loading)@), fuel as nat) == Some(
                strings_view(f@),
            ),
            None => class_fields_of(defs@, name@, strings_view(old(loading)@), fuel as nat) is None,
        },
    decreases fuel,
{
    match find_def(defs, name) {
        None => None,
        Some(i) => {
            if fuel == 0 {
                return None;
            }
            let d = &defs[i];
            let ghost before = loading@;
            loading.push(name.clone());
            assert(strings_view(loading@) =~= strings_view(before).push(name@));
            let class_name = String::from_str("Class");
            let base: Option<Vec<String>> = match super_name(d) {
                None => instance_fields_in(defs, &class_name, loading, fuel - 1),
                Some(s) => if crate::text::contains_string(loading, &s) {
                    instance_fields_in(defs, &class_name, loading, fuel - 1)
                } else {
                    class_fields_in(defs, &s, loading, fuel - 1)
                },
            };
            loading.pop();
            assert(loading@ =~= before);
            match base {
                None => None,
                Some(f) => {
                    let mut all = f;
                    append_strings(&mut all, &d.class_fields);
                    Some(all)
                },
            }
        },
    }
}

/// The fields of class `name` itself among `defs`, inherited ones first;
/// `None` when a class it depends on has no definition.
pub fn all_class_fields(defs: &Vec<ClassDef>, name: &String) -> (r: Option<Vec<String>>)
    ensures
        match r {
            Some(f) => class_fields_of(defs@, name@, Seq::empty(), defs@.len() as nat) == Some(strings_view(f@)),
            None => class_fields_of(defs@, name@, Seq::empty(), defs@.len() as nat) is None,
        },
{
    let mut loading: Vec<String> = Vec::new();
    assert(strings_view(loading@) =~= Seq::<Seq<char>>::empty());
    class_fields_in(defs, name, &mut loading, defs.len())
}

// ---------------------------------------------------------------------------
// Methods the class loader adds
// ---------------------------------------------------------------------------

/// A method that the class loader adds to a class as it assembles it,
/// implemented natively: on the class itself or on its metaclass, listed in
/// the order of the class's methods or not, before the methods of the class
/// definition or after them.
pub struct StubMethod {
    pub signature: Signature,
    pub class_side: bool,
    pub listed: bool,
    pub after_own: bool,
}

pub struct StubV {
    pub signature: SignatureV,
    pub class_side: bool,
    pub listed: bool,
    pub after_own: bool,
}

pub open spec fn stub_view(m: StubMethod) -> StubV {
    StubV { signature: signature_view(m.signature), class_side: m.class_side, listed: m.listed, after_own: m.after_own }
}

pub open spec fn stubs_view(v: Seq<StubMethod>) -> Seq<StubV> {
    v.map_values(|m: StubMethod| stub_view(m))
}

pub open spec fn unary_v(n: &str) -> SignatureV {
    SignatureV::Unary(n@)
}

pub open spec fn kw1_v(k: &str, a: &str) -> SignatureV {
    SignatureV::Keyword(seq![(k@, a@)])
}

pub open spec fn kw2_v(k1: &str, a1: &str, k2: &str, a2: &str) -> SignatureV {
    SignatureV::Keyword(seq![(k1@, a1@), (k2@, a2@)])
}

/// An instance-side method listed before those of the class definition.
pub open spec fn listed(sig: SignatureV) -> StubV {
    StubV { signature: sig, class_side: false, listed: true, after_own: false }
}

/// The methods that assembling the class `name` adds: `Object` gets `halt`,
/// unlisted; `System` the primitives of the development environment;
/// `Debugger` the stepping primitives, `halt` on its metaclass; `Method` and
/// `Primitive` a `source` method after their own methods.
pub open spec fn injected_spec(name: Seq<char>) -> Seq<StubV> {
    if name == "Object"@ {
        seq![StubV { signature: unary_v("halt"), class_side: false, listed: false, after_own: false }]
    } else if name == "System"@ {
        seq![
            listed(kw1_v("evaluate:", "code")),
            listed(unary_v("classNames")),
            listed(kw2_v("serialize:", "object", "format:", "formatString")),
            listed(kw2_v("deserialize:", "data", "format:", "formatString")),
            listed(kw2_v("compileMethod:", "code", "inClass:", "cls")),
            listed(kw2_v("installMethod:", "method", "inClass:", "cls")),
            listed(kw1_v("defineClass:", "code")),
            listed(kw1_v("readText:", "path")),
            listed(kw2_v("writeText:", "content", "to:", "path")),
            listed(kw2_v("appendText:", "content", "to:", "path")),
            listed(kw1_v("evaluateAsync:", "code")),
            listed(unary_v("bgTaskStatus")),
            listed(unary_v("bgTaskResult")),
            listed(unary_v("bgTaskError")),
            listed(unary_v("bgTaskFrames")),
            listed(kw1_v("bgTaskFrameVarsAt:", "idx")),
            listed(kw1_v("bgTaskFrameSourceAt:", "idx")),
            listed(kw1_v("bgTaskCommand:", "cmd")),
            listed(unary_v("bgTaskOutput")),
            listed(kw2_v("registerGui:", "title", "code:", "code")),
            listed(kw1_v("registerGuiClass:", "className"))
        ]
    } else if name == "Debugger"@ {
        seq![
            listed(unary_v("resume")),
            StubV { signature: unary_v("halt"), class_side: true, listed: true, after_own: false },
            listed(unary_v("stepInto")),
            listed(unary_v("currentFrames"))
        ]
    } else if name == "Method"@ || name == "Primitive"@ {
        seq![StubV { signature: unary_v("source"), class_side: false, listed: true, after_own: true }]
    } else {
        Seq::empty()
    }
}

fn unary(n: &str) -> (s: Signature)
    ensures
        signature_view(s) == unary_v(n),
{
    Signature::Unary(String::from_str(n))
}

fn kw1(k: &str, a: &str) -> (s: Signature)
    ensures
        signature_view(s) == kw1_v(k, a),
{
    let parts = vec![(String::from_str(k), String::from_str(a))];
    let s = Signature::Keyword(parts);
    assert(crate::ast::pairs_view(parts@) =~= seq![(k@, a@)]);
    s
}

fn kw2(k1: &str, a1: &str, k2: &str, a2: &str) -> (s: Signature)
    ensures
        signature_view(s) == kw2_v(k1, a1, k2, a2),
{
    let parts = vec![(String::from_str(k1), String::from_str(a1)), (String::from_str(k2), String::from_str(a2))];
    let s = Signature::Keyword(parts);
    assert(crate::ast::pairs_view(parts@) =~= seq![(k1@, a1@), (k2@, a2@)]);
    s
}

fn listed_stub(signature: Signature) -> (m: StubMethod)
    ensures
        stub_view(m) == listed(signature_view(signature)),
{
    StubMethod { signature, class_side: false, listed: true, after_own: false }
}

fn push_stub(v: &mut Vec<StubMethod>, m: StubMethod)
    ensures
        stubs_view(final(v)@) == stubs_view(old(v)@).push(stub_view(m)),
{
    let ghost before = v@;
    let ghost mv = stub_view(m);
    v.push(m);
    assert(stubs_view(v@) =~= stubs_view(before).push(mv));
}

/// The methods that assembling the class named `name` adds to it.
pub fn injected_methods(name: &String) -> (r: Vec<StubMethod>)
    ensures
        stubs_view(r@) == injected_spec(name@),
{
    let mut v: Vec<StubMethod> = Vec::new();
    assert(stubs_view(v@) =~= Seq::<StubV>::empty());
    if *name == String::from_str("Object") {
        push_stub(&mut v, StubMethod { signature: unary("halt"), class_side: false, listed: false, after_own: false });
        assert(stubs_view(v@) =~= injected_spec(name@));
    } else if *name == String::from_str("System") {
        push_stub(&mut v, listed_stub(kw1("evaluate:", "code")));
        push_stub(&mut v, listed_stub(unary("classNames")));
        push_stub(&mut v, listed_stub(kw2("serialize:", "object", "format:", "formatString")));
        push_stub(&mut v, listed_stub(kw2("deserialize:", "data", "format:", "formatString")));
        push_stub(&mut v, listed_stub(kw2("compileMethod:", "code", "inClass:", "cls")));
        push_stub(&mut v, listed_stub(kw2("installMethod:", "method", "inClass:", "cls")));
        push_stub(&mut v, listed_stub(kw1("defineClass:", "code")));
        push_stub(&mut v, listed_stub(kw1("readText:", "path")));
        push_stub(&mut v, listed_stub(kw2("writeText:", "content", "to:", "path")));
        push_stub(&mut v, listed_stub(kw2("appendText:", "content", "to:", "path")));
        push_stub(&mut v, listed_stub(kw1("evaluateAsync:", "code")));
        push_stub(&mut v, listed_stub(unary("bgTaskStatus")));
        push_stub(&mut v, listed_stub(unary("bgTaskResult")));
        push_stub(&mut v, listed_stub(unary("bgTaskError")));
        push_stub(&mut v, listed_stub(unary("bgTaskFrames")));
        push_stub(&mut v, listed_stub(kw1("bgTaskFrameVarsAt:", "idx")));
        push_stub(&mut v, listed_stub(kw1("bgTaskFrameSourceAt:", "idx")));
        push_stub(&mut v, listed_stub(kw1("bgTaskCommand:", "cmd")));
        push_stub(&mut v, listed_stub(unary("bgTaskOutput")));
        push_stub(&mut v, listed_stub(kw2("registerGui:", "title", "code:", "code")));
        push_stub(&mut v, listed_stub(kw1("registerGuiClass:", "className")));
        assert(stubs_view(v@) =~= injected_spec(name@));
    } else if *name == String::from_str("Debugger") {
        push_stub(&mut v, listed_stub(unary("resume")));
        push_stub(&mut v, StubMethod { signature: unary("halt"), class_side: true, listed: true, after_own: false });
        push_stub(&mut v, listed_stub(unary("stepInto")));
        push_stub(&mut v, listed_stub(unary("currentFrames")));
        assert(stubs_view(v@) =~= injected_spec(name@));
    } else if *name == String::from_str("Method") || *name == String::from_str("Primitive") {
        push_stub(&mut v, StubMethod { signature: unary("source"), class_side: false, listed: true, after_own: true });
        assert(stubs_view(v@) =~= injected_spec(name@));
    }
    v
}

/// The selector of a method pattern.
pub open spec fn selector_v(s: SignatureV) -> Seq<char> {
    match s {
        SignatureV::Unary(n) => n,
        SignatureV::Binary(op, _) => op,
        SignatureV::Keyword(parts) => keys_v(parts),
    }
}

pub open spec fn keys_v(parts: Seq<(Seq<char>, Seq<char>)>) -> Seq<char>
    decreases parts.len(),
{
    if parts.len() == 0 {
        Seq::empty()
    } else {
        keys_v(parts.drop_last()) + parts.last().0
    }
}

proof fn lemma_keys_v(parts: Seq<(String, String)>)
    ensures
        keys_v(crate::ast::pairs_view(parts)) == crate::ast::join_keywords(parts),
    decreases parts.len(),
{
    if parts.len() > 0 {
        lemma_keys_v(parts.drop_last());
        assert(crate::ast::pairs_view(parts).drop_last() =~= crate::ast::pairs_view(parts.drop_last()));
    }
}

pub proof fn lemma_selector_v(s: Signature)
    ensures
        selector_v(signature_view(s)) == s.spec_selector(),
{
    match s {
        Signature::Keyword(parts) => {
            lemma_keys_v(parts@);
        },
        _ => {},
    }
}

/// The selectors of the listed stubs of one side, placed before or after the
/// methods of the class definition, in order.
pub open spec fn stub_order(stubs: Seq<StubV>, class_side: bool, after_own: bool) -> Seq<Seq<char>>
    decreases stubs.len(),
{
    if stubs.len() == 0 {
        Seq::empty()
    } else {
        let rest = stub_order(stubs.drop_last(), class_side, after_own);
        let m = stubs.last();
        if m.listed && m.class_side == class_side && m.after_own == after_own {
            rest.push(selector_v(m.signature))
        } else {
            rest
        }
    }
}

/// The order in which the methods of a class are listed, once it is
/// assembled: the stubs added before its own methods, its own methods, then
/// the stubs added after them. A selector defined twice is listed twice.
pub open spec fn method_order_spec(def: ClassDef, class_side: bool) -> Seq<Seq<char>> {
    let stubs = injected_spec(def.name@);
    let own = if class_side { def.class_methods@ } else { def.instance_methods@ };
    stub_order(stubs, class_side, false) + crate::compiler::def_selectors(own) + stub_order(stubs, class_side, true)
}

fn push_stub_selectors(out: &mut Vec<String>, stubs: &Vec<StubMethod>, class_side: bool, after_own: bool)
    ensures
        strings_view(final(out)@) == strings_view(old(out)@) + stub_order(stubs_view(stubs@), class_side, after_own),
{
    let ghost base = out@;
    let mut i: usize = 0;
    while i < stubs.len()
        invariant
            i <= stubs.len(),
            strings_view(out@) == strings_view(base) + stub_order(stubs_view(stubs@.subrange(0, i as int)), class_side, after_own),
        decreases stubs.len() - i,
    {
        let m = &stubs[i];
        let ghost pre = stubs@.subrange(0, i as int);
        let ghost next = stubs@.subrange(0, i + 1);
        assert(stubs_view(next).drop_last() =~= stubs_view(pre));
        assert(stubs_view(next).last() == stub_view(stubs@[i as int]));
        if m.listed && m.class_side == class_side && m.after_own == after_own {
            let sel = m.signature.selector();
            proof {
                lemma_selector_v(m.signature);
            }
            let ghost before = out@;
            out.push(sel);
            assert(strings_view(out@) =~= strings_view(before).push(sel@));
        }
        i = i + 1;
    }
    assert(stubs@.subrange(0, stubs.len() as int) =~= stubs@);
}

fn push_def_selectors(out: &mut Vec<String>, defs: &Vec<crate::ast::MethodDef>)
    ensures
        strings_view(final(out)@) == strings_view(old(out)@) + crate::compiler::def_selectors(defs@),
{
    let ghost base = out@;
    let mut i: usize = 0;
    while i < defs.len()
        invariant
            i <= defs.len(),
            strings_view(out@) == strings_view(base) + crate::compiler::def_selectors(defs@.subrange(0, i as int)),
        decreases defs.len() - i,
    {
        let sel = defs[i].signature.selector();
        let ghost before = out@;
        out.push(sel);
        assert(strings_view(out@) =~= strings_view(before).push(sel@));
        assert(crate::compiler::def_selectors(defs@.subrange(0, i + 1)) =~= crate::compiler::def_selectors(
            defs@.subrange(0, i as int),
        ).push(defs@[i as int].signature.spec_selector()));
        i = i + 1;
    }
    assert(defs@.subrange(0, defs.len() as int) =~= defs@);
}

/// The order in which the methods of the class (`class_side` false) or of its
/// metaclass (`class_side` true) are listed once `def` is assembled.
pub fn method_order(def: &ClassDef, class_side: bool) -> (r: Vec<String>)
    ensures
        strings_view(r@) == method_order_spec(*def, class_side),
{
    let stubs = injected_methods(&def.name);
    let mut out: Vec<String> = Vec::new();
    assert(strings_view(out@) =~= Seq::<Seq<char>>::empty());
    push_stub_selectors(&mut out, &stubs, class_side, false);
    if class_side {
        push_def_selectors(&mut out, &def.class_methods);
    } else {
        push_def_selectors(&mut out, &def.instance_methods);
    }
    push_stub_selectors(&mut out, &stubs, class_side, true);
    assert(strings_view(out@) =~= method_order_spec(*def, class_side));
    out
}

} // verus!

//! Running a program: loading classes from their definitions, the way a
//! class path is searched, and sending the first message to the main class.
use vstd::prelude::*;
use crate::ast::{copy_class_def, ClassDef, MethodBody, MethodDef};
use crate::eval::EvalError;
use crate::loader::LoadStep;
use crate::object::{HeapCell, Value};
use crate::runtime::{global_class, Outcome, Store, StoreV};

verus! {

/// Why a class could not be loaded.
#[derive(Debug, PartialEq, Eq)]
pub enum LoadError {
    /// No definition of the class is at hand.
    NotFound(String),
    /// Assembling the class would have left the state ill formed (a class
    /// among its own superclasses, say); it is left unassembled.
    Malformed(String),
    /// Classes that need one another to load nest deeper than there are
    /// definitions.
    TooDeep,
    /// The class (first) declares a primitive method (second, its selector)
    /// that no primitive is registered for.
    UnregisteredPrimitive(String, String),
    /// Binding this global would leave the state ill formed: it names a
    /// class that objects refer to.
    NameTaken(String),
}

/// Why a program could not be run.
#[derive(Debug, PartialEq, Eq)]
pub enum RunError {
    Load(LoadError),
    Eval(EvalError),
}

/// The keys under which the interpreter registers primitives, in order.
pub open spec fn registered_keys() -> Seq<Seq<char>> {
    Seq::empty()
        .push("Array class>>new:"@)
        .push("Array>>at:"@)
        .push("Array>>at:put:"@)
        .push("Array>>length"@)
        .push("AsyncFile class>>read:then:error:"@)
        .push("AsyncFile class>>write:content:then:error:"@)
        .push("AsyncIO class>>processEvents"@)
        .push("AsyncTcpSocket class>>close:"@)
        .push("AsyncTcpSocket class>>primAccept:then:error:"@)
        .push("AsyncTcpSocket class>>primConnectTo:port:then:error:"@)
        .push("AsyncTcpSocket class>>primListenOn:port:then:error:"@)
        .push("AsyncTcpSocket class>>read:then:error:"@)
        .push("AsyncTcpSocket class>>write:content:then:error:"@)
        .push("Block>>restart"@)
        .push("Block>>value"@)
        .push("Block>>value:"@)
        .push("Block>>value:with:"@)
        .push("Block>>whileFalse:"@)
        .push("Block>>whileTrue:"@)
        .push("Boolean>>ifTrue:ifFalse:"@)
        .push("Class>>fields"@)
        .push("Class>>hasMethod:"@)
        .push("Class>>methods"@)
        .push("Class>>name"@)
        .push("Class>>new"@)
        .push("Class>>selectors"@)
        .push("Class>>superclass"@)
        .push("Debugger class>>halt"@)
        .push("Debugger>>currentFrames"@)
        .push("Debugger>>resume"@)
        .push("Debugger>>stepInto"@)
        .push("Double class>>PositiveInfinity"@)
        .push("Double class>>fromString:"@)
        .push("Double>>%"@)
        .push("Double>>*"@)
        .push("Double>>+"@)
        .push("Double>>-"@)
        .push("Double>>//"@)
        .push("Double>><"@)
        .push("Double>>="@)
        .push("Double>>abs"@)
        .push("Double>>asInteger"@)
        .push("Double>>asString"@)
        .push("Double>>cos"@)
        .push("Double>>downTo:do:"@)
        .push("Double>>round"@)
        .push("Double>>sin"@)
        .push("Double>>sqrt"@)
        .push("Double>>to:do:"@)
        .push("EguiContext>>isKeyDown:"@)
        .push("EguiContext>>requestRepaint"@)
        .push("EguiContext>>window:do:"@)
        .push("EguiPainter>>drawLineX1:y1:x2:y2:width:r:g:b:a:"@)
        .push("EguiPainter>>fillCircleX:y:radius:r:g:b:a:"@)
        .push("EguiPainter>>fillRectX:y:w:h:r:g:b:a:"@)
        .push("EguiUi>>button:"@)
        .push("EguiUi>>heading:"@)
        .push("EguiUi>>label:"@)
        .push("EguiUi>>primColumns:do:"@)
        .push("EguiUi>>primComboBox:selected:options:do:"@)
        .push("EguiUi>>primGroup:"@)
        .push("EguiUi>>primHorizontal:"@)
        .push("EguiUi>>primScrollArea:"@)
        .push("EguiUi>>primVertical:"@)
        .push("EguiUi>>separator"@)
        .push("EguiUi>>textEdit:"@)
        .push("EguiUi>>textEditMultiline:"@)
        .push("False>>ifFalse:"@)
        .push("False>>ifTrue:"@)
        .push("False>>not"@)
        .push("Integer class>>fromString:"@)
        .push("Integer>>%"@)
        .push("Integer>>&"@)
        .push("Integer>>*"@)
        .push("Integer>>+"@)
        .push("Integer>>-"@)
        .push("Integer>>/"@)
        .push("Integer>>//"@)
        .push("Integer>><"@)
        .push("Integer>><<"@)
        .push("Integer>><="@)
        .push("Integer>>="@)
        .push("Integer>>>>>"@)
        .push("Integer>>abs"@)
        .push("Integer>>as32BitSignedValue"@)
        .push("Integer>>as32BitUnsignedValue"@)
        .push("Integer>>asDouble"@)
        .push("Integer>>asString"@)
        .push("Integer>>atRandom"@)
        .push("Integer>>bitXor:"@)
        .push("Integer>>downTo:do:"@)
        .push("Integer>>max:"@)
        .push("Integer>>min:"@)
        .push("Integer>>rem:"@)
        .push("Integer>>round"@)
        .push("Integer>>sqrt"@)
        .push("Integer>>to:do:"@)
        .push("Method>>holder"@)
        .push("Method>>invokeOn:with:"@)
        .push("Method>>signature"@)
        .push("Method>>source"@)
        .push("Nil>>asString"@)
        .push("Object>>=="@)
        .push("Object>>class"@)
        .push("Object>>error:"@)
        .push("Object>>halt"@)
        .push("Object>>hashcode"@)
        .push("Object>>inspect"@)
        .push("Object>>instVarAt:"@)
        .push("Object>>instVarAt:put:"@)
        .push("Object>>instVarNamed:"@)
        .push("Object>>objectSize"@)
        .push("Object>>perform:"@)
        .push("Object>>perform:inSuperclass:"@)
        .push("Object>>perform:withArguments:"@)
        .push("Object>>perform:withArguments:inSuperclass:"@)
        .push("Object>>respondsTo:"@)
        .push("Primitive>>holder"@)
        .push("Primitive>>invokeOn:with:"@)
        .push("Primitive>>signature"@)
        .push("Primitive>>source"@)
        .push("String>>="@)
        .push("String>>asSymbol"@)
        .push("String>>concatenate:"@)
        .push("String>>hashcode"@)
        .push("String>>isDigits"@)
        .push("String>>isLetters"@)
        .push("String>>isWhiteSpace"@)
        .push("String>>length"@)
        .push("String>>primSubstringFrom:to:"@)
        .push("Symbol>>asString"@)
        .push("System>>appendText:to:"@)
        .push("System>>bgTaskCommand:"@)
        .push("System>>bgTaskError"@)
        .push("System>>bgTaskFrameSourceAt:"@)
        .push("System>>bgTaskFrameVarsAt:"@)
        .push("System>>bgTaskFrames"@)
        .push("System>>bgTaskResult"@)
        .push("System>>bgTaskStatus"@)
        .push("System>>classNames"@)
        .push("System>>compileMethod:inClass:"@)
        .push("System>>defineClass:"@)
        .push("System>>deserialize:format:"@)
        .push("System>>errorPrint:"@)
        .push("System>>errorPrintln:"@)
        .push("System>>evaluate:"@)
        .push("System>>evaluateAsync:"@)
        .push("System>>exit:"@)
        .push("System>>fullGC"@)
        .push("System>>global:"@)
        .push("System>>global:put:"@)
        .push("System>>hasGlobal:"@)
        .push("System>>installMethod:inClass:"@)
        .push("System>>load:"@)
        .push("System>>loadFile:"@)
        .push("System>>printNewline"@)
        .push("System>>printStackTrace"@)
        .push("System>>printString:"@)
        .push("System>>readText:"@)
        .push("System>>serialize:format:"@)
        .push("System>>ticks"@)
        .push("System>>time"@)
        .push("System>>writeText:to:"@)
        .push("True>>ifFalse:"@)
        .push("True>>ifTrue:"@)
        .push("True>>not"@)
}

/// The keys under which the interpreter registers primitives.
pub fn registered_primitives() -> (r: Vec<String>)
    ensures
        crate::text::strings_view(r@) == registered_keys(),
{
    let mut r: Vec<String> = Vec::new();
    assert(crate::text::strings_view(r@) =~= Seq::<Seq<char>>::empty());
    push_key(&mut r, "Array class>>new:");
    push_key(&mut r, "Array>>at:");
    push_key(&mut r, "Array>>at:put:");
    push_key(&mut r, "Array>>length");
    push_key(&mut r, "AsyncFile class>>read:then:error:");
    push_key(&mut r, "AsyncFile class>>write:content:then:error:");
    push_key(&mut r, "AsyncIO class>>processEvents");
    push_key(&mut r, "AsyncTcpSocket class>>close:");
    push_key(&mut r, "AsyncTcpSocket class>>primAccept:then:error:");
    push_key(&mut r, "AsyncTcpSocket class>>primConnectTo:port:then:error:");
    push_key(&mut r, "AsyncTcpSocket class>>primListenOn:port:then:error:");
    push_key(&mut r, "AsyncTcpSocket class>>read:then:error:");
    push_key(&mut r, "AsyncTcpSocket class>>write:content:then:error:");
    push_key(&mut r, "Block>>restart");
    push_key(&mut r, "Block>>value");
    push_key(&mut r, "Block>>value:");
    push_key(&mut r, "Block>>value:with:");
    push_key(&mut r, "Block>>whileFalse:");
    push_key(&mut r, "Block>>whileTrue:");
    push_key(&mut r, "Boolean>>ifTrue:ifFalse:");
    push_key(&mut r, "Class>>fields");
    push_key(&mut r, "Class>>hasMethod:");
    push_key(&mut r, "Class>>methods");
    push_key(&mut r, "Class>>name");
    push_key(&mut r, "Class>>new");
    push_key(&mut r, "Class>>selectors");
    push_key(&mut r, "Class>>superclass");
    push_key(&mut r, "Debugger class>>halt");
    push_key(&mut r, "Debugger>>currentFrames");
    push_key(&mut r, "Debugger>>resume");
    push_key(&mut r, "Debugger>>stepInto");
    push_key(&mut r, "Double class>>PositiveInfinity");
    push_key(&mut r, "Double class>>fromString:");
    push_key(&mut r, "Double>>%");
    push_key(&mut r, "Double>>*");
    push_key(&mut r, "Double>>+");
    push_key(&mut r, "Double>>-");
    push_key(&mut r, "Double>>//");
    push_key(&mut r, "Double>><");
    push_key(&mut r, "Double>>=");
    push_key(&mut r, "Double>>abs");
    push_key(&mut r, "Double>>asInteger");
    push_key(&mut r, "Double>>asString");
    push_key(&mut r, "Double>>cos");
    push_key(&mut r, "Double>>downTo:do:");
    push_key(&mut r, "Double>>round");
    push_key(&mut r, "Double>>sin");
    push_key(&mut r, "Double>>sqrt");
    push_key(&mut r, "Double>>to:do:");
    push_key(&mut r, "EguiContext>>isKeyDown:");
    push_key(&mut r, "EguiContext>>requestRepaint");
    push_key(&mut r, "EguiContext>>window:do:");
    push_key(&mut r, "EguiPainter>>drawLineX1:y1:x2:y2:width:r:g:b:a:");
    push_key(&mut r, "EguiPainter>>fillCircleX:y:radius:r:g:b:a:");
    push_key(&mut r, "EguiPainter>>fillRectX:y:w:h:r:g:b:a:");
    push_key(&mut r, "EguiUi>>button:");
    push_key(&mut r, "EguiUi>>heading:");
    push_key(&mut r, "EguiUi>>label:");
    push_key(&mut r, "EguiUi>>primColumns:do:");
    push_key(&mut r, "EguiUi>>primComboBox:selected:options:do:");
    push_key(&mut r, "EguiUi>>primGroup:");
    push_key(&mut r, "EguiUi>>primHorizontal:");
    push_key(&mut r, "EguiUi>>primScrollArea:");
    push_key(&mut r, "EguiUi>>primVertical:");
    push_key(&mut r, "EguiUi>>separator");
    push_key(&mut r, "EguiUi>>textEdit:");
    push_key(&mut r, "EguiUi>>textEditMultiline:");
    push_key(&mut r, "False>>ifFalse:");
    push_key(&mut r, "False>>ifTrue:");
    push_key(&mut r, "False>>not");
    push_key(&mut r, "Integer class>>fromString:");
    push_key(&mut r, "Integer>>%");
    push_key(&mut r, "Integer>>&");
    push_key(&mut r, "Integer>>*");
    push_key(&mut r, "Integer>>+");
    push_key(&mut r, "Integer>>-");
    push_key(&mut r, "Integer>>/");
    push_key(&mut r, "Integer>>//");
    push_key(&mut r, "Integer>><");
    push_key(&mut r, "Integer>><<");
    push_key(&mut r, "Integer>><=");
    push_key(&mut r, "Integer>>=");
    push_key(&mut r, "Integer>>>>>");
    push_key(&mut r, "Integer>>abs");
    push_key(&mut r, "Integer>>as32BitSignedValue");
    push_key(&mut r, "Integer>>as32BitUnsignedValue");
    push_key(&mut r, "Integer>>asDouble");
    push_key(&mut r, "Integer>>asString");
    push_key(&mut r, "Integer>>atRandom");
    push_key(&mut r, "Integer>>bitXor:");
    push_key(&mut r, "Integer>>downTo:do:");
    push_key(&mut r, "Integer>>max:");
    push_key(&mut r, "Integer>>min:");
    push_key(&mut r, "Integer>>rem:");
    push_key(&mut r, "Integer>>round");
    push_key(&mut r, "Integer>>sqrt");
    push_key(&mut r, "Integer>>to:do:");
    push_key(&mut r, "Method>>holder");
    push_key(&mut r, "Method>>invokeOn:with:");
    push_key(&mut r, "Method>>signature");
    push_key(&mut r, "Method>>source");
    push_key(&mut r, "Nil>>asString");
    push_key(&mut r, "Object>>==");
    push_key(&mut r, "Object>>class");
    push_key(&mut r, "Object>>error:");
    push_key(&mut r, "Object>>halt");
    push_key(&mut r, "Object>>hashcode");
    push_key(&mut r, "Object>>inspect");
    push_key(&mut r, "Object>>instVarAt:");
    push_key(&mut r, "Object>>instVarAt:put:");
    push_key(&mut r, "Object>>instVarNamed:");
    push_key(&mut r, "Object>>objectSize");
    push_key(&mut r, "Object>>perform:");
    push_key(&mut r, "Object>>perform:inSuperclass:");
    push_key(&mut r, "Object>>perform:withArguments:");
    push_key(&mut r, "Object>>perform:withArguments:inSuperclass:");
    push_key(&mut r, "Object>>respondsTo:");
    push_key(&mut r, "Primitive>>holder");
    push_key(&mut r, "Primitive>>invokeOn:with:");
    push_key(&mut r, "Primitive>>signature");
    push_key(&mut r, "Primitive>>source");
    push_key(&mut r, "String>>=");
    push_key(&mut r, "String>>asSymbol");
    push_key(&mut r, "String>>concatenate:");
    push_key(&mut r, "String>>hashcode");
    push_key(&mut r, "String>>isDigits");
    push_key(&mut r, "String>>isLetters");
    push_key(&mut r, "String>>isWhiteSpace");
    push_key(&mut r, "String>>length");
    push_key(&mut r, "String>>primSubstringFrom:to:");
    push_key(&mut r, "Symbol>>asString");
    push_key(&mut r, "System>>appendText:to:");
    push_key(&mut r, "System>>bgTaskCommand:");
    push_key(&mut r, "System>>bgTaskError");
    push_key(&mut r, "System>>bgTaskFrameSourceAt:");
    push_key(&mut r, "System>>bgTaskFrameVarsAt:");
    push_key(&mut r, "System>>bgTaskFrames");
    push_key(&mut r, "System>>bgTaskResult");
    push_key(&mut r, "System>>bgTaskStatus");
    push_key(&mut r, "System>>classNames");
    push_key(&mut r, "System>>compileMethod:inClass:");
    push_key(&mut r, "System>>defineClass:");
    push_key(&mut r, "System>>deserialize:format:");
    push_key(&mut r, "System>>errorPrint:");
    push_key(&mut r, "System>>errorPrintln:");
    push_key(&mut r, "System>>evaluate:");
    push_key(&mut r, "System>>evaluateAsync:");
    push_key(&mut r, "System>>exit:");
    push_key(&mut r, "System>>fullGC");
    push_key(&mut r, "System>>global:");
    push_key(&mut r, "System>>global:put:");
    push_key(&mut r, "System>>hasGlobal:");
    push_key(&mut r, "System>>installMethod:inClass:");
    push_key(&mut r, "System>>load:");
    push_key(&mut r, "System>>loadFile:");
    push_key(&mut r, "System>>printNewline");
    push_key(&mut r, "System>>printStackTrace");
    push_key(&mut r, "System>>printString:");
    push_key(&mut r, "System>>readText:");
    push_key(&mut r, "System>>serialize:format:");
    push_key(&mut r, "System>>ticks");
    push_key(&mut r, "System>>time");
    push_key(&mut r, "System>>writeText:to:");
    push_key(&mut r, "True>>ifFalse:");
    push_key(&mut r, "True>>ifTrue:");
    push_key(&mut r, "True>>not");
    r
}

/// Adds `key` at the end of `keys`.
fn push_key(keys: &mut Vec<String>, key: &str)
    ensures
        crate::text::strings_view(final(keys)@) == crate::text::strings_view(old(keys)@).push(key@),
{
    keys.push(String::from_str(key));
    assert(crate::text::strings_view(keys@) =~= crate::text::strings_view(old(keys)@).push(key@));
}

/// The selector of the first of `methods` that is declared primitive while
/// no primitive is registered (among `keys`) under `owner`, `>>` and that
/// selector.
pub open spec fn unregistered_in(keys: Seq<Seq<char>>, owner: Seq<char>, methods: Seq<MethodDef>) -> Option<Seq<char>>
    decreases methods.len(),
{
    if methods.len() == 0 {
        None
    } else {
        match unregistered_in(keys, owner, methods.drop_last()) {
            Some(sel) => Some(sel),
            None => {
                let m = methods.last();
                let sel = m.signature.spec_selector();
                if m.body is Primitive && !keys.contains(owner + ">>"@ + sel) {
                    Some(sel)
                } else {
                    None
                }
            },
        }
    }
}

proof fn lemma_unregistered_prefix(keys: Seq<Seq<char>>, owner: Seq<char>, ms: Seq<MethodDef>, n: int)
    requires
        0 <= n <= ms.len(),
        unregistered_in(keys, owner, ms.take(n)) is Some,
    ensures
        unregistered_in(keys, owner, ms) == unregistered_in(keys, owner, ms.take(n)),
    decreases ms.len(),
{
    if n == ms.len() {
        assert(ms.take(n) =~= ms);
    } else {
        assert(ms.drop_last().take(n) =~= ms.take(n));
        lemma_unregistered_prefix(keys, owner, ms.drop_last(), n);
    }
}

/// The selector of the first primitive method of `d` that no primitive is
/// registered for: its instance methods first (under `Name>>`), then its
/// class methods (under `Name class>>`).
pub open spec fn unregistered(keys: Seq<Seq<char>>, d: ClassDef) -> Option<Seq<char>> {
    match unregistered_in(keys, d.name@, d.instance_methods@) {
        Some(sel) => Some(sel),
        None => unregistered_in(keys, d.name@ + " class"@, d.class_methods@),
    }
}

/// The first of `methods` that is declared primitive with no primitive
/// registered for it, as `unregistered_in` says.
fn first_unregistered(keys: &Vec<String>, owner: &String, methods: &Vec<MethodDef>) -> (r: Option<String>)
    ensures
        match r {
            Some(sel) => unregistered_in(crate::text::strings_view(keys@), owner@, methods@) == Some(sel@),
            None => unregistered_in(crate::text::strings_view(keys@), owner@, methods@) is None,
        },
{
    let mut i: usize = 0;
    while i < methods.len()
        invariant
            i <= methods@.len(),
            unregistered_in(crate::text::strings_view(keys@), owner@, methods@.take(i as int)) is None,
        decreases methods.len() - i,
    {
        assert(methods@.take(i + 1).drop_last() =~= methods@.take(i as int));
        let sel = methods[i].signature.selector();
        let is_primitive = match methods[i].body {
            MethodBody::Primitive => true,
            MethodBody::Block(_) => false,
        };
        if is_primitive {
            let mut key = owner.clone();
            key.append(">>");
            key.append(sel.as_str());
            if !crate::text::contains_string(keys, &key) {
                proof {
                    assert(unregistered_in(crate::text::strings_view(keys@), owner@, methods@.take(i + 1)) == Some(sel@));
                    lemma_unregistered_prefix(crate::text::strings_view(keys@), owner@, methods@, i + 1);
                }
                return Some(sel);
            }
        }
        i = i + 1;
    }
    assert(methods@.take(methods@.len() as int) =~= methods@);
    None
}

/// The first primitive method of `def` with no primitive registered for it,
/// as `unregistered` says.
fn unregistered_primitive(keys: &Vec<String>, def: &ClassDef) -> (r: Option<String>)
    ensures
        match r {
            Some(sel) => unregistered(crate::text::strings_view(keys@), *def) == Some(sel@),
            None => unregistered(crate::text::strings_view(keys@), *def) is None,
        },
{
    match first_unregistered(keys, &def.name, &def.instance_methods) {
        Some(sel) => Some(sel),
        None => {
            let mut meta = def.name.clone();
            meta.append(" class");
            first_unregistered(keys, &meta, &def.class_methods)
        },
    }
}

/// How many of `defs` define a class that none of `names` names: how many
/// loads can still nest once the classes named are being loaded.
pub open spec fn unloaded_count(defs: Seq<ClassDef>, names: Seq<Seq<char>>) -> nat
    decreases defs.len(),
{
    if defs.len() == 0 {
        0
    } else {
        unloaded_count(defs.drop_last(), names) + if names.contains(defs.last().name@) {
            0nat
        } else {
            1nat
        }
    }
}

proof fn lemma_unloaded_count_bound(defs: Seq<ClassDef>, names: Seq<Seq<char>>)
    ensures
        unloaded_count(defs, names) <= defs.len(),
    decreases defs.len(),
{
    if defs.len() > 0 {
        lemma_unloaded_count_bound(defs.drop_last(), names);
    }
}

/// Naming one more class, defined in `defs` and not named yet, leaves fewer
/// definitions unnamed.
proof fn lemma_unloaded_count_shrinks(defs: Seq<ClassDef>, names: Seq<Seq<char>>, x: Seq<char>, i: int)
    requires
        !names.contains(x),
        0 <= i < defs.len(),
        defs[i].name@ == x,
    ensures
        unloaded_count(defs, names.push(x)) < unloaded_count(defs, names),
    decreases defs.len(),
{
    lemma_unloaded_count_le(defs.drop_last(), names, x);
    if i < defs.len() - 1 {
        assert(defs.drop_last()[i] == defs[i]);
        lemma_unloaded_count_shrinks(defs.drop_last(), names, x, i);
    }
    assert(names.push(x)[names.len() as int] == x);
    assert(names.push(x).contains(x));
    if names.contains(defs.last().name@) {
        let j = choose|j: int| 0 <= j < names.len() && names[j] == defs.last().name@;
        assert(names.push(x)[j] == defs.last().name@);
    }
}

proof fn lemma_unloaded_count_le(defs: Seq<ClassDef>, names: Seq<Seq<char>>, x: Seq<char>)
    ensures
        unloaded_count(defs, names.push(x)) <= unloaded_count(defs, names),
    decreases defs.len(),
{
    if defs.len() > 0 {
        lemma_unloaded_count_le(defs.drop_last(), names, x);
        if names.contains(defs.last().name@) {
            let j = choose|j: int| 0 <= j < names.len() && names[j] == defs.last().name@;
            assert(names.push(x)[j] == defs.last().name@);
        }
    }
}

/// Class `name`, bound to class `k` in state `u`, cannot be assembled there:
/// `dd` is a copy of its first definition (the `i`th of `defs`), and with the
/// superclass that definition names, `Class` (or no class, `0`, where none
/// is needed) and `Metaclass` as `u` binds them, either an index is out of
/// range or the assembled state would be ill formed.
pub open spec fn assembly_fails(
    u: StoreV,
    defs: Seq<ClassDef>,
    name: Seq<char>,
    k: usize,
    i: int,
    dd: ClassDef,
    sup: Option<usize>,
    cc: usize,
    mc: usize,
) -> bool {
    &&& 0 <= i < defs.len()
    &&& defs[i].name@ == name
    &&& forall|j: int| 0 <= j < i ==> #[trigger] defs[j].name@ != name
    &&& crate::ast::class_view(dd) == crate::ast::class_view(defs[i])
    &&& global_class(u, name) == Some(k)
    &&& crate::eval::chosen_superclass(u, crate::ast::class_view(dd)) == Ok::<Option<usize>, Seq<char>>(sup)
    &&& (cc == 0 || global_class(u, "Class"@) == Some(cc))
    &&& global_class(u, "Metaclass"@) == Some(mc)
    &&& (k >= u.classes.len() || cc >= u.classes.len() || mc >= u.classes.len() || (sup matches Some(j) && j
        >= u.classes.len()) || !crate::loader::assembled(u, dd, k, sup, cc, mc).wf())
}

/// Whether loading from `s`, with the names of `loading` being loaded,
/// may still assemble into class `j`: the `Metaclass` of a new store,
/// while it is not itself being loaded.
pub open spec fn reassembles(s: StoreV, loading: Seq<Seq<char>>, j: int) -> bool {
    &&& crate::loader::load_step(s, "Metaclass"@).0 == LoadStep::Assemble(j as usize)
    &&& !loading.contains("Metaclass"@)
}

/// `u` keeps every class of `s` as it was, but one that loading may still
/// assemble into, keeps each name bound to the class it was bound to, and
/// binds each name that has no class in `s` to a class added after those of
/// `s`.
pub open spec fn classes_kept(s: StoreV, u: StoreV, loading: Seq<Seq<char>>) -> bool {
    &&& s.classes.len() <= u.classes.len()
    &&& forall|n: Seq<char>| #[trigger] global_class(s, n) is Some ==> global_class(u, n) == global_class(s, n)
    &&& forall|j: int| 0 <= j < s.classes.len() && !reassembles(s, loading, j) ==> #[trigger] u.classes[j] == s.classes[j]
    &&& forall|n: Seq<char>| global_class(s, n) is None && #[trigger] global_class(u, n) is Some ==> global_class(u, n)->Some_0 >= s.classes.len()
}

/// The first step of loading keeps the classes.
proof fn lemma_load_step_keeps_classes(s: StoreV, name: Seq<char>, loading: Seq<Seq<char>>)
    requires
        s.wf(),
        s.classes.len() <= usize::MAX,
    ensures
        classes_kept(s, crate::loader::load_step(s, name).1, loading),
{
    let t = crate::loader::load_step(s, name).1;
    crate::loader::lemma_load_step_binds(s, name);
    assert forall|n: Seq<char>| global_class(s, n) is None && #[trigger] global_class(t, n) is Some implies global_class(t, n)->Some_0
        >= s.classes.len() by {
        if n != name {
            crate::loader::lemma_load_step_unbound(s, name, n);
        }
    }
}

/// Keeping the classes composes, where `Metaclass` stays among the names
/// being loaded.
proof fn lemma_classes_kept_trans(s: StoreV, u: StoreV, l: Seq<Seq<char>>, l2: Seq<Seq<char>>)
    requires
        classes_kept(s, u, l),
        l.contains("Metaclass"@) ==> l2.contains("Metaclass"@),
        u.classes.len() <= usize::MAX,
    ensures
        forall|v: StoreV| #[trigger] classes_kept(u, v, l2) ==> classes_kept(s, v, l),
{
    let m = "Metaclass"@;
    assert forall|v: StoreV| #[trigger] classes_kept(u, v, l2) implies classes_kept(s, v, l) by {
        assert forall|j: int| 0 <= j < s.classes.len() && !reassembles(s, l, j) implies #[trigger] v.classes[j]
            == s.classes[j] by {
            assert(u.classes[j] == s.classes[j]);
            if reassembles(u, l2, j) {
                match global_class(u, m) {
                    Some(i) => {
                        if global_class(s, m) is Some {
                            assert(global_class(s, m) == Some(i));
                            assert(reassembles(s, l, j));
                        } else {
                            assert(i >= s.classes.len());
                        }
                    },
                    None => {},
                }
            }
        }
        assert forall|n: Seq<char>| global_class(s, n) is None && #[trigger] global_class(v, n) is Some implies global_class(
            v,
            n,
        )->Some_0 >= s.classes.len() by {
            if global_class(u, n) is Some {
                assert(global_class(v, n) == global_class(u, n));
            }
        }
        assert forall|n: Seq<char>| #[trigger] global_class(s, n) is Some implies global_class(v, n) == global_class(s, n) by {
            assert(global_class(u, n) == global_class(s, n));
        }
    }
}

/// Class `name` cannot be assembled in state `u`, as `assembly_fails` says
/// for some copy of its definition and some choice of the classes it needs.
pub open spec fn cannot_assemble(u: StoreV, defs: Seq<ClassDef>, name: Seq<char>) -> bool {
    exists|k: usize, i: int, dd: ClassDef, sup: Option<usize>, cc: usize, mc: usize|
        #[trigger] assembly_fails(u, defs, name, k, i, dd, sup, cc, mc)
}

/// A class that a well-formed state binds to a name is one of its classes.
proof fn lemma_bound_class_held(s: StoreV, name: Seq<char>)
    requires
        s.wf(),
        global_class(s, name) is Some,
    ensures
        global_class(s, name).unwrap() < s.classes.len(),
{
    crate::text::lemma_index_of_from(crate::runtime::keys(s.globals), name, 0);
    let i = crate::runtime::entry_index(s.globals, name).unwrap();
    assert(s.globals[i].1 matches crate::object::ValueV::Class(j) ==> j < s.classes.len());
}

/// Whether class `k` of `s` has a method `run:` of its own.
pub open spec fn runs_with_arguments(s: StoreV, k: int) -> bool {
    crate::runtime::entry_index(s.classes[k].methods, "run:"@) is Some
}

/// The cells a program starts with, after those of `s`: a new instance of
/// class `k`, a string for each argument, then an array of those strings.
pub open spec fn start_cells(s: StoreV, k: int, args: Seq<Seq<char>>) -> Seq<crate::object::CellV> {
    let c0 = s.cells.len();
    let cls = s.classes[k];
    s.cells.push(crate::object::CellV::Object(cls.name, Seq::new(cls.instance_fields.len(), |i: int| crate::object::ValueV::Nil)))
        + Seq::new(args.len(), |i: int| crate::object::CellV::Str(args[i])).push(
        crate::object::CellV::Array(Seq::new(args.len(), |i: int| crate::object::ValueV::String((c0 + 1 + i) as usize))),
    )
}

/// What a program answers, given the state `u` it has once its classes are
/// loaded and `k` its main class: `o` is the outcome of sending the message
/// of `program_start` (as far as `direct_send` fixes it), and the program
/// answers its value, or ends with its error; a return that escapes the send
/// is an error.
pub open spec fn program_answer(
    u: StoreV,
    k: int,
    args: Seq<Seq<char>>,
    o: Result<Outcome, EvalError>,
    r: Result<Value, RunError>,
    t: StoreV,
) -> bool {
    let started = StoreV { cells: start_cells(u, k, args), ..u };
    let with_args = runs_with_arguments(u, k);
    let sel = if with_args {
        "run:"@
    } else {
        "run"@
    };
    let sent = if with_args {
        seq![crate::object::ValueV::Array((u.cells.len() + 1 + args.len()) as usize)]
    } else {
        Seq::empty()
    };
    &&& crate::eval::direct_send(started, crate::object::ValueV::Object(u.cells.len() as usize), sel, sent, 1, o, t)
    &&& r == match o {
            Ok(Outcome::Value(v)) => Ok::<Value, RunError>(v),
            Ok(_) => Err(RunError::Eval(EvalError::Escaped)),
            Err(e) => Err(RunError::Eval(e)),
        }
}

/// Whether `name` is among `names`.
fn listed(names: &Vec<String>, name: &String) -> (r: bool)
    ensures
        r == crate::text::strings_view(names@).contains(name@),
{
    crate::text::contains_string(names, name)
}

/// The definition of class `name`, the first one of that name.
fn definition_of(defs: &Vec<ClassDef>, name: &String) -> (r: Option<usize>)
    ensures
        r matches Some(i) ==> i < defs@.len() && defs@[i as int].name@ == name@ && forall|j: int|
            0 <= j < i ==> #[trigger] defs@[j].name@ != name@,
        r is None ==> forall|j: int| 0 <= j < defs@.len() ==> #[trigger] defs@[j].name@ != name@,
{
    let mut i: usize = 0;
    while i < defs.len()
        invariant
            i <= defs@.len(),
            forall|j: int| 0 <= j < i ==> #[trigger] defs@[j].name@ != name@,
        decreases defs.len() - i,
    {
        if defs[i].name == *name {
            return Some(i);
        }
        i = i + 1;
    }
    None
}

impl Store {
    /// Loads class `name` from `defs`: the class bound to the name, once
    /// loaded; otherwise its definition assembled into a class bound to the
    /// name, after its superclass and the classes `Class` and `Metaclass`.
    /// `loading` lists the classes being assembled, which count as loaded;
    /// `fuel` bounds how deep loads nest. A class that declares a primitive
    /// no primitive is registered for does not load; a load that fails keeps
    /// every class bound before it (the class it set up stays bound, not
    /// assembled).
    #[verifier::rlimit(100)]
    #[verifier::rlimit(100)]
    pub fn load_class(&mut self, defs: &Vec<ClassDef>, name: &String, loading: &mut Vec<String>, fuel: usize) -> (r: Result<
        usize,
        LoadError,
    >)
        requires
            old(self)@.wf(),
        ensures
            final(self)@.wf(),
            r matches Ok(k) ==> {
                &&& k < final(self).classes@.len()
                &&& global_class(final(self)@, name@) == Some(k)
            },
            forall|n: Seq<char>| #[trigger] global_class(old(self)@, n) is Some ==> global_class(final(self)@, n)
                == global_class(old(self)@, n),
            r is Ok ==> final(loading)@ == old(loading)@,
            !(r matches Err(LoadError::NameTaken(_))),
            fuel > unloaded_count(defs@, crate::text::strings_view(old(loading)@)) ==> !(r matches Err(LoadError::TooDeep)),
            crate::loader::load_step(old(self)@, name@).0 matches LoadStep::Loaded(k) ==> r == Ok::<usize, LoadError>(k)
                && final(self)@ == old(self)@,
            classes_kept(old(self)@, final(self)@, crate::text::strings_view(old(loading)@)),
            ({
                let (step, t) = crate::loader::load_step(old(self)@, name@);
                step is Assemble && !crate::text::strings_view(old(loading)@).contains(name@) && r is Err
                    ==> final(self)@.classes[step->Assemble_0 as int] == t.classes[step->Assemble_0 as int]
            }),
            crate::text::strings_view(old(loading)@).contains(name@) ==> (crate::loader::load_step(old(self)@, name@).0 matches LoadStep::Assemble(k)
                ==> r == Ok::<usize, LoadError>(k)),
            r matches Err(LoadError::NotFound(n)) ==> forall|j: int| 0 <= j < defs@.len() ==> #[trigger] defs@[j].name@ != n@,
            r matches Err(LoadError::Malformed(n)) ==> cannot_assemble(final(self)@, defs@, n@),
            r matches Err(LoadError::UnregisteredPrimitive(c, u)) ==> exists|i: int|
                0 <= i < defs@.len() && #[trigger] defs@[i].name@ == c@ && unregistered(final(self)@.primitives, defs@[i])
                    == Some(u@),
            ({
                let (step, t) = crate::loader::load_step(old(self)@, name@);
                step is Assemble && !crate::text::strings_view(old(loading)@).contains(name@) ==> {
                    &&& fuel == 0 ==> r == Err::<usize, LoadError>(LoadError::TooDeep) && final(self)@ == t
                    &&& fuel > 0 && (forall|j: int| 0 <= j < defs@.len() ==> #[trigger] defs@[j].name@ != name@) ==> (r matches Err(
                        LoadError::NotFound(n),
                    ) && n@ == name@ && final(self)@ == t)
                    &&& fuel > 0 ==> forall|i: int|
                        0 <= i < defs@.len() && #[trigger] defs@[i].name@ == name@ && (forall|j: int|
                            0 <= j < i ==> defs@[j].name@ != name@) ==> (unregistered(old(self)@.primitives, defs@[i]) matches Some(
                            sel,
                        ) ==> (r matches Err(LoadError::UnregisteredPrimitive(c, u)) && c@ == name@ && u@ == sel
                            && final(self)@ == t))
                }
            }),
        decreases fuel,
    {
        let ghost s0 = self@;
        let ghost lv0 = crate::text::strings_view(loading@);
        let _classes_before = self.classes.len();
        proof {
            crate::loader::lemma_load_step_binds(s0, name@);
            assert(s0.classes.len() == self.classes@.len());
            lemma_load_step_keeps_classes(s0, name@, lv0);
        }
        let k = match self.class_to_load(name) {
            LoadStep::Loaded(k) => {
                return Ok(k);
            },
            LoadStep::Assemble(k) => k,
        };
        if listed(loading, name) {
            return Ok(k);
        }
        if fuel == 0 {
            return Err(LoadError::TooDeep);
        }
        let d = match definition_of(defs, name) {
            Some(d) => d,
            None => {
                return Err(LoadError::NotFound(name.clone()));
            },
        };
        match unregistered_primitive(&self.primitives, &defs[d]) {
            Some(sel) => {
                assert(defs@[d as int].name@ == name@);
                return Err(LoadError::UnregisteredPrimitive(name.clone(), sel));
            },
            None => {},
        }
        let def = copy_class_def(&defs[d]);
        let ghost dd = def;
        let ghost t0 = self@;
        let classes_loading = self.classes.len();
        let ghost l0 = loading@;
        assert(global_class(t0, name@) == Some(k));
        loading.push(name.clone());
        proof {
            assert(crate::text::strings_view(loading@) =~= crate::text::strings_view(l0).push(name@));
            if fuel > unloaded_count(defs@, crate::text::strings_view(l0)) {
                lemma_unloaded_count_shrinks(defs@, crate::text::strings_view(l0), name@, d as int);
            }
        }
        let ghost l1 = loading@;
        let ghost lv1 = crate::text::strings_view(l1);
        proof {
            assert(lv1 =~= lv0.push(name@));
            assert(lv1.contains(name@)) by {
                assert(lv1[lv1.len() - 1] == name@);
            }
            if lv0.contains("Metaclass"@) {
                let w = choose|w: int| 0 <= w < lv0.len() && lv0[w] == "Metaclass"@;
                assert(lv1[w] == "Metaclass"@);
            }
            assert(t0.classes.len() == classes_loading);
            if name@ != "Metaclass"@ {
                assert(global_class(s0, name@) is None);
                if global_class(s0, "Metaclass"@) is None {
                    crate::loader::lemma_load_step_unbound(s0, name@, "Metaclass"@);
                } else {
                    lemma_bound_class_held(s0, "Metaclass"@);
                    assert(global_class(t0, "Metaclass"@) == global_class(s0, "Metaclass"@));
                }
            }
            assert(!reassembles(t0, lv1, k as int));
            lemma_classes_kept_trans(s0, t0, lv0, lv1);
        }
        let is_object = def.name == String::from_str("Object");
        let sup = match &def.super_class {
            Some(n) => {
                if *n == String::from_str("nil") {
                    None
                } else {
                    let j = self.load_class(defs, n, loading, fuel - 1)?;
                    assert(global_class(t0, name@) is Some);
                    Some(j)
                }
            },
            None => {
                if is_object {
                    None
                } else {
                    let j = self.load_class(defs, &String::from_str("Object"), loading, fuel - 1)?;
                    assert(global_class(t0, name@) is Some);
                    Some(j)
                }
            },
        };
        let ghost s1 = self@;
        let _classes_s1 = self.classes.len();
        proof {
            lemma_classes_kept_trans(s0, s1, lv0, lv1);
            lemma_classes_kept_trans(t0, s1, lv1, lv1);
            reveal_strlit("nil");
            reveal_strlit("Object");
        }
        assert(global_class(s1, name@) == Some(k));
        assert(crate::eval::chosen_superclass(s1, crate::ast::class_view(dd)) == Ok::<Option<usize>, Seq<char>>(sup));
        let needs_class = is_object || match sup {
            Some(s) => s >= self.classes.len() || self.classes[s].metaclass.is_none(),
            None => true,
        };
        let class_class = if needs_class {
            self.load_class(defs, &String::from_str("Class"), loading, fuel - 1)?
        } else {
            0
        };
        let ghost s2 = self@;
        let _classes_s2 = self.classes.len();
        proof {
            lemma_classes_kept_trans(s0, s2, lv0, lv1);
            lemma_classes_kept_trans(t0, s2, lv1, lv1);
            match dd.super_class {
                Some(sn) => {
                    if global_class(s1, sn@) is Some {
                        assert(global_class(s1, sn@) == global_class(s2, sn@));
                    }
                },
                None => {
                    if global_class(s1, "Object"@) is Some {
                        assert(global_class(s1, "Object"@) == global_class(s2, "Object"@));
                    }
                },
            }
        }
        assert(global_class(s1, name@) == global_class(s2, name@));
        assert(crate::eval::chosen_superclass(s2, crate::ast::class_view(dd)) == Ok::<Option<usize>, Seq<char>>(sup));
        assert(class_class == 0 || global_class(s2, "Class"@) == Some(class_class));
        let metaclass_class = self.load_class(defs, &String::from_str("Metaclass"), loading, fuel - 1)?;
        let ghost u = self@;
        proof {
            match dd.super_class {
                Some(sn) => {
                    if global_class(s2, sn@) is Some {
                        assert(global_class(s2, sn@) == global_class(u, sn@));
                    }
                },
                None => {
                    if global_class(s2, "Object"@) is Some {
                        assert(global_class(s2, "Object"@) == global_class(u, "Object"@));
                    }
                },
            }
            assert(global_class(s2, "Class"@) is Some ==> global_class(s2, "Class"@) == global_class(u, "Class"@));
        }
        assert(global_class(s2, name@) == global_class(u, name@));
        assert(crate::eval::chosen_superclass(u, crate::ast::class_view(dd)) == Ok::<Option<usize>, Seq<char>>(sup));
        assert(class_class == 0 || global_class(u, "Class"@) == Some(class_class));
        let n = self.classes.len();
        let sup_ok = match sup {
            Some(s) => s < n,
            None => true,
        };
        if k >= n || class_class >= n || metaclass_class >= n || !sup_ok {
            assert(assembly_fails(self@, defs@, name@, k, d as int, dd, sup, class_class, metaclass_class));
            let failed = name.clone();
            assert(cannot_assemble(self@, defs@, failed@));
            return Err(LoadError::Malformed(failed));
        }
        let ghost before = self@;
        proof {
            crate::loader::lemma_assembled_keeps_globals(before, def, k, sup, class_class, metaclass_class);
            lemma_classes_kept_trans(s0, before, lv0, lv1);
            crate::loader::lemma_assembled_len(before, def, k, sup, class_class, metaclass_class);
            if k < s0.classes.len() {
                assert(reassembles(s0, lv0, k as int));
            }
            assert forall|j: int| 0 <= j < s0.classes.len() && !reassembles(s0, lv0, j) implies #[trigger] crate::loader::assembled(before, def, k, sup, class_class, metaclass_class).classes[j] == before.classes[j] by {
                crate::loader::lemma_assembled_keeps_classes(before, def, k, sup, class_class, metaclass_class, j);
            }
        }
        let done = self.assemble_class_checked(def, k, sup, class_class, metaclass_class);
        assert forall|m: Seq<char>| #[trigger] global_class(self@, m) == global_class(before, m) by {}
        assert(classes_kept(s0, before, lv0));
        assert(self@.classes.len() >= before.classes.len());
        assert(classes_kept(s0, self@, lv0));
        loading.pop();
        assert(loading@ =~= l0);
        if !done {
            assert(assembly_fails(self@, defs@, name@, k, d as int, dd, sup, class_class, metaclass_class));
            let failed = name.clone();
            assert(cannot_assemble(self@, defs@, failed@));
            return Err(LoadError::Malformed(failed));
        }
        proof {
            lemma_bound_class_held(self@, name@);
        }
        Ok(k)
    }

    /// The first message of a program whose main class is `k`: a new
    /// instance of the class as receiver, and `run:` with an array of the
    /// arguments as strings when the class has a method `run:` of its own,
    /// `run` with no argument otherwise.
    pub fn program_start(&mut self, k: usize, args: &Vec<String>) -> (r: (Value, String, Vec<Value>))
        requires
            old(self)@.wf(),
            k < old(self).classes@.len(),
        ensures
            final(self)@.wf(),
            final(self)@ == (StoreV {
                cells: start_cells(old(self)@, k as int, crate::text::strings_view(args@)),
                ..old(self)@
            }),
            r.0@ == crate::object::ValueV::Object(old(self)@.cells.len() as usize),
            r.1@ == (if runs_with_arguments(old(self)@, k as int) {
                "run:"@
            } else {
                "run"@
            }),
            runs_with_arguments(old(self)@, k as int) ==> r.2@.len() == 1 && r.2@[0]@ == crate::object::ValueV::Array(
                (old(self)@.cells.len() + 1 + args@.len()) as usize,
            ),
            !runs_with_arguments(old(self)@, k as int) ==> r.2@.len() == 0,
    {
        let ghost s0 = self@;
        proof {
            crate::runtime::lemma_table_keys(self.classes@[k as int].methods@);
        }
        assert(s0.classes[k as int] == self.classes@[k as int]@);
        let has_run_with_args = crate::runtime::find_entry(&self.classes[k].methods, &String::from_str("run:")).is_some();
        let receiver = match self.class_new(&Value::Class(k)) {
            Some(v) => v,
            None => Value::Nil,
        };
        let ghost s1 = self@;

        let mut strings: Vec<Value> = Vec::new();
        let mut i: usize = 0;
        while i < args.len()
            invariant
                i <= args@.len(),
                self@.wf(),
                s1.cells.len() == s0.cells.len() + 1,
                self@ == (StoreV {
                    cells: s1.cells + Seq::new(i as nat, |j: int| crate::object::CellV::Str(args@[j]@)),
                    ..s1
                }),
                strings@.len() == i,
                forall|j: int| 0 <= j < i ==> #[trigger] strings@[j]@ == crate::object::ValueV::String(
                    (s0.cells.len() + 1 + j) as usize,
                ),
            decreases args.len() - i,
        {
            let ghost before = self@;
            let c = self.new_cell(HeapCell::Str(args[i].clone()));
            assert(self@.cells =~= s1.cells + Seq::new((i + 1) as nat, |j: int| crate::object::CellV::Str(args@[j]@)));
            strings.push(Value::String(c));
            i = i + 1;
        }
        let ghost strs_v = crate::object::values_view(strings@);
        assert(strs_v =~= Seq::new(args@.len(), |j: int| crate::object::ValueV::String((s0.cells.len() + 1 + j) as usize)));
        let a = self.new_cell(HeapCell::Array(strings));
        let array = Value::Array(a);
        assert(self@.cells =~= start_cells(s0, k as int, crate::text::strings_view(args@)));
        if has_run_with_args {
            let mut send: Vec<Value> = Vec::new();
            send.push(array);
            (receiver, String::from_str("run:"), send)
        } else {
            (receiver, String::from_str("run"), Vec::new())
        }
    }

    /// Loads `Object`, `Class`, `Metaclass` and `System`, then every class
    /// of `defs` in order, and answers the class bound to `System`.
    #[verifier::rlimit(40)]
    fn load_program_classes(&mut self, defs: &Vec<ClassDef>) -> (r: Result<usize, LoadError>)
        requires
            old(self)@.wf(),
        ensures
            final(self)@.wf(),
            r matches Ok(system) ==> global_class(final(self)@, "System"@) == Some(system),
            forall|n: Seq<char>| #[trigger] global_class(old(self)@, n) is Some ==> global_class(final(self)@, n)
                == global_class(old(self)@, n),
            r matches Err(LoadError::NotFound(n)) ==> forall|j: int|
                0 <= j < defs@.len() ==> #[trigger] defs@[j].name@ != n@,
            crate::loader::load_step(old(self)@, "Object"@).0 is Assemble && (forall|j: int|
                0 <= j < defs@.len() ==> #[trigger] defs@[j].name@ != "Object"@) ==> (r matches Err(
                LoadError::NotFound(n),
            ) && n@ == "Object"@),
            r matches Err(LoadError::Malformed(n)) ==> cannot_assemble(final(self)@, defs@, n@),
            r matches Err(LoadError::UnregisteredPrimitive(c, u)) ==> exists|i: int|
                0 <= i < defs@.len() && #[trigger] defs@[i].name@ == c@ && unregistered(final(self)@.primitives, defs@[i])
                    == Some(u@),
            defs@.len() < usize::MAX - 4 ==> !(r matches Err(LoadError::TooDeep)),
            !(r matches Err(LoadError::NameTaken(_))),
    {
        proof {
            reveal_strlit("Object");
        }
        let fuel = if defs.len() < usize::MAX - 4 {
            defs.len() + 4
        } else {
            usize::MAX
        };
        let mut loading: Vec<String> = Vec::new();
        assert(crate::text::strings_view(loading@) =~= Seq::<Seq<char>>::empty());
        proof {
            lemma_unloaded_count_bound(defs@, Seq::empty());
        }
        match self.load_class(defs, &String::from_str("Object"), &mut loading, fuel) {
            Ok(_) => {},
            Err(e) => {
                return Err(e);
            },
        }
        assert(crate::text::strings_view(loading@) =~= Seq::<Seq<char>>::empty());
        match self.load_class(defs, &String::from_str("Class"), &mut loading, fuel) {
            Ok(_) => {},
            Err(e) => {
                return Err(e);
            },
        }
        assert(crate::text::strings_view(loading@) =~= Seq::<Seq<char>>::empty());
        match self.load_class(defs, &String::from_str("Metaclass"), &mut loading, fuel) {
            Ok(_) => {},
            Err(e) => {
                return Err(e);
            },
        }
        assert(crate::text::strings_view(loading@) =~= Seq::<Seq<char>>::empty());
        let system = match self.load_class(defs, &String::from_str("System"), &mut loading, fuel) {
            Ok(k) => k,
            Err(e) => {
                return Err(e);
            },
        };
        let mut d: usize = 0;
        while d < defs.len()
            invariant
                d <= defs@.len(),
                self@.wf(),
                global_class(self@, "System"@) == Some(system),
                forall|n: Seq<char>| #[trigger] global_class(old(self)@, n) is Some ==> global_class(self@, n)
                    == global_class(old(self)@, n),
                loading@.len() == 0,
                defs@.len() < usize::MAX - 4 ==> fuel == defs@.len() + 4,
                unloaded_count(defs@, Seq::empty()) <= defs@.len(),
                !(crate::loader::load_step(old(self)@, "Object"@).0 is Assemble && (forall|j: int|
                    0 <= j < defs@.len() ==> #[trigger] defs@[j].name@ != "Object"@)),
            decreases defs.len() - d,
        {
            assert(crate::text::strings_view(loading@) =~= Seq::<Seq<char>>::empty());
            match self.load_class(defs, &defs[d].name, &mut loading, fuel) {
                Ok(_) => {},
                Err(e) => {
                    return Err(e);
                },
            }
            d = d + 1;
        }
        Ok(system)
    }

    /// Runs a program as the command line starts one: loads `Object`,
    /// `Class`, `Metaclass` and `System`, then every other class defined,
    /// binds `system` to an instance of `System`, and sends `run:` with the
    /// command-line arguments as an array of strings to a new instance of the
    /// main class, or `run` when the class has no method `run:` of its own.
    pub fn run_program(&mut self, defs: &Vec<ClassDef>, main: &String, args: &Vec<String>) -> (r: Result<
        Value,
        RunError,
    >)
        requires
            old(self)@.wf(),
        ensures
            r matches Err(RunError::Load(LoadError::NotFound(n))) ==> forall|j: int|
                0 <= j < defs@.len() ==> #[trigger] defs@[j].name@ != n@,
            crate::loader::load_step(old(self)@, "Object"@).0 is Assemble && (forall|j: int|
                0 <= j < defs@.len() ==> #[trigger] defs@[j].name@ != "Object"@) ==> (r matches Err(
                RunError::Load(LoadError::NotFound(n)),
            ) && n@ == "Object"@),
            r matches Err(RunError::Load(LoadError::Malformed(n))) ==> cannot_assemble(final(self)@, defs@, n@),
            r matches Err(RunError::Load(LoadError::UnregisteredPrimitive(c, u))) ==> exists|i: int|
                0 <= i < defs@.len() && #[trigger] defs@[i].name@ == c@ && unregistered(final(self)@.primitives, defs@[i])
                    == Some(u@),
            defs@.len() < usize::MAX - 4 ==> !(r matches Err(RunError::Load(LoadError::TooDeep))),
            r matches Err(RunError::Load(LoadError::NameTaken(n))) ==> n@ == "system"@,
            !(r matches Err(RunError::Load(_))) ==> exists|u: StoreV, k: usize, o: Result<Outcome, EvalError>|
                global_class(u, main@) == Some(k) && #[trigger] program_answer(
                    u,
                    k as int,
                    crate::text::strings_view(args@),
                    o,
                    r,
                    final(self)@,
                ),
    {
        let system = match self.load_program_classes(defs) {
            Ok(k) => k,
            Err(e) => {
                return Err(RunError::Load(e));
            },
        };
        let fuel = if defs.len() < usize::MAX - 4 {
            defs.len() + 4
        } else {
            usize::MAX
        };
        let mut loading: Vec<String> = Vec::new();
        assert(crate::text::strings_view(loading@) =~= Seq::<Seq<char>>::empty());
        proof {
            lemma_unloaded_count_bound(defs@, Seq::empty());
            lemma_bound_class_held(self@, "System"@);
        }
        if system >= self.classes.len() {
            return Err(RunError::Load(LoadError::Malformed(String::from_str("System"))));
        }
        let instance = match self.class_new(&Value::Class(system)) {
            Some(v) => v,
            None => Value::Nil,
        };
        crate::runtime::bind_entry(&mut self.globals, &String::from_str("system"), instance);
        if !self.is_well_formed() {
            proof {
                reveal_strlit("system");
            }
            return Err(RunError::Load(LoadError::NameTaken(String::from_str("system"))));
        }
        let k = match self.load_class(defs, main, &mut loading, fuel) {
            Ok(k) => k,
            Err(e) => {
                return Err(RunError::Load(e));
            },
        };
        let ghost u = self@;
        let (receiver, selector, send) = self.program_start(k, args);
        let ghost sent = crate::object::values_view(send@);
        assert(sent =~= (if runs_with_arguments(u, k as int) {
            seq![crate::object::ValueV::Array((u.cells.len() + 1 + crate::text::strings_view(args@).len()) as usize)]
        } else {
            Seq::empty()
        }));
        let outcome = self.dispatch_internal(receiver, &selector, send, 0);
        let ghost o = outcome;
        let r = match outcome {
            Ok(Outcome::Value(v)) => Ok(v),
            Ok(_) => Err(RunError::Eval(EvalError::Escaped)),
            Err(e) => Err(RunError::Eval(e)),
        };
        assert(program_answer(u, k as int, crate::text::strings_view(args@), o, r, self@));
        r
    }
}

} // verus!

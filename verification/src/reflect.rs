//! The primitives of `Object`, `Class`, `Method`, `Symbol`, `Nil` and the
//! booleans that look at or change values without running code: fields by
//! index, classes, equality, method tables.
use vstd::prelude::*;
use crate::collections::{integer_to_i64, integer_value, text_of, valid_args, valid_value};
use crate::numbers::first;
use crate::object::{values_view, CellV, Heap, HeapCell, Value, ValueV};
use crate::runtime::{
    class_of, global_class, keys, lemma_put_keeps_wf, method_in, put_slot, ref_ok, slot_ok, Slot, Store, StoreV,
    class_ok, SuperError,
};
use crate::serialize::integer_text_ok;
use crate::text::strings_view;

verus! {

/// The store with one more heap cell.
pub open spec fn push_cell(s: StoreV, cell: CellV) -> StoreV {
    StoreV { cells: s.cells.push(cell), ..s }
}

/// A new cell keeps the store well formed: nothing refers to it yet.
pub proof fn lemma_push_cell_keeps_wf(s: StoreV, cell: CellV)
    requires
        s.wf(),
    ensures
        push_cell(s, cell).wf(),
        forall|x: ValueV| ref_ok(s, x) ==> #[trigger] ref_ok(push_cell(s, cell), x),
{
    let t = push_cell(s, cell);
    assert forall|n: Seq<char>| #[trigger] global_class(t, n) == global_class(s, n) by {}
    assert forall|x: ValueV| ref_ok(s, x) implies #[trigger] ref_ok(t, x) by {
        match x {
            ValueV::Object(c) => {
                assert(t.cells[c as int] == s.cells[c as int]);
            },
            _ => {},
        }
    }
    assert forall|k: int| 0 <= k < t.classes.len() implies #[trigger] class_ok(t, k) by {
        assert(class_ok(s, k));
        crate::runtime::lemma_chain_transfer(s, t, k, s.classes.len() as nat);
    }
    assert forall|a: int| 0 <= a < t.acts.len() implies #[trigger] crate::runtime::act_ok(t, a) by {
        assert(crate::runtime::act_ok(s, a));
        assert(ref_ok(t, s.acts[a].self_val));
    }
    assert forall|m: int| 0 <= m < t.methods.len() implies #[trigger] t.methods[m].holder < t.classes.len() by {
        assert(s.methods[m].holder < s.classes.len());
    }
    assert forall|b: int| 0 <= b < t.blocks.len() implies (#[trigger] t.blocks[b].context matches Some(a) ==> a
        < t.acts.len()) by {
        assert(s.blocks[b].context matches Some(a) ==> a < s.acts.len());
    }
    assert forall|i: int| 0 <= i < t.globals.len() implies (#[trigger] t.globals[i].1 matches ValueV::Class(k) ==> k
        < t.classes.len()) by {
        assert(s.globals[i].1 matches ValueV::Class(k) ==> k < s.classes.len());
    }
}

/// The field at a 1-based index of an object or a class, if the index is
/// within its fields.
pub open spec fn field_at(s: StoreV, recv: ValueV, idx: int) -> Option<Slot> {
    match recv {
        ValueV::Object(c) => match s.cells[c as int] {
            CellV::Object(_, f) => if 1 <= idx <= f.len() {
                Some(Slot::ObjectField(c, (idx - 1) as usize))
            } else {
                None
            },
            _ => None,
        },
        ValueV::Class(k) => if 1 <= idx <= s.classes[k as int].fields.len() {
            Some(Slot::ClassField(k, (idx - 1) as usize))
        } else {
            None
        },
        _ => None,
    }
}

/// The slot `Object>>instVarAt:` and `Object>>instVarAt:put:` address.
pub open spec fn inst_var_slot(s: StoreV, recv: ValueV, args: Seq<ValueV>) -> Option<Slot> {
    match first(args) {
        Some(ValueV::Integer(t)) => field_at(s, recv, integer_value(t)),
        _ => None,
    }
}

/// Whether two values are the same: integers by value, doubles as IEEE 754
/// numbers, symbols by text, and strings, arrays, objects, classes, methods
/// and blocks by identity.
pub open spec fn same_value_spec(a: ValueV, b: ValueV) -> bool {
    match (a, b) {
        (ValueV::Integer(x), ValueV::Integer(y)) => integer_value(x) == integer_value(y),
        (ValueV::Double(x), ValueV::Double(y)) => double_eq(x, y),
        (ValueV::String(x), ValueV::String(y)) => x == y,
        (ValueV::Symbol(x), ValueV::Symbol(y)) => x == y,
        (ValueV::Boolean(x), ValueV::Boolean(y)) => x == y,
        (ValueV::Nil, ValueV::Nil) => true,
        (ValueV::Object(x), ValueV::Object(y)) => x == y,
        (ValueV::Class(x), ValueV::Class(y)) => x == y,
        (ValueV::Array(x), ValueV::Array(y)) => x == y,
        (ValueV::Method(x), ValueV::Method(y)) => x == y,
        (ValueV::Block(x), ValueV::Block(y)) => x == y,
        _ => false,
    }
}

/// A NaN: all exponent bits set and a fraction that is not zero.
pub open spec fn is_nan(x: u64) -> bool {
    (x >> 52u64) & 0x7FFu64 == 0x7FFu64 && x & 0xF_FFFF_FFFF_FFFFu64 != 0
}

/// IEEE 754 equality of two doubles given by their bits: no NaN equals
/// anything, and the two zeros are equal.
pub open spec fn double_eq(x: u64, y: u64) -> bool {
    !is_nan(x) && !is_nan(y) && (x == y || (x | y) & 0x7FFF_FFFF_FFFF_FFFFu64 == 0)
}

/// The selector a string or symbol names.
pub open spec fn selector_of(cells: Seq<CellV>, v: ValueV) -> Option<Seq<char>> {
    text_of(cells, v)
}

/// The class whose methods `Object>>respondsTo:` searches: the class bound to
/// the name of the value's kind, an object's class, a class's metaclass.
pub open spec fn responder_class(s: StoreV, v: ValueV) -> Option<usize> {
    match v {
        ValueV::Block(_) | ValueV::Runtime => global_class(s, "Block"@),
        ValueV::Method(_) => global_class(s, "Method"@),
        _ => class_of(s, v),
    }
}

/// The name of the class of a value, for the kinds whose class is found by
/// its name: a block's class tells how many arguments it takes.
pub open spec fn kind_class_name(s: StoreV, v: ValueV) -> Seq<char> {
    match v {
        ValueV::Integer(_) => "Integer"@,
        ValueV::String(_) => "String"@,
        ValueV::Boolean(b) => if b {
            "True"@
        } else {
            "False"@
        },
        ValueV::Nil => "Nil"@,
        ValueV::Double(_) => "Double"@,
        ValueV::Array(_) => "Array"@,
        ValueV::Block(b) => {
            let n = s.blocks[b as int].parameters.len();
            if n == 0 {
                "Block1"@
            } else if n == 1 {
                "Block2"@
            } else if n == 2 {
                "Block3"@
            } else {
                "Block"@
            }
        },
        ValueV::Symbol(_) => "Symbol"@,
        ValueV::Method(m) => if s.methods[m as int].primitive {
            "Primitive"@
        } else {
            "Method"@
        },
        _ => "Block"@,
    }
}

/// Why `Object>>class` has no answer.
#[derive(Debug, Clone, Copy, PartialEq, Eq, Structural)]
pub enum ClassError {
    /// No class is bound to the name of the value's kind.
    NotLoaded,
    /// The value is a class without a metaclass.
    NoMetaclass,
}

/// `Object>>class`.
pub open spec fn obj_class_spec(s: StoreV, v: ValueV) -> Result<usize, ClassError> {
    match v {
        ValueV::Object(c) => match global_class(s, s.cells[c as int]->Object_0) {
            Some(k) => Ok(k),
            None => Err(ClassError::NotLoaded),
        },
        ValueV::Class(k) => match s.classes[k as int].metaclass {
            Some(m) => Ok(m),
            None => Err(ClassError::NoMetaclass),
        },
        _ => match global_class(s, kind_class_name(s, v)) {
            Some(k) => Ok(k),
            None => Err(ClassError::NotLoaded),
        },
    }
}

/// A new array of the names as symbols.
pub open spec fn symbols(names: Seq<Seq<char>>) -> Seq<ValueV> {
    names.map_values(|n: Seq<char>| ValueV::Symbol(n))
}

/// The methods of a class in the order they are listed: for each listed
/// selector, the method the class has for it.
pub open spec fn listed_methods(c: crate::runtime::ClassV) -> Seq<ValueV> {
    c.method_order.map_values(
        |n: Seq<char>| ValueV::Method(c.methods[crate::runtime::entry_index(c.methods, n).unwrap()].1),
    )
}

/// The store with a new array cell holding `elems`, and the array.
pub open spec fn new_array(s: StoreV, elems: Seq<ValueV>) -> (ValueV, StoreV) {
    (ValueV::Array(s.cells.len() as usize), push_cell(s, CellV::Array(elems)))
}

/// The store with a new string cell holding `t`, and the string.
pub open spec fn new_string(s: StoreV, t: Seq<char>) -> (ValueV, StoreV) {
    (ValueV::String(s.cells.len() as usize), push_cell(s, CellV::Str(t)))
}

/// Storing a field with `instVarAt:put:` and reading it back with
/// `instVarAt:` at the same index gives the value stored.
pub proof fn law_inst_var_at_after_put(s: StoreV, recv: ValueV, args: Seq<ValueV>, v: ValueV)
    requires
        s.wf(),
        ref_ok(s, recv),
        inst_var_slot(s, recv, args) is Some,
    ensures
        ({
            let sl = inst_var_slot(s, recv, args).unwrap();
            let t = put_slot(s, sl, v);
            inst_var_slot(t, recv, args) == Some(sl) && crate::runtime::read_slot(t, sl) == v
        }),
{
    let sl = inst_var_slot(s, recv, args).unwrap();
    assert(slot_ok(s, sl));
}

/// `Object>>class` on a value that is neither an object, a class nor a block
/// answers the class that message sends look methods up in for it, and
/// fails as not loaded exactly where sends find no class.
pub proof fn law_class_is_the_dispatch_class(s: StoreV, v: ValueV)
    requires
        !(v is Object),
        !(v is Class),
        !(v is Block),
        !(v is Runtime),
    ensures
        obj_class_spec(s, v) == match crate::runtime::class_of(s, v) {
            Some(k) => Ok::<usize, ClassError>(k),
            None => Err::<usize, ClassError>(ClassError::NotLoaded),
        },
{
}

impl Store {
    /// Adds a cell to the heap and answers its index.
    fn add_cell(&mut self, cell: HeapCell) -> (r: usize)
        ensures
            r == old(self)@.cells.len(),
            final(self)@ == push_cell(old(self)@, cell@),
    {
        let ghost s0 = self@;
        let ghost cv = cell@;
        let r = self.heap.cells.len();
        self.heap.cells.push(cell);
        assert(self@.cells =~= s0.cells.push(cv));
        assert(self@ =~= push_cell(s0, cv));
        r
    }

    /// The field at the 1-based index `t` of `recv`.
    fn field_at(&self, recv: &Value, t: &String) -> (r: Option<Slot>)
        requires
            self@.wf(),
            ref_ok(self@, recv@),
            integer_text_ok(t@),
        ensures
            r == field_at(self@, recv@, integer_value(t@)),
            r matches Some(sl) ==> slot_ok(self@, sl),
    {
        let i = match crate::numbers::big_to_usize(t) {
            Some(x) => x,
            None => 0,
        };
        match recv {
            Value::Object(c) => {
                let c = *c;
                assert(self@.cells[c as int] == self.heap.cells@[c as int]@);
                match &self.heap.cells[c] {
                    HeapCell::Object { class_name, fields } => {
                        assert(self@.cells[c as int] == CellV::Object(class_name@, values_view(fields@)));
                        let n = fields.len();
                        if 1 <= i && i <= n {
                            Some(Slot::ObjectField(c, (i - 1) as usize))
                        } else {
                            None
                        }
                    },
                    _ => None,
                }
            },
            Value::Class(k) => {
                let k = *k;
                assert(self@.classes[k as int] == self.classes@[k as int]@);
                let n = self.classes[k].fields.len();
                if 1 <= i && i <= n {
                    Some(Slot::ClassField(k, (i - 1) as usize))
                } else {
                    None
                }
            },
            _ => None,
        }
    }

    /// `Object>>instVarAt:`: the field at a 1-based index of an object or a
    /// class; nil when there is none.
    pub fn obj_inst_var_at(&self, receiver: &Value, args: &Vec<Value>) -> (r: Value)
        requires
            self@.wf(),
            ref_ok(self@, receiver@),
            forall|i: int| 0 <= i < args@.len() ==> crate::numbers::number_ok(#[trigger] args@[i]@),
        ensures
            r@ == match inst_var_slot(self@, receiver@, values_view(args@)) {
                Some(sl) => crate::runtime::read_slot(self@, sl),
                None => ValueV::Nil,
            },
    {
        if args.len() == 0 {
            return Value::Nil;
        }
        assert(values_view(args@)[0] == args@[0]@);
        assert(crate::numbers::number_ok(args@[0]@));
        match &args[0] {
            Value::Integer(t) => match self.field_at(receiver, t) {
                Some(sl) => self.read_slot(&sl),
                None => Value::Nil,
            },
            _ => Value::Nil,
        }
    }

    /// `Object>>instVarAt:put:`: stores the second argument in the field at
    /// a 1-based index of an object or a class, and answers it; nil, and
    /// nothing stored, when there is no such field or no second argument.
    pub fn obj_inst_var_at_put(&mut self, receiver: &Value, args: &Vec<Value>) -> (r: Value)
        requires
            old(self)@.wf(),
            ref_ok(old(self)@, receiver@),
            forall|i: int| 0 <= i < args@.len() ==> crate::numbers::number_ok(#[trigger] args@[i]@),
        ensures
            final(self).activations@.len() == old(self).activations@.len(),
            final(self)@.wf(),
            match (inst_var_slot(old(self)@, receiver@, values_view(args@)), args@.len() >= 2) {
                (Some(sl), true) => r@ == args@[1]@ && final(self)@ == put_slot(old(self)@, sl, args@[1]@),
                _ => r@ == ValueV::Nil && final(self)@ == old(self)@,
            },
    {
        if args.len() < 2 {
            return Value::Nil;
        }
        assert(values_view(args@)[0] == args@[0]@);
        assert(crate::numbers::number_ok(args@[0]@));
        match &args[0] {
            Value::Integer(t) => match self.field_at(receiver, t) {
                Some(sl) => {
                    proof {
                        lemma_put_keeps_wf(self@, sl, args@[1]@);
                    }
                    self.write_slot(&sl, args[1].copy());
                    args[1].copy()
                },
                None => Value::Nil,
            },
            _ => Value::Nil,
        }
    }
}

/// Whether two values are the same, as `==` compares them.
pub fn same_value(a: &Value, b: &Value) -> (r: bool)
    requires
        crate::numbers::number_ok(a@),
        crate::numbers::number_ok(b@),
    ensures
        r == same_value_spec(a@, b@),
{
    match (a, b) {
        (Value::Integer(x), Value::Integer(y)) => crate::numbers::big_eq(x, y),
        (Value::Double(x), Value::Double(y)) => {
            let (x, y) = (*x, *y);
            let nan_x = (x >> 52u64) & 0x7FFu64 == 0x7FFu64 && x & 0xF_FFFF_FFFF_FFFFu64 != 0;
            let nan_y = (y >> 52u64) & 0x7FFu64 == 0x7FFu64 && y & 0xF_FFFF_FFFF_FFFFu64 != 0;
            !nan_x && !nan_y && (x == y || (x | y) & 0x7FFF_FFFF_FFFF_FFFFu64 == 0)
        },
        (Value::String(x), Value::String(y)) => *x == *y,
        (Value::Symbol(x), Value::Symbol(y)) => *x == *y,
        (Value::Boolean(x), Value::Boolean(y)) => *x == *y,
        (Value::Nil, Value::Nil) => true,
        (Value::Object(x), Value::Object(y)) => *x == *y,
        (Value::Class(x), Value::Class(y)) => *x == *y,
        (Value::Array(x), Value::Array(y)) => *x == *y,
        (Value::Method(x), Value::Method(y)) => *x == *y,
        (Value::Block(x), Value::Block(y)) => *x == *y,
        _ => false,
    }
}

/// `Object>>==`: whether the argument is the receiver.
pub fn obj_eq(receiver: &Value, args: &Vec<Value>) -> (r: Value)
    requires
        crate::numbers::number_ok(receiver@),
        forall|i: int| 0 <= i < args@.len() ==> crate::numbers::number_ok(#[trigger] args@[i]@),
    ensures
        r@ == ValueV::Boolean(args@.len() > 0 && same_value_spec(receiver@, args@[0]@)),
{
    if args.len() == 0 {
        return Value::Boolean(false);
    }
    Value::Boolean(same_value(receiver, &args[0]))
}

/// `Object>>objectSize`: 16.
pub fn obj_object_size() -> (r: Value)
    ensures
        r@ == ValueV::Integer("16"@),
{
    Value::Integer(String::from_str("16"))
}

/// `True>>not`: false.
pub fn true_not() -> (r: Value)
    ensures
        r@ == ValueV::Boolean(false),
{
    Value::Boolean(false)
}

/// `False>>not`: true.
pub fn false_not() -> (r: Value)
    ensures
        r@ == ValueV::Boolean(true),
{
    Value::Boolean(true)
}

impl Store {
    /// The class bound to `name` among the globals.
    fn class_named(&self, name: &String) -> (r: Option<usize>)
        requires
            self@.wf(),
        ensures
            r == global_class(self@, name@),
            r matches Some(k) ==> k < self@.classes.len(),
    {
        let r = self.global_class(name);
        proof {
            if r is Some {
                let i = crate::runtime::entry_index(self@.globals, name@).unwrap();
                crate::text::lemma_index_of_from(keys(self@.globals), name@, 0);
                assert(self@.globals[i].1 matches ValueV::Class(k) ==> k < self@.classes.len());
            }
        }
        r
    }

    fn kind_class_name(&self, v: &Value) -> (r: String)
        requires
            ref_ok(self@, v@),
        ensures
            r@ == kind_class_name(self@, v@),
    {
        match v {
            Value::Integer(_) => String::from_str("Integer"),
            Value::String(_) => String::from_str("String"),
            Value::Boolean(b) => if *b {
                String::from_str("True")
            } else {
                String::from_str("False")
            },
            Value::Nil => String::from_str("Nil"),
            Value::Double(_) => String::from_str("Double"),
            Value::Array(_) => String::from_str("Array"),
            Value::Block(b) => {
                assert(self@.blocks[*b as int] == self.blocks@[*b as int]@);
                let n = self.blocks[*b].body.parameters.len();
                if n == 0 {
                    String::from_str("Block1")
                } else if n == 1 {
                    String::from_str("Block2")
                } else if n == 2 {
                    String::from_str("Block3")
                } else {
                    String::from_str("Block")
                }
            },
            Value::Symbol(_) => String::from_str("Symbol"),
            Value::Method(m) => {
                assert(self@.methods[*m as int] == self.methods@[*m as int]@);
                match self.methods[*m].body {
                    crate::runtime::MethodCode::Ast(_) => String::from_str("Method"),
                    _ => String::from_str("Primitive"),
                }
            },
            _ => String::from_str("Block"),
        }
    }

    /// `Object>>class`: the class of the receiver.
    pub fn obj_class(&self, receiver: &Value) -> (r: Result<Value, ClassError>)
        requires
            self@.wf(),
            ref_ok(self@, receiver@),
        ensures
            match obj_class_spec(self@, receiver@) {
                Ok(k) => r matches Ok(v) && v@ == ValueV::Class(k),
                Err(e) => r == Err::<Value, ClassError>(e),
            },
    {
        match receiver {
            Value::Object(c) => {
                assert(self@.cells[*c as int] == self.heap.cells@[*c as int]@);
                match &self.heap.cells[*c] {
                    HeapCell::Object { class_name, .. } => match self.class_named(class_name) {
                        Some(k) => Ok(Value::Class(k)),
                        None => Err(ClassError::NotLoaded),
                    },
                    _ => {
                        assert(false);
                        Err(ClassError::NotLoaded)
                    },
                }
            },
            Value::Class(k) => {
                assert(self@.classes[*k as int] == self.classes@[*k as int]@);
                match self.classes[*k].metaclass {
                    Some(m) => Ok(Value::Class(m)),
                    None => Err(ClassError::NoMetaclass),
                }
            },
            _ => {
                let name = self.kind_class_name(receiver);
                match self.class_named(&name) {
                    Some(k) => Ok(Value::Class(k)),
                    None => Err(ClassError::NotLoaded),
                }
            },
        }
    }

    /// `Object>>respondsTo:`: whether the receiver's class or one of its
    /// superclasses has a method for the selector a string or symbol names.
    pub fn obj_responds_to(&self, receiver: &Value, args: &Vec<Value>) -> (r: Value)
        requires
            self@.wf(),
            ref_ok(self@, receiver@),
            valid_args(self@.cells, args@),
        ensures
            r@ == ValueV::Boolean(
                args@.len() > 0 && match (selector_of(self@.cells, args@[0]@), responder_class(self@, receiver@)) {
                    (Some(sel), Some(k)) => method_in(self@, k as int, sel) is Some,
                    _ => false,
                },
            ),
    {
        if args.len() == 0 {
            return Value::Boolean(false);
        }
        assert(valid_value(self@.cells, args@[0]@));
        assert(self@.cells == self.heap@);
        let sel = match crate::collections::text_of_value(&self.heap, &args[0]) {
            Some(t) => t,
            None => {
                return Value::Boolean(false);
            },
        };
        let k = match receiver {
            Value::Block(_) | Value::Runtime => self.class_named(&String::from_str("Block")),
            Value::Method(_) => self.class_named(&String::from_str("Method")),
            _ => self.class_of(receiver),
        };
        match k {
            Some(k) => Value::Boolean(self.lookup_method(k, &sel).is_some()),
            None => Value::Boolean(false),
        }
    }

    /// `Class>>new`: a new instance of the receiver, each field nil.
    pub fn class_new(&mut self, receiver: &Value) -> (r: Option<Value>)
        requires
            old(self)@.wf(),
            ref_ok(old(self)@, receiver@),
        ensures
            final(self).activations@.len() == old(self).activations@.len(),
            final(self)@.wf(),
            match receiver@ {
                ValueV::Class(k) => {
                    let c = old(self)@.classes[k as int];
                    &&& r matches Some(v) && v@ == ValueV::Object(old(self)@.cells.len() as usize)
                    &&& final(self)@ == push_cell(
                        old(self)@,
                        CellV::Object(c.name, Seq::new(c.instance_fields.len(), |i: int| ValueV::Nil)),
                    )
                },
                _ => r is None && final(self)@ == old(self)@,
            },
    {
        match receiver {
            Value::Class(k) => {
                let k = *k;
                assert(self@.classes[k as int] == self.classes@[k as int]@);
                let name = self.classes[k].name.clone();
                let n = self.classes[k].instance_fields.len();
                let mut fields: Vec<Value> = Vec::new();
                let mut i: usize = 0;
                while i < n
                    invariant
                        i <= n,
                        values_view(fields@) =~= Seq::new(i as nat, |j: int| ValueV::Nil),
                    decreases n - i,
                {
                    let ghost before = values_view(fields@);
                    fields.push(Value::Nil);
                    assert(values_view(fields@) =~= before.push(ValueV::Nil));
                    assert(values_view(fields@) =~= Seq::new((i + 1) as nat, |j: int| ValueV::Nil));
                    i = i + 1;
                }
                let ghost cell = CellV::Object(name@, values_view(fields@));
                proof {
                    crate::reflect::lemma_push_cell_keeps_wf(self@, cell);
                }
                let c = self.add_cell(HeapCell::Object { class_name: name, fields });
                Some(Value::Object(c))
            },
            _ => None,
        }
    }

    /// `Class>>name`: the receiver's name, as a symbol.
    pub fn class_name(&self, receiver: &Value) -> (r: Value)
        requires
            ref_ok(self@, receiver@),
        ensures
            r@ == match receiver@ {
                ValueV::Class(k) => ValueV::Symbol(self@.classes[k as int].name),
                _ => ValueV::Nil,
            },
    {
        match receiver {
            Value::Class(k) => {
                assert(self@.classes[*k as int] == self.classes@[*k as int]@);
                Value::Symbol(self.classes[*k].name.clone())
            },
            _ => Value::Nil,
        }
    }

    /// `Class>>superclass`: the receiver's superclass, nil if it has none.
    pub fn class_superclass(&self, receiver: &Value) -> (r: Value)
        requires
            ref_ok(self@, receiver@),
        ensures
            r@ == match receiver@ {
                ValueV::Class(k) => match self@.classes[k as int].super_class {
                    Some(sup) => ValueV::Class(sup),
                    None => ValueV::Nil,
                },
                _ => ValueV::Nil,
            },
    {
        match receiver {
            Value::Class(k) => {
                assert(self@.classes[*k as int] == self.classes@[*k as int]@);
                match self.classes[*k].super_class {
                    Some(sup) => Value::Class(sup),
                    None => Value::Nil,
                }
            },
            _ => Value::Nil,
        }
    }

    /// `Class>>hasMethod:`: whether the receiver itself has a method for the
    /// selector a string or symbol names.
    pub fn class_has_method(&self, receiver: &Value, args: &Vec<Value>) -> (r: Value)
        requires
            ref_ok(self@, receiver@),
            valid_args(self@.cells, args@),
        ensures
            r@ == ValueV::Boolean(
                args@.len() > 0 && match (receiver@, selector_of(self@.cells, args@[0]@)) {
                    (ValueV::Class(k), Some(sel)) => crate::runtime::entry_index(
                        self@.classes[k as int].methods,
                        sel,
                    ) is Some,
                    _ => false,
                },
            ),
    {
        if args.len() == 0 {
            return Value::Boolean(false);
        }
        assert(valid_value(self@.cells, args@[0]@));
        assert(self@.cells == self.heap@);
        match receiver {
            Value::Class(k) => {
                match crate::collections::text_of_value(&self.heap, &args[0]) {
                    Some(sel) => {
                        assert(self@.classes[*k as int] == self.classes@[*k as int]@);
                        proof {
                            crate::runtime::lemma_table_keys(self.classes@[*k as int].methods@);
                        }
                        Value::Boolean(crate::runtime::find_entry(&self.classes[*k].methods, &sel).is_some())
                    },
                    None => Value::Boolean(false),
                }
            },
            _ => Value::Boolean(false),
        }
    }

    /// `Class>>fields`: a new array of the names of the fields of the
    /// receiver's instances, as symbols.
    pub fn class_fields(&mut self, receiver: &Value) -> (r: Value)
        requires
            old(self)@.wf(),
            ref_ok(old(self)@, receiver@),
        ensures
            final(self).activations@.len() == old(self).activations@.len(),
            final(self)@.wf(),
            (r@, final(self)@) == match receiver@ {
                ValueV::Class(k) => new_array(old(self)@, symbols(old(self)@.classes[k as int].instance_fields)),
                _ => (ValueV::Nil, old(self)@),
            },
    {
        match receiver {
            Value::Class(k) => {
                let k = *k;
                assert(self@.classes[k as int] == self.classes@[k as int]@);
                let names = &self.classes[k].instance_fields;
                let mut elems: Vec<Value> = Vec::new();
                let mut i: usize = 0;
                while i < names.len()
                    invariant
                        i <= names.len(),
                        values_view(elems@) =~= symbols(strings_view(names@)).take(i as int),
                    decreases names.len() - i,
                {
                    let ghost before = values_view(elems@);
                    elems.push(Value::Symbol(names[i].clone()));
                    assert(values_view(elems@) =~= before.push(ValueV::Symbol(names@[i as int]@)));
                    assert(values_view(elems@) =~= symbols(strings_view(names@)).take(i + 1));
                    i = i + 1;
                }
                assert(symbols(strings_view(names@)).take(names@.len() as int) =~= symbols(strings_view(names@)));
                proof {
                    lemma_push_cell_keeps_wf(self@, CellV::Array(values_view(elems@)));
                }
                let c = self.add_cell(HeapCell::Array(elems));
                Value::Array(c)
            },
            _ => Value::Nil,
        }
    }

    /// `Class>>methods`: a new array of the receiver's methods, in the order
    /// in which they are listed.
    pub fn class_methods(&mut self, receiver: &Value) -> (r: Value)
        requires
            old(self)@.wf(),
            ref_ok(old(self)@, receiver@),
        ensures
            final(self).activations@.len() == old(self).activations@.len(),
            final(self)@.wf(),
            (r@, final(self)@) == match receiver@ {
                ValueV::Class(k) => new_array(old(self)@, listed_methods(old(self)@.classes[k as int])),
                _ => (ValueV::Nil, old(self)@),
            },
    {
        match receiver {
            Value::Class(k) => {
                let k = *k;
                let ghost cv = self@.classes[k as int];
                assert(cv == self.classes@[k as int]@);
                assert(class_ok(self@, k as int));
                let table = &self.classes[k].methods;
                let order = &self.classes[k].method_order;
                proof {
                    crate::runtime::lemma_table_keys(table@);
                }
                let mut elems: Vec<Value> = Vec::new();
                let mut i: usize = 0;
                while i < order.len()
                    invariant
                        i <= order.len(),
                        cv.methods == crate::runtime::table_view(table@),
                        cv.method_order == strings_view(order@),
                        keys(cv.methods) == table@.map_values(|p: (String, usize)| p.0@),
                        forall|j: int| 0 <= j < cv.method_order.len() ==> #[trigger] crate::runtime::entry_index(cv.methods, cv.method_order[j]) is Some,
                        values_view(elems@) =~= listed_methods(cv).take(i as int),
                    decreases order.len() - i,
                {
                    assert(cv.method_order[i as int] == order@[i as int]@);
                    assert(crate::runtime::entry_index(cv.methods, cv.method_order[i as int]) is Some);
                    let j = match crate::runtime::find_entry(table, &order[i]) {
                        Some(j) => j,
                        None => {
                            assert(false);
                            0
                        },
                    };
                    let ghost before = values_view(elems@);
                    elems.push(Value::Method(table[j].1));
                    assert(values_view(elems@) =~= before.push(ValueV::Method(cv.methods[j as int].1)));
                    assert(values_view(elems@) =~= listed_methods(cv).take(i + 1));
                    i = i + 1;
                }
                assert(listed_methods(cv).take(order@.len() as int) =~= listed_methods(cv));
                proof {
                    lemma_push_cell_keeps_wf(self@, CellV::Array(values_view(elems@)));
                }
                let c = self.add_cell(HeapCell::Array(elems));
                Value::Array(c)
            },
            _ => Value::Nil,
        }
    }

    /// `Class>>selectors`: a new array of the selectors of the receiver's
    /// methods, as symbols, in the order they were installed.
    pub fn class_selectors(&mut self, receiver: &Value) -> (r: Value)
        requires
            old(self)@.wf(),
            ref_ok(old(self)@, receiver@),
        ensures
            final(self).activations@.len() == old(self).activations@.len(),
            final(self)@.wf(),
            (r@, final(self)@) == match receiver@ {
                ValueV::Class(k) => new_array(old(self)@, symbols(keys(old(self)@.classes[k as int].methods))),
                _ => (ValueV::Nil, old(self)@),
            },
    {
        match receiver {
            Value::Class(k) => {
                let k = *k;
                let ghost ms = self@.classes[k as int].methods;
                assert(self@.classes[k as int] == self.classes@[k as int]@);
                let table = &self.classes[k].methods;
                let mut elems: Vec<Value> = Vec::new();
                let mut i: usize = 0;
                while i < table.len()
                    invariant
                        i <= table.len(),
                        ms == crate::runtime::table_view(table@),
                        values_view(elems@) =~= symbols(keys(ms)).take(i as int),
                    decreases table.len() - i,
                {
                    let ghost before = values_view(elems@);
                    elems.push(Value::Symbol(table[i].0.clone()));
                    assert(values_view(elems@) =~= before.push(ValueV::Symbol(table@[i as int].0@)));
                    assert(values_view(elems@) =~= symbols(keys(ms)).take(i + 1));
                    i = i + 1;
                }
                assert(symbols(keys(ms)).take(table@.len() as int) =~= symbols(keys(ms)));
                proof {
                    lemma_push_cell_keeps_wf(self@, CellV::Array(values_view(elems@)));
                }
                let c = self.add_cell(HeapCell::Array(elems));
                Value::Array(c)
            },
            _ => Value::Nil,
        }
    }

    /// `Method>>signature`: the method's selector, as a symbol.
    pub fn method_signature(&self, receiver: &Value) -> (r: Value)
        requires
            ref_ok(self@, receiver@),
        ensures
            r@ == match receiver@ {
                ValueV::Method(m) => ValueV::Symbol(self@.methods[m as int].signature),
                _ => ValueV::Nil,
            },
    {
        match receiver {
            Value::Method(m) => {
                assert(self@.methods[*m as int] == self.methods@[*m as int]@);
                Value::Symbol(self.methods[*m].signature.clone())
            },
            _ => Value::Nil,
        }
    }

    /// `Method>>holder`: the class that holds the method.
    pub fn method_holder(&self, receiver: &Value) -> (r: Value)
        requires
            ref_ok(self@, receiver@),
        ensures
            r@ == match receiver@ {
                ValueV::Method(m) => ValueV::Class(self@.methods[m as int].holder),
                _ => ValueV::Nil,
            },
    {
        match receiver {
            Value::Method(m) => {
                assert(self@.methods[*m as int] == self.methods@[*m as int]@);
                Value::Class(self.methods[*m].holder)
            },
            _ => Value::Nil,
        }
    }

    /// `Nil>>asString`: a new string `nil`.
    pub fn nil_as_string(&mut self) -> (r: Value)
        requires
            old(self)@.wf(),
        ensures
            final(self).activations@.len() == old(self).activations@.len(),
            final(self)@.wf(),
            (r@, final(self)@) == new_string(old(self)@, "nil"@),
    {
        proof {
            lemma_push_cell_keeps_wf(self@, CellV::Str("nil"@));
        }
        let c = self.add_cell(HeapCell::Str(String::from_str("nil")));
        Value::String(c)
    }

    /// `Symbol>>asString`: a new string with the text of the receiver, a
    /// symbol or a string; nil for anything else.
    pub fn symbol_as_string(&mut self, receiver: &Value) -> (r: Value)
        requires
            old(self)@.wf(),
            ref_ok(old(self)@, receiver@),
            crate::object::value_ok(old(self)@.cells, receiver@),
        ensures
            final(self).activations@.len() == old(self).activations@.len(),
            final(self)@.wf(),
            (r@, final(self)@) == match text_of(old(self)@.cells, receiver@) {
                Some(t) => new_string(old(self)@, t),
                None => (ValueV::Nil, old(self)@),
            },
    {
        assert(self@.cells == self.heap@);
        match crate::collections::text_of_value(&self.heap, receiver) {
            Some(t) => {
                proof {
                    lemma_push_cell_keeps_wf(self@, CellV::Str(t@));
                }
                let c = self.add_cell(HeapCell::Str(t));
                Value::String(c)
            },
            None => Value::Nil,
        }
    }
}

impl Store {
    /// `System>>global:`: the global named by a string or symbol; nil when
    /// there is none.
    pub fn sys_global(&self, args: &Vec<Value>) -> (r: Value)
        requires
            valid_args(self@.cells, args@),
        ensures
            r@ == match first(values_view(args@)) {
                Some(v) => match selector_of(self@.cells, v) {
                    Some(name) => match crate::runtime::global_value(self@, name) {
                        Some(g) => g,
                        None => ValueV::Nil,
                    },
                    None => ValueV::Nil,
                },
                None => ValueV::Nil,
            },
    {
        if args.len() == 0 {
            return Value::Nil;
        }
        assert(values_view(args@)[0] == args@[0]@);
        assert(valid_value(self@.cells, args@[0]@));
        assert(self@.cells == self.heap@);
        match crate::collections::text_of_value(&self.heap, &args[0]) {
            Some(name) => {
                proof {
                    crate::runtime::lemma_entry_keys(self.globals@);
                }
                match crate::runtime::find_entry(&self.globals, &name) {
                    Some(i) => {
                        assert(self@.globals[i as int].1 == self.globals@[i as int].1@);
                        self.globals[i].1.copy()
                    },
                    None => Value::Nil,
                }
            },
            None => Value::Nil,
        }
    }

    /// `System>>hasGlobal:`: whether a global is named by a string or symbol.
    pub fn sys_has_global(&self, args: &Vec<Value>) -> (r: Value)
        requires
            valid_args(self@.cells, args@),
        ensures
            r@ == ValueV::Boolean(
                match first(values_view(args@)) {
                    Some(v) => match selector_of(self@.cells, v) {
                        Some(name) => crate::runtime::global_value(self@, name) is Some,
                        None => false,
                    },
                    None => false,
                },
            ),
    {
        if args.len() == 0 {
            return Value::Boolean(false);
        }
        assert(values_view(args@)[0] == args@[0]@);
        assert(valid_value(self@.cells, args@[0]@));
        assert(self@.cells == self.heap@);
        match crate::collections::text_of_value(&self.heap, &args[0]) {
            Some(name) => {
                proof {
                    crate::runtime::lemma_entry_keys(self.globals@);
                }
                Value::Boolean(crate::runtime::find_entry(&self.globals, &name).is_some())
            },
            None => Value::Boolean(false),
        }
    }

    /// `System>>global:put:`: binds the global named by a string or symbol to
    /// the second argument, and answers that; nil, and nothing bound, when
    /// there are fewer than two arguments or the first names nothing.
    pub fn sys_global_put(&mut self, args: &Vec<Value>) -> (r: Value)
        requires
            valid_args(old(self)@.cells, args@),
        ensures
            match (if args@.len() >= 2 { selector_of(old(self)@.cells, args@[0]@) } else { None }) {
                Some(name) => r@ == args@[1]@ && final(self)@ == (StoreV {
                    globals: crate::runtime::bind(old(self)@.globals, name, args@[1]@),
                    ..old(self)@
                }),
                None => r@ == ValueV::Nil && final(self)@ == old(self)@,
            },
    {
        if args.len() < 2 {
            return Value::Nil;
        }
        assert(valid_value(self@.cells, args@[0]@));
        assert(self@.cells == self.heap@);
        match crate::collections::text_of_value(&self.heap, &args[0]) {
            Some(name) => {
                let ghost s0 = self@;
                let answer = args[1].copy();
                crate::runtime::bind_entry(&mut self.globals, &name, args[1].copy());
                assert(self@ =~= StoreV { globals: crate::runtime::bind(s0.globals, name@, args@[1]@), ..s0 });
                answer
            },
            None => Value::Nil,
        }
    }
}

/// Text order, as strings compare: the first differing character decides,
/// and a proper prefix comes first.
pub open spec fn text_lt(a: Seq<char>, b: Seq<char>) -> bool
    decreases a.len(),
{
    if a.len() == 0 {
        b.len() > 0
    } else if b.len() == 0 {
        false
    } else if a[0] != b[0] {
        (a[0] as int) < (b[0] as int)
    } else {
        text_lt(a.drop_first(), b.drop_first())
    }
}

/// `v` sorted in text order (`sort` of std on `String`s).
#[verifier::external_body]
fn sort_strings(v: Vec<String>) -> (r: Vec<String>)
    ensures
        strings_view(r@).to_multiset() == strings_view(v@).to_multiset(),
        forall|i: int, j: int|
            0 <= i < j < r@.len() ==> !text_lt(#[trigger] strings_view(r@)[j], #[trigger] strings_view(r@)[i]),
{
    let mut v = v;
    v.sort();
    v
}

/// Whether `System>>classNames` lists `n`: a global bound to a class, or a
/// class file found (`files`, their names without the extension) whose name
/// holds no space.
pub open spec fn class_name_listed(s: StoreV, files: Seq<Seq<char>>, n: Seq<char>) -> bool {
    ||| exists|i: int| 0 <= i < s.globals.len() && s.globals[i].0 == n && s.globals[i].1 is Class
    ||| files.contains(n) && !n.contains(' ')
}

proof fn lemma_push_contains(s: Seq<Seq<char>>, x: Seq<char>, y: Seq<char>)
    ensures
        s.push(x).contains(y) <==> (s.contains(y) || y == x),
{
    if s.contains(y) {
        let j = choose|j: int| 0 <= j < s.len() && s[j] == y;
        assert(s.push(x)[j] == y);
    }
    if y == x {
        assert(s.push(x)[s.len() as int] == x);
    }
    if s.push(x).contains(y) {
        let j = choose|j: int| 0 <= j < s.push(x).len() && s.push(x)[j] == y;
        if j < s.len() {
            assert(s[j] == y);
        }
    }
}

proof fn lemma_push_no_dup(s: Seq<Seq<char>>, x: Seq<char>)
    requires
        s.no_duplicates(),
        !s.contains(x),
    ensures
        s.push(x).no_duplicates(),
{
    assert forall|a: int, b: int| 0 <= a < s.len() + 1 && 0 <= b < s.len() + 1 && a != b implies s.push(x)[a]
        != s.push(x)[b] by {
        if a < s.len() && b < s.len() {
        } else if a < s.len() {
            assert(s.contains(s[a]));
        } else {
            assert(s.contains(s[b]));
        }
    }
}

impl Store {
    /// `System>>classNames`: a new array of the names of the classes, each
    /// once, in text order, as symbols.
    pub fn sys_class_names(&mut self, files: &Vec<String>) -> (r: Value)
        requires
            old(self)@.wf(),
        ensures
            final(self)@.wf(),
            ({
                let cell = final(self)@.cells[old(self)@.cells.len() as int];
                &&& r@ == ValueV::Array(old(self)@.cells.len() as usize)
                &&& final(self)@ == push_cell(old(self)@, cell)
                &&& cell matches CellV::Array(elems) && exists|names: Seq<Seq<char>>|
                    {
                        &&& elems == symbols(names)
                        &&& forall|n: Seq<char>| names.contains(n) <==> class_name_listed(old(self)@, strings_view(files@), n)
                        &&& names.no_duplicates()
                        &&& forall|i: int, j: int| 0 <= i < j < names.len() ==> !text_lt(#[trigger] names[j], #[trigger] names[i])
                    }
            }),
    {
        let ghost s0 = self@;
        let ghost fv = strings_view(files@);

        let mut names: Vec<String> = Vec::new();
        let mut i: usize = 0;
        while i < self.globals.len()
            invariant
                i <= self.globals.len(),
                self@ == s0,
                strings_view(names@).no_duplicates(),
                forall|n: Seq<char>| strings_view(names@).contains(n) ==> #[trigger] class_name_listed(s0, fv, n),
                forall|k: int| 0 <= k < i && (#[trigger] s0.globals[k]).1 is Class ==> strings_view(names@).contains(s0.globals[k].0),
            decreases self.globals.len() - i,
        {
            let ghost g = s0.globals[i as int];
            assert(g == (self.globals@[i as int].0@, self.globals@[i as int].1@));
            let ghost before = strings_view(names@);
            if let Value::Class(_) = self.globals[i].1 {
                if !crate::text::contains_string(&names, &self.globals[i].0) {
                    names.push(self.globals[i].0.clone());
                    assert(strings_view(names@) =~= before.push(g.0));
                    proof {
                        lemma_push_no_dup(before, g.0);
                        assert(0 <= i < s0.globals.len() && s0.globals[i as int].0 == g.0 && s0.globals[i as int].1 is Class);
                        assert(exists|k: int| 0 <= k < s0.globals.len() && s0.globals[k].0 == g.0 && s0.globals[k].1 is Class);
                        assert(class_name_listed(s0, fv, g.0));
                        assert forall|n: Seq<char>| strings_view(names@).contains(n) implies #[trigger] class_name_listed(s0, fv, n) by {
                            lemma_push_contains(before, g.0, n);
                        }
                    }
                }
            }
            proof {
                assert forall|k: int| 0 <= k < i + 1 && (#[trigger] s0.globals[k]).1 is Class implies strings_view(names@).contains(s0.globals[k].0) by {
                    if strings_view(names@) != before {
                        lemma_push_contains(before, g.0, s0.globals[k].0);
                    }
                }
            }
            i = i + 1;
        }
        let mut j: usize = 0;
        while j < files.len()
            invariant
                j <= files.len(),
                self@ == s0,
                fv == strings_view(files@),
                strings_view(names@).no_duplicates(),
                forall|n: Seq<char>| strings_view(names@).contains(n) ==> #[trigger] class_name_listed(s0, fv, n),
                forall|k: int| 0 <= k < s0.globals.len() && (#[trigger] s0.globals[k]).1 is Class ==> strings_view(names@).contains(s0.globals[k].0),
                forall|k: int| 0 <= k < j && !(#[trigger] fv[k]).contains(' ') ==> strings_view(names@).contains(fv[k]),
            decreases files.len() - j,
        {
            let f = &files[j];
            assert(fv[j as int] == f@);
            let chars = crate::text::chars_of(f.as_str());
            let mut has_space = false;
            let mut c: usize = 0;
            while c < chars.len()
                invariant
                    c <= chars.len(),
                    chars@ == f@,
                    has_space == exists|t: int| 0 <= t < c && f@[t] == ' ',
                decreases chars.len() - c,
            {
                if chars[c] == ' ' {
                    has_space = true;
                }
                c = c + 1;
            }
            assert(has_space == f@.contains(' '));
            let ghost before = strings_view(names@);
            if !has_space && !crate::text::contains_string(&names, f) {
                names.push(f.clone());
                assert(strings_view(names@) =~= before.push(f@));
                proof {
                    lemma_push_no_dup(before, f@);
                    assert(fv.contains(f@));
                    assert(fv.contains(f@) && !f@.contains(' '));
                    assert(class_name_listed(s0, fv, f@));
                    assert forall|n: Seq<char>| strings_view(names@).contains(n) implies #[trigger] class_name_listed(s0, fv, n) by {
                        lemma_push_contains(before, f@, n);
                    }
                    assert forall|k: int| 0 <= k < s0.globals.len() && (#[trigger] s0.globals[k]).1 is Class implies strings_view(names@).contains(s0.globals[k].0) by {
                        lemma_push_contains(before, f@, s0.globals[k].0);
                    }
                }
            }
            proof {
                assert forall|k: int| 0 <= k < j + 1 && !(#[trigger] fv[k]).contains(' ') implies strings_view(names@).contains(fv[k]) by {
                    if strings_view(names@) != before {
                        lemma_push_contains(before, f@, fv[k]);
                    }
                }
            }
            j = j + 1;
        }
        let ghost unsorted = strings_view(names@);
        assert forall|n: Seq<char>| unsorted.contains(n) <==> #[trigger] class_name_listed(s0, fv, n) by {
            if class_name_listed(s0, fv, n) {
                if exists|k: int| 0 <= k < s0.globals.len() && s0.globals[k].0 == n && s0.globals[k].1 is Class {
                    let k = choose|k: int| 0 <= k < s0.globals.len() && s0.globals[k].0 == n && s0.globals[k].1 is Class;
                    assert(unsorted.contains(s0.globals[k].0));
                } else {
                    let k = choose|k: int| 0 <= k < fv.len() && fv[k] == n;
                    assert(unsorted.contains(fv[k]));
                }
            }
        }
        let sorted = sort_strings(names);
        let ghost sv = strings_view(sorted@);
        proof {
            unsorted.to_multiset_ensures();
            sv.to_multiset_ensures();
            assert forall|n: Seq<char>| sv.contains(n) <==> class_name_listed(s0, fv, n) by {
                assert(sv.to_multiset().count(n) == unsorted.to_multiset().count(n));
            }
            assert(sv.no_duplicates()) by {
                unsorted.lemma_multiset_has_no_duplicates();
                assert forall|x: Seq<char>| sv.to_multiset().contains(x) implies sv.to_multiset().count(x) == 1 by {
                    assert(unsorted.to_multiset().contains(x));
                }
                sv.lemma_multiset_has_no_duplicates_conv();
            }
        }
        let mut elems: Vec<Value> = Vec::new();
        let mut k: usize = 0;
        while k < sorted.len()
            invariant
                k <= sorted.len(),
                sv == strings_view(sorted@),
                values_view(elems@) =~= symbols(sv).take(k as int),
            decreases sorted.len() - k,
        {
            let ghost before = values_view(elems@);
            elems.push(Value::Symbol(sorted[k].clone()));
            assert(values_view(elems@) =~= before.push(ValueV::Symbol(sv[k as int])));
            assert(values_view(elems@) =~= symbols(sv).take(k + 1));
            k = k + 1;
        }
        assert(symbols(sv).take(sv.len() as int) =~= symbols(sv));
        proof {
            lemma_push_cell_keeps_wf(self@, CellV::Array(values_view(elems@)));
        }
        let c = self.add_cell(HeapCell::Array(elems));
        Value::Array(c)
    }
}

/// `True>>ifTrue:` and `False>>ifTrue:`: the block to run when the receiver
/// is true and the argument a block; `None` (the answer is nil) otherwise.
pub fn bool_if_true(receiver: &Value, args: &Vec<Value>) -> (r: Option<usize>)
    ensures
        r == (match (receiver@, first(values_view(args@))) {
            (ValueV::Boolean(true), Some(ValueV::Block(b))) => Some(b),
            _ => None::<usize>,
        }),
{
    if args.len() == 0 {
        return None;
    }
    assert(values_view(args@)[0] == args@[0]@);
    match (receiver, &args[0]) {
        (Value::Boolean(true), Value::Block(b)) => Some(*b),
        _ => None,
    }
}

/// `True>>ifFalse:` and `False>>ifFalse:`: the block to run when the
/// receiver is false and the argument a block; `None` (the answer is nil)
/// otherwise.
pub fn bool_if_false(receiver: &Value, args: &Vec<Value>) -> (r: Option<usize>)
    ensures
        r == (match (receiver@, first(values_view(args@))) {
            (ValueV::Boolean(false), Some(ValueV::Block(b))) => Some(b),
            _ => None::<usize>,
        }),
{
    if args.len() == 0 {
        return None;
    }
    assert(values_view(args@)[0] == args@[0]@);
    match (receiver, &args[0]) {
        (Value::Boolean(false), Value::Block(b)) => Some(*b),
        _ => None,
    }
}

/// `Boolean>>ifTrue:ifFalse:`: the first block when the receiver is true,
/// the second when it is false; `None` (the answer is nil) unless the
/// receiver is a boolean and both arguments are blocks.
pub fn bool_if_true_if_false(receiver: &Value, args: &Vec<Value>) -> (r: Option<usize>)
    ensures
        r == (if args@.len() >= 2 {
            match (receiver@, args@[0]@, args@[1]@) {
                (ValueV::Boolean(b), ValueV::Block(t), ValueV::Block(f)) => Some(if b { t } else { f }),
                _ => None::<usize>,
            }
        } else {
            None::<usize>
        }),
{
    if args.len() < 2 {
        return None;
    }
    match (receiver, &args[0], &args[1]) {
        (Value::Boolean(b), Value::Block(t), Value::Block(f)) => Some(if *b { *t } else { *f }),
        _ => None,
    }
}

/// `Block>>value` and its variants: the block to run, when the receiver is
/// one; `None` (the answer is nil) otherwise.
pub fn block_value(receiver: &Value) -> (r: Option<usize>)
    ensures
        r == (match receiver@ {
            ValueV::Block(b) => Some(b),
            _ => None::<usize>,
        }),
{
    match receiver {
        Value::Block(b) => Some(*b),
        _ => None,
    }
}

/// `Block>>restart`: the code of the block is to run again.
pub fn block_restart() -> (r: crate::runtime::Outcome)
    ensures
        r is Restart,
{
    crate::runtime::Outcome::Restart
}

/// The arguments `Object>>perform:withArguments:` passes: the elements of an
/// array, or the value itself.
pub open spec fn perform_args(cells: Seq<CellV>, args: Seq<ValueV>) -> Seq<ValueV> {
    if args.len() > 1 {
        match args[1] {
            ValueV::Array(c) => match cells[c as int] {
                CellV::Array(elems) => elems,
                _ => Seq::empty(),
            },
            v => seq![v],
        }
    } else {
        Seq::empty()
    }
}

/// `Object>>perform:` and `Object>>perform:withArguments:`: the message to
/// send to the receiver, the selector named by a string or symbol with the
/// arguments that `perform_args` gives; `None` (the answer is nil) when no
/// selector is named.
pub fn obj_perform(heap: &Heap, args: &Vec<Value>) -> (r: Option<(String, Vec<Value>)>)
    requires
        valid_args(heap@, args@),
    ensures
        match r {
            Some((sel, send)) => first(values_view(args@)) matches Some(v) && text_of(heap@, v) == Some(sel@)
                && values_view(send@) == perform_args(heap@, values_view(args@)),
            None => !(first(values_view(args@)) matches Some(v) && text_of(heap@, v) is Some),
        },
{
    if args.len() == 0 {
        return None;
    }
    assert(values_view(args@)[0] == args@[0]@);
    assert(valid_value(heap@, args@[0]@));
    let sel = match crate::collections::text_of_value(heap, &args[0]) {
        Some(t) => t,
        None => {
            return None;
        },
    };
    let mut send: Vec<Value> = Vec::new();
    if args.len() > 1 {
        assert(values_view(args@)[1] == args@[1]@);
        assert(valid_value(heap@, args@[1]@));
        match &args[1] {
            Value::Array(c) => {
                assert(heap@[*c as int] == heap.cells@[*c as int]@);
                match &heap.cells[*c] {
                    HeapCell::Array(elems) => {
                        let mut i: usize = 0;
                        while i < elems.len()
                            invariant
                                i <= elems.len(),
                                values_view(send@) =~= values_view(elems@).take(i as int),
                            decreases elems.len() - i,
                        {
                            let ghost before = values_view(send@);
                            send.push(elems[i].copy());
                            assert(values_view(send@) =~= before.push(elems@[i as int]@));
                            assert(values_view(send@) =~= values_view(elems@).take(i + 1));
                            i = i + 1;
                        }
                        assert(values_view(elems@).take(elems@.len() as int) =~= values_view(elems@));
                    },
                    _ => {
                        assert(false);
                    },
                }
            },
            other => {
                send.push(other.copy());
                assert(values_view(send@) =~= seq![args@[1]@]);
            },
        }
    } else {
        assert(values_view(send@) =~= Seq::<ValueV>::empty());
    }
    Some((sel, send))
}

/// The arguments that the second of `args` passes on, as `perform_args`
/// says: the elements of an array, any other value alone, or none.
pub fn passed_args(heap: &Heap, args: &Vec<Value>) -> (r: Vec<Value>)
    requires
        valid_args(heap@, args@),
    ensures
        values_view(r@) == perform_args(heap@, values_view(args@)),
{
    let mut send: Vec<Value> = Vec::new();
    if args.len() > 1 {
        assert(values_view(args@)[1] == args@[1]@);
        assert(valid_value(heap@, args@[1]@));
        match &args[1] {
            Value::Array(c) => {
                assert(heap@[*c as int] == heap.cells@[*c as int]@);
                match &heap.cells[*c] {
                    HeapCell::Array(elems) => {
                        let mut i: usize = 0;
                        while i < elems.len()
                            invariant
                                i <= elems.len(),
                                values_view(send@) =~= values_view(elems@).take(i as int),
                            decreases elems.len() - i,
                        {
                            let ghost before = values_view(send@);
                            send.push(elems[i].copy());
                            assert(values_view(send@) =~= before.push(elems@[i as int]@));
                            assert(values_view(send@) =~= values_view(elems@).take(i + 1));
                            i = i + 1;
                        }
                        assert(values_view(elems@).take(elems@.len() as int) =~= values_view(elems@));
                    },
                    _ => {
                        assert(false);
                    },
                }
            },
            other => {
                send.push(other.copy());
                assert(values_view(send@) =~= seq![args@[1]@]);
            },
        }
    } else {
        assert(values_view(send@) =~= Seq::<ValueV>::empty());
    }
    send
}

/// What `Object>>perform:inSuperclass:` runs: the method that the class given
/// as second argument answers the selector named by the first with, run on
/// the receiver with no arguments; `Ok(None)` (the answer is nil) unless the
/// arguments are a string or symbol and a class.
pub open spec fn perform_in_superclass_of(s: StoreV, args: Seq<ValueV>) -> Result<Option<usize>, SuperError> {
    if args.len() >= 2 && args[1] is Class && text_of(s.cells, args[0]) is Some {
        match method_in(s, args[1]->Class_0 as int, text_of(s.cells, args[0]).unwrap()) {
            Some(m) => Ok(Some(m)),
            None => Err(SuperError::NotFound),
        }
    } else {
        Ok(None)
    }
}

impl Store {
    /// `Object>>perform:inSuperclass:`: the method to run on the receiver,
    /// as `perform_in_superclass_of` says.
    pub fn obj_perform_in_superclass(&self, args: &Vec<Value>) -> (r: Result<Option<usize>, SuperError>)
        requires
            self@.wf(),
            valid_args(self@.cells, args@),
            forall|i: int| 0 <= i < args@.len() ==> ref_ok(self@, #[trigger] args@[i]@),
        ensures
            r == perform_in_superclass_of(self@, values_view(args@)),
            r matches Ok(Some(m)) ==> m < self@.methods.len(),
    {
        if args.len() < 2 {
            return Ok(None);
        }
        assert(values_view(args@)[0] == args@[0]@);
        assert(values_view(args@)[1] == args@[1]@);
        assert(valid_value(self@.cells, args@[0]@));
        assert(ref_ok(self@, args@[1]@));
        let k = match &args[1] {
            Value::Class(k) => *k,
            _ => {
                return Ok(None);
            },
        };
        assert(self@.cells == self.heap@);
        match crate::collections::text_of_value(&self.heap, &args[0]) {
            None => Ok(None),
            Some(sel) => match self.lookup_method(k, &sel) {
                Some(m) => Ok(Some(m)),
                None => Err(SuperError::NotFound),
            },
        }
    }
}

} // verus!

use vstd::prelude::*;
use std::collections::HashMap;
use crate::object::{
    CellV, Heap, HeapCell, Value, ValueV, cell_values, heap_ok, value_ok, values_view,
};

verus! {

broadcast use vstd::std_specs::hash::group_hash_axioms;

/// The serialized form of a value: a tree in which each string, array and
/// object is defined once, with an id, and referred to by that id afterwards.
#[derive(Debug)]
pub enum SerializedValue {
    Nil,
    Boolean(bool),
    Integer(String),
    Double(u64),
    Symbol(String),
    Ref(u32),
    DefString { id: u32, value: String },
    DefArray { id: u32, elements: Vec<SerializedValue> },
    DefObject { id: u32, class_name: String, fields: Vec<SerializedValue> },
    Unsupported(String),
}

// ---------------------------------------------------------------------------
// Views
// ---------------------------------------------------------------------------

pub enum SerV {
    Nil,
    Boolean(bool),
    Integer(Seq<char>),
    Double(u64),
    Symbol(Seq<char>),
    Ref(u32),
    DefString(u32, Seq<char>),
    DefArray(u32, Seq<SerV>),
    DefObject(u32, Seq<char>, Seq<SerV>),
    Unsupported(Seq<char>),
}

pub open spec fn ser_view(s: SerializedValue) -> SerV
    decreases s, 0nat,
{
    match s {
        SerializedValue::Nil => SerV::Nil,
        SerializedValue::Boolean(b) => SerV::Boolean(b),
        SerializedValue::Integer(t) => SerV::Integer(t@),
        SerializedValue::Double(d) => SerV::Double(d),
        SerializedValue::Symbol(t) => SerV::Symbol(t@),
        SerializedValue::Ref(id) => SerV::Ref(id),
        SerializedValue::DefString { id, value } => SerV::DefString(id, value@),
        SerializedValue::DefArray { id, elements } => {
            proof {
                assert(decreases_to!(elements => elements@));
            }
            SerV::DefArray(id, sers_view(elements@))
        },
        SerializedValue::DefObject { id, class_name, fields } => {
            proof {
                assert(decreases_to!(fields => fields@));
            }
            SerV::DefObject(id, class_name@, sers_view(fields@))
        },
        SerializedValue::Unsupported(t) => SerV::Unsupported(t@),
    }
}

pub open spec fn sers_view(s: Seq<SerializedValue>) -> Seq<SerV>
    decreases s, 1nat,
{
    if s.len() == 0 {
        Seq::empty()
    } else {
        sers_view(s.drop_last()).push(ser_view(s.last()))
    }
}

pub proof fn lemma_sers_view_push(s: Seq<SerializedValue>, x: SerializedValue)
    ensures
        sers_view(s.push(x)) == sers_view(s).push(ser_view(x)),
{
    assert(s.push(x).drop_last() =~= s);
}

// ---------------------------------------------------------------------------
// Well-formed heaps
// ---------------------------------------------------------------------------

// ---------------------------------------------------------------------------
// The serialization, as a function
// ---------------------------------------------------------------------------

/// The serializer's memory: the id given to each cell met so far, and the next id.
pub struct SerState {
    pub seen: Map<usize, u32>,
    pub next: u32,
}

/// The memory has only met cells of `cells`; it has given each of them an id
/// of its own below `next`, and one id for each.
pub open spec fn state_ok(st: SerState, cells: Seq<CellV>) -> bool {
    &&& forall|c: usize| #[trigger] st.seen.contains_key(c) ==> c < cells.len() && st.seen[c] < st.next
    &&& forall|a: usize, b: usize|
        #[trigger] st.seen.contains_key(a) && #[trigger] st.seen.contains_key(b) && st.seen[a] == st.seen[b]
            ==> a == b
    &&& st.next + unseen_count(st.seen, cells.len() as int) == cells.len()
}

/// `st2` keeps every id given in `st`, and the ids it adds come after those.
pub open spec fn extends(st: SerState, st2: SerState) -> bool {
    &&& st.next <= st2.next
    &&& forall|c: usize| #[trigger] st.seen.contains_key(c) ==> st2.seen.contains_key(c) && st2.seen[c] == st.seen[c]
    &&& forall|c: usize| #[trigger] st2.seen.contains_key(c) && !st.seen.contains_key(c) ==> st.next <= st2.seen[c]
}

/// Gives cell `c` the next id.
pub open spec fn mark(st: SerState, c: usize) -> SerState {
    SerState { seen: st.seen.insert(c, st.next), next: (st.next + 1) as u32 }
}

/// How many of the cells `0 .. n` have no id yet.
pub open spec fn unseen_count(seen: Map<usize, u32>, n: int) -> nat
    decreases n,
{
    if n <= 0 {
        0
    } else {
        unseen_count(seen, n - 1) + if seen.contains_key((n - 1) as usize) {
            0nat
        } else {
            1nat
        }
    }
}

/// What serializing `v` gives, and the serializer's memory after it: a cell
/// that already has an id is referred to by it; any other is given the next
/// id and defined, its contents following in order. `fuel` bounds how deeply
/// definitions nest; the number of cells without an id is always enough.
pub open spec fn ser(cells: Seq<CellV>, st: SerState, v: ValueV, fuel: nat) -> (SerV, SerState)
    decreases fuel, 0nat, 0int,
{
    match v {
        ValueV::Nil => (SerV::Nil, st),
        ValueV::Boolean(b) => (SerV::Boolean(b), st),
        ValueV::Integer(t) => (SerV::Integer(t), st),
        ValueV::Double(d) => (SerV::Double(d), st),
        ValueV::Symbol(t) => (SerV::Symbol(t), st),
        ValueV::Class(_) | ValueV::Method(_) | ValueV::Block(_) | ValueV::Runtime => (
            SerV::Unsupported("Runtime Context"@),
            st,
        ),
        ValueV::String(c) => if st.seen.contains_key(c) {
            (SerV::Ref(st.seen[c]), st)
        } else {
            let text = match cells[c as int] {
                CellV::Str(t) => t,
                _ => Seq::empty(),
            };
            (SerV::DefString(st.next, text), mark(st, c))
        },
        ValueV::Array(c) => if st.seen.contains_key(c) {
            (SerV::Ref(st.seen[c]), st)
        } else if fuel == 0 {
            (SerV::Unsupported(Seq::empty()), st)
        } else {
            let (xs, st2) = ser_list(cells, mark(st, c), cell_values(cells[c as int]), 0, (fuel - 1) as nat);
            (SerV::DefArray(st.next, xs), st2)
        },
        ValueV::Object(c) => if st.seen.contains_key(c) {
            (SerV::Ref(st.seen[c]), st)
        } else if fuel == 0 {
            (SerV::Unsupported(Seq::empty()), st)
        } else {
            let class_name = match cells[c as int] {
                CellV::Object(n, _) => n,
                _ => Seq::empty(),
            };
            let (xs, st2) = ser_list(cells, mark(st, c), cell_values(cells[c as int]), 0, (fuel - 1) as nat);
            (SerV::DefObject(st.next, class_name, xs), st2)
        },
    }
}

/// Serializes `vs[i..]` in order, each value after the memory that the
/// previous one left.
pub open spec fn ser_list(cells: Seq<CellV>, st: SerState, vs: Seq<ValueV>, i: int, fuel: nat) -> (
    Seq<SerV>,
    SerState,
)
    decreases fuel, 1nat, vs.len() - i,
{
    if i < 0 || i >= vs.len() {
        (Seq::empty(), st)
    } else {
        let (x, st1) = ser(cells, st, vs[i], fuel);
        let (xs, st2) = ser_list(cells, st1, vs, i + 1, fuel);
        (seq![x] + xs, st2)
    }
}

// ---------------------------------------------------------------------------
// Lemmas on the count of cells without an id
// ---------------------------------------------------------------------------

pub proof fn lemma_unseen_le(seen: Map<usize, u32>, n: int)
    ensures
        unseen_count(seen, n) <= if n < 0 { 0 } else { n },
    decreases n,
{
    if n > 0 {
        lemma_unseen_le(seen, n - 1);
    }
}

pub proof fn lemma_unseen_empty(n: int)
    requires
        0 <= n <= usize::MAX + 1,
    ensures
        unseen_count(Map::<usize, u32>::empty(), n) == n,
    decreases n,
{
    if n > 0 {
        lemma_unseen_empty(n - 1);
    }
}

pub proof fn lemma_unseen_positive(seen: Map<usize, u32>, n: int, c: usize)
    requires
        c < n,
        !seen.contains_key(c),
    ensures
        unseen_count(seen, n) >= 1,
    decreases n,
{
    if c < n - 1 {
        lemma_unseen_positive(seen, n - 1, c);
    }
}

pub proof fn lemma_unseen_insert(seen: Map<usize, u32>, n: int, c: usize, id: u32)
    requires
        c < n <= usize::MAX + 1,
        !seen.contains_key(c),
    ensures
        unseen_count(seen.insert(c, id), n) + 1 == unseen_count(seen, n),
    decreases n,
{
    if c < n - 1 {
        lemma_unseen_insert(seen, n - 1, c, id);
        assert(seen.insert(c, id).contains_key((n - 1) as usize) == seen.contains_key((n - 1) as usize));
    } else {
        lemma_unseen_same(seen, seen.insert(c, id), n - 1);
    }
}

/// Maps that give ids to the same cells below `n` leave as many without one.
pub proof fn lemma_unseen_same(a: Map<usize, u32>, b: Map<usize, u32>, n: int)
    requires
        n <= usize::MAX + 1,
        forall|k: usize| k < n ==> (a.contains_key(k) <==> b.contains_key(k)),
    ensures
        unseen_count(a, n) == unseen_count(b, n),
    decreases n,
{
    if n > 0 {
        lemma_unseen_same(a, b, n - 1);
    }
}

/// A map that gives ids to more cells leaves fewer without one.
pub proof fn lemma_unseen_grow(a: Map<usize, u32>, b: Map<usize, u32>, n: int)
    requires
        n <= usize::MAX + 1,
        forall|k: usize| a.contains_key(k) ==> b.contains_key(k),
    ensures
        unseen_count(b, n) <= unseen_count(a, n),
    decreases n,
{
    if n > 0 {
        lemma_unseen_grow(a, b, n - 1);
    }
}

pub proof fn lemma_extends_trans(a: SerState, b: SerState, c: SerState)
    requires
        extends(a, b),
        extends(b, c),
    ensures
        extends(a, c),
{
    assert forall|k: usize| #[trigger] c.seen.contains_key(k) && !a.seen.contains_key(k) implies a.next <= c.seen[k] by {
        if b.seen.contains_key(k) {
        }
    }
}

// ---------------------------------------------------------------------------
// The serializer
// ---------------------------------------------------------------------------

/// Turns values of a heap into their serialized form, remembering the cells
/// it has defined so that later meetings of them become references.
pub struct SomSerializer {
    seen_pointers: HashMap<usize, u32>,
    next_id: u32,
}

impl SomSerializer {
    pub closed spec fn state(&self) -> SerState {
        SerState { seen: self.seen_pointers@, next: self.next_id }
    }

    /// The serializer has only met cells of `cells`, and has given each cell
    /// it has met an id of its own, below the next id.
    pub open spec fn fits(&self, cells: Seq<CellV>) -> bool {
        state_ok(self.state(), cells)
    }

    pub fn new() -> (s: Self)
        ensures
            s.state() == (SerState { seen: Map::empty(), next: 0 }),
            forall|cells: Seq<CellV>| cells.len() <= usize::MAX ==> #[trigger] s.fits(cells),
    {
        let s = SomSerializer { seen_pointers: HashMap::new(), next_id: 0 };
        assert forall|cells: Seq<CellV>| cells.len() <= usize::MAX implies #[trigger] s.fits(cells) by {
            lemma_unseen_empty(cells.len() as int);
        }
        s
    }

    /// Gives the cell `ptr` the next id.
    pub fn get_next_id(&mut self, ptr: usize) -> (id: u32)
        requires
            old(self).state().next < u32::MAX,
        ensures
            id == old(self).state().next,
            final(self).state() == mark(old(self).state(), ptr),
    {
        let id = self.next_id;
        self.next_id = self.next_id + 1;
        self.seen_pointers.insert(ptr, id);
        id
    }

    fn lookup(&self, ptr: usize) -> (r: Option<u32>)
        ensures
            r == (if self.state().seen.contains_key(ptr) {
                Some(self.state().seen[ptr])
            } else {
                None
            }),
    {
        match self.seen_pointers.get(&ptr) {
            Some(id) => Some(*id),
            None => None,
        }
    }

    /// Converts `value` into its serialized form.
    pub fn serialize_value(&mut self, heap: &Heap, value: &Value) -> (r: SerializedValue)
        requires
            heap_ok(heap@),
            value_ok(heap@, value@),
            old(self).fits(heap@),
            heap@.len() <= u32::MAX,
        ensures
            final(self).fits(heap@),
            extends(old(self).state(), final(self).state()),
            (ser_view(r), final(self).state()) == ser(
                heap@,
                old(self).state(),
                value@,
                unseen_count(old(self).state().seen, heap@.len() as int),
            ),
    {
        self.serialize_with(heap, value, Ghost(unseen_count(self.state().seen, heap@.len() as int)))
    }

    fn serialize_with(&mut self, heap: &Heap, value: &Value, Ghost(fuel): Ghost<nat>) -> (r: SerializedValue)
        requires
            heap_ok(heap@),
            value_ok(heap@, value@),
            old(self).fits(heap@),
            heap@.len() <= u32::MAX,
            unseen_count(old(self).state().seen, heap@.len() as int) <= fuel,
        ensures
            final(self).fits(heap@),
            extends(old(self).state(), final(self).state()),
            (ser_view(r), final(self).state()) == ser(heap@, old(self).state(), value@, fuel),
        decreases fuel, 0nat,
    {
        let ghost cells = heap@;
        let ghost n = heap@.len() as int;
        proof {
            assert(heap@.len() == heap.cells@.len());
        }
        match value {
            Value::Nil => SerializedValue::Nil,
            Value::Boolean(b) => SerializedValue::Boolean(*b),
            Value::Integer(t) => SerializedValue::Integer(t.clone()),
            Value::Double(d) => SerializedValue::Double(*d),
            Value::Symbol(t) => SerializedValue::Symbol(t.clone()),
            Value::Class(_) | Value::Method(_) | Value::Block(_) | Value::Runtime => SerializedValue::Unsupported(
                String::from_str("Runtime Context"),
            ),
            Value::String(c) => {
                let c = *c;
                match self.lookup(c) {
                    Some(id) => SerializedValue::Ref(id),
                    None => {
                        proof {
                            lemma_unseen_positive(self.state().seen, n, c);
                            lemma_unseen_insert(self.state().seen, n, c, self.state().next);
                        }
                        let id = self.get_next_id(c);
                        match &heap.cells[c] {
                            HeapCell::Str(s) => SerializedValue::DefString { id, value: s.clone() },
                            _ => {
                                proof {
                                    assert(false);
                                }
                                SerializedValue::Nil
                            },
                        }
                    },
                }
            },
            Value::Array(c) => {
                let c = *c;
                match self.lookup(c) {
                    Some(id) => SerializedValue::Ref(id),
                    None => {
                        proof {
                            lemma_unseen_positive(self.state().seen, n, c);
                            lemma_unseen_insert(self.state().seen, n, c, self.state().next);
                        }
                        let id = self.get_next_id(c);
                        match &heap.cells[c] {
                            HeapCell::Array(elems) => {
                                proof {
                                    assert forall|i: int| 0 <= i < elems@.len() implies value_ok(heap@, #[trigger] elems@[i]@) by {
                                        assert(heap@[c as int] == heap.cells@[c as int]@);
                                        assert(cell_values(heap@[c as int])[i] == elems@[i]@);
                                    }
                                }
                                let ghost mid = self.state();
                                let elements = self.serialize_all(heap, elems, Ghost((fuel - 1) as nat));
                                proof {
                                    lemma_extends_trans(old(self).state(), mid, self.state());
                                }
                                SerializedValue::DefArray { id, elements }
                            },
                            _ => {
                                proof {
                                    assert(false);
                                }
                                SerializedValue::Nil
                            },
                        }
                    },
                }
            },
            Value::Object(c) => {
                let c = *c;
                match self.lookup(c) {
                    Some(id) => SerializedValue::Ref(id),
                    None => {
                        proof {
                            lemma_unseen_positive(self.state().seen, n, c);
                            lemma_unseen_insert(self.state().seen, n, c, self.state().next);
                        }
                        let id = self.get_next_id(c);
                        match &heap.cells[c] {
                            HeapCell::Object { class_name, fields } => {
                                proof {
                                    assert forall|i: int| 0 <= i < fields@.len() implies value_ok(heap@, #[trigger] fields@[i]@) by {
                                        assert(heap@[c as int] == heap.cells@[c as int]@);
                                        assert(cell_values(heap@[c as int])[i] == fields@[i]@);
                                    }
                                }
                                let class_name = class_name.clone();
                                let ghost mid = self.state();
                                let fields = self.serialize_all(heap, fields, Ghost((fuel - 1) as nat));
                                proof {
                                    lemma_extends_trans(old(self).state(), mid, self.state());
                                }
                                SerializedValue::DefObject { id, class_name, fields }
                            },
                            _ => {
                                proof {
                                    assert(false);
                                }
                                SerializedValue::Nil
                            },
                        }
                    },
                }
            },
        }
    }

    /// Serializes the values of a cell, in order.
    fn serialize_all(&mut self, heap: &Heap, vs: &Vec<Value>, Ghost(fuel): Ghost<nat>) -> (r: Vec<SerializedValue>)
        requires
            heap_ok(heap@),
            forall|i: int| 0 <= i < vs@.len() ==> value_ok(heap@, #[trigger] vs@[i]@),
            old(self).fits(heap@),
            heap@.len() <= u32::MAX,
            unseen_count(old(self).state().seen, heap@.len() as int) <= fuel,
        ensures
            final(self).fits(heap@),
            extends(old(self).state(), final(self).state()),
            (sers_view(r@), final(self).state()) == ser_list(heap@, old(self).state(), values_view(vs@), 0, fuel),
        decreases fuel, 1nat,
    {
        let ghost vv = values_view(vs@);
        let mut out: Vec<SerializedValue> = Vec::new();
        let mut i: usize = 0;
        while i < vs.len()
            invariant
                i <= vs.len(),
                vv == values_view(vs@),
                heap_ok(heap@),
                forall|j: int| 0 <= j < vs@.len() ==> value_ok(heap@, #[trigger] vs@[j]@),
                self.fits(heap@),
                heap@.len() <= u32::MAX,
                unseen_count(self.state().seen, heap@.len() as int) <= fuel,
                extends(old(self).state(), self.state()),
                ser_list(heap@, old(self).state(), vv, 0, fuel) == (
                    sers_view(out@) + ser_list(heap@, self.state(), vv, i as int, fuel).0,
                    ser_list(heap@, self.state(), vv, i as int, fuel).1,
                ),
            decreases vs.len() - i,
        {
            let ghost before = self.state();
            let ghost out_before = out@;
            let x = self.serialize_with(heap, &vs[i], Ghost(fuel));
            proof {
                lemma_unseen_grow(before.seen, self.state().seen, heap@.len() as int);
                lemma_sers_view_push(out_before, x);
                let rest = ser_list(heap@, self.state(), vv, i + 1, fuel);
                assert(ser_list(heap@, before, vv, i as int, fuel) == (seq![ser_view(x)] + rest.0, rest.1));
                assert(sers_view(out_before) + (seq![ser_view(x)] + rest.0) =~= sers_view(out_before).push(
                    ser_view(x),
                ) + rest.0);
            }
            out.push(x);
            i = i + 1;
        }
        proof {
            assert(sers_view(out@) + Seq::<SerV>::empty() =~= sers_view(out@));
        }
        out
    }
}


// ---------------------------------------------------------------------------
// Deserialization
// ---------------------------------------------------------------------------

/// Why a serialized value could not be turned back into a value.
#[derive(Debug, Clone, Copy, PartialEq, Eq, Structural)]
pub enum DeserializeError {
    /// An object of a class that cannot be loaded.
    UnknownClass,
    /// An integer whose text is not an optional `-` followed by decimal digits.
    InvalidInteger,
    /// A reference to an id that nothing defines.
    UnresolvedReference(u32),
    /// A definition whose id was given no cell in the first pass.
    MissingShell(u32),
}

/// An optional `-` followed by one or more decimal digits.
pub open spec fn integer_text_ok(t: Seq<char>) -> bool {
    &&& integer_digits(t).len() > 0
    &&& forall|i: int| 0 <= i < integer_digits(t).len() ==> '0' <= #[trigger] integer_digits(t)[i] <= '9'
}

/// The text after an optional leading `-`.
pub open spec fn integer_digits(t: Seq<char>) -> Seq<char> {
    if t.len() > 0 && t[0] == '-' {
        t.drop_first()
    } else {
        t
    }
}

pub open spec fn nils(n: nat) -> Seq<ValueV> {
    Seq::new(n, |i: int| ValueV::Nil)
}

/// The value that refers to cell `c`, by the kind of the cell.
pub open spec fn value_at(cells: Seq<CellV>, c: usize) -> ValueV {
    match cells[c as int] {
        CellV::Str(_) => ValueV::String(c),
        CellV::Array(_) => ValueV::Array(c),
        CellV::Object(_, _) => ValueV::Object(c),
    }
}

/// The first pass: a cell for each definition in `x`, in the order they
/// come, holding nil for each element or field; `res` records the cell of each id.
pub open spec fn shells(
    cells: Seq<CellV>,
    res: Map<u32, usize>,
    classes: Seq<Seq<char>>,
    x: SerV,
) -> Result<(Seq<CellV>, Map<u32, usize>), DeserializeError>
    decreases x, 0int,
{
    match x {
        SerV::DefString(id, _) => Ok((cells.push(CellV::Str(Seq::empty())), res.insert(id, cells.len() as usize))),
        SerV::DefArray(id, xs) => shells_list(
            cells.push(CellV::Array(nils(xs.len()))),
            res.insert(id, cells.len() as usize),
            classes,
            xs,
            0,
        ),
        SerV::DefObject(id, n, xs) => if classes.contains(n) {
            shells_list(
                cells.push(CellV::Object(n, nils(xs.len()))),
                res.insert(id, cells.len() as usize),
                classes,
                xs,
                0,
            )
        } else {
            Err(DeserializeError::UnknownClass)
        },
        _ => Ok((cells, res)),
    }
}

pub open spec fn shells_list(
    cells: Seq<CellV>,
    res: Map<u32, usize>,
    classes: Seq<Seq<char>>,
    xs: Seq<SerV>,
    i: int,
) -> Result<(Seq<CellV>, Map<u32, usize>), DeserializeError>
    decreases xs, xs.len() - i,
{
    if i < 0 || i >= xs.len() {
        Ok((cells, res))
    } else {
        match shells(cells, res, classes, xs[i]) {
            Err(e) => Err(e),
            Ok((c1, r1)) => shells_list(c1, r1, classes, xs, i + 1),
        }
    }
}

/// The second pass: the value that `x` stands for, each definition filling
/// the cell that the first pass made for its id.
pub open spec fn populate(cells: Seq<CellV>, res: Map<u32, usize>, x: SerV) -> Result<
    (ValueV, Seq<CellV>),
    DeserializeError,
>
    decreases x, 0int,
{
    match x {
        SerV::Nil => Ok((ValueV::Nil, cells)),
        SerV::Boolean(b) => Ok((ValueV::Boolean(b), cells)),
        SerV::Integer(t) => if integer_text_ok(t) {
            Ok((ValueV::Integer(crate::compiler::canonical_integer(t)), cells))
        } else {
            Err(DeserializeError::InvalidInteger)
        },
        SerV::Double(d) => Ok((ValueV::Double(d), cells)),
        SerV::Symbol(t) => Ok((ValueV::Symbol(t), cells)),
        SerV::Unsupported(m) => Ok((ValueV::String(cells.len() as usize), cells.push(CellV::Str("Unsupported: "@ + m)))),
        SerV::Ref(id) => if res.contains_key(id) {
            Ok((value_at(cells, res[id]), cells))
        } else {
            Err(DeserializeError::UnresolvedReference(id))
        },
        SerV::DefString(id, t) => if res.contains_key(id) {
            let c = res[id];
            Ok((value_at(cells, c), if cells[c as int] is Str { cells.update(c as int, CellV::Str(t)) } else { cells }))
        } else {
            Err(DeserializeError::MissingShell(id))
        },
        SerV::DefArray(id, xs) => if res.contains_key(id) {
            let c = res[id];
            match populate_list(cells, res, xs, 0) {
                Err(e) => Err(e),
                Ok((vs, cells2)) => Ok((
                    value_at(cells, c),
                    if cells2[c as int] is Array { cells2.update(c as int, CellV::Array(vs)) } else { cells2 },
                )),
            }
        } else {
            Err(DeserializeError::MissingShell(id))
        },
        SerV::DefObject(id, _, xs) => if res.contains_key(id) {
            let c = res[id];
            match populate_list(cells, res, xs, 0) {
                Err(e) => Err(e),
                Ok((vs, cells2)) => Ok((
                    value_at(cells, c),
                    match cells2[c as int] {
                        CellV::Object(n, _) => cells2.update(c as int, CellV::Object(n, vs)),
                        _ => cells2,
                    },
                )),
            }
        } else {
            Err(DeserializeError::MissingShell(id))
        },
    }
}

pub open spec fn populate_list(cells: Seq<CellV>, res: Map<u32, usize>, xs: Seq<SerV>, i: int) -> Result<
    (Seq<ValueV>, Seq<CellV>),
    DeserializeError,
>
    decreases xs, xs.len() - i,
{
    if i < 0 || i >= xs.len() {
        Ok((Seq::empty(), cells))
    } else {
        match populate(cells, res, xs[i]) {
            Err(e) => Err(e),
            Ok((v, c1)) => match populate_list(c1, res, xs, i + 1) {
                Err(e) => Err(e),
                Ok((vs, c2)) => Ok((seq![v] + vs, c2)),
            },
        }
    }
}

/// What deserializing `x` gives: the value and the heap after both passes.
pub open spec fn deserialized(
    cells: Seq<CellV>,
    res: Map<u32, usize>,
    classes: Seq<Seq<char>>,
    x: SerV,
) -> Result<(ValueV, Seq<CellV>), DeserializeError> {
    match shells(cells, res, classes, x) {
        Err(e) => Err(e),
        Ok((c1, r1)) => populate(c1, r1, x),
    }
}

/// Every id is given a cell of the heap.
pub open spec fn resolved_ok(res: Map<u32, usize>, n: int) -> bool {
    forall|id: u32| #[trigger] res.contains_key(id) ==> res[id] < n
}

pub(crate) fn integer_text_valid(t: &String) -> (r: bool)
    ensures
        r == integer_text_ok(t@),
{
    let c = crate::text::chars_of(t.as_str());
    let n = c.len();
    let start: usize = if n > 0 && c[0] == '-' { 1 } else { 0 };
    let ghost d = integer_digits(t@);
    assert(d =~= c@.subrange(start as int, n as int));
    if start >= n {
        return false;
    }
    let mut i = start;
    while i < n
        invariant
            start <= i <= n,
            n == c@.len(),
            d == integer_digits(t@),
            d == c@.subrange(start as int, n as int),
            forall|k: int| start <= k < i ==> '0' <= #[trigger] c@[k] <= '9',
        decreases n - i,
    {
        let ch = c[i];
        if !('0' <= ch && ch <= '9') {
            proof {
                let k = i - start;
                assert(d[k] == ch);
                assert(integer_digits(t@)[k] == ch);
                assert(!integer_text_ok(t@));
            }
            return false;
        }
        i = i + 1;
    }
    assert forall|k: int| 0 <= k < d.len() implies '0' <= #[trigger] d[k] <= '9' by {
        assert(d[k] == c@[k + start]);
    }
    true
}

fn nil_values(n: usize) -> (r: Vec<Value>)
    ensures
        values_view(r@) == nils(n as nat),
{
    let mut v: Vec<Value> = Vec::new();
    let mut i: usize = 0;
    while i < n
        invariant
            i <= n,
            values_view(v@) =~= nils(i as nat),
        decreases n - i,
    {
        let ghost before = v@;
        v.push(Value::Nil);
        assert(values_view(v@) =~= values_view(before).push(ValueV::Nil));
        assert(nils((i + 1) as nat) =~= nils(i as nat).push(ValueV::Nil));
        i = i + 1;
    }
    v
}

/// The value that refers to cell `c`.
fn value_at_cell(heap: &Heap, c: usize) -> (r: Value)
    requires
        c < heap@.len(),
    ensures
        r@ == value_at(heap@, c),
{
    proof {
        assert(heap@[c as int] == heap.cells@[c as int]@);
    }
    match &heap.cells[c] {
        HeapCell::Str(_) => Value::String(c),
        HeapCell::Array(_) => Value::Array(c),
        HeapCell::Object { .. } => Value::Object(c),
    }
}

/// Turns serialized values back into values of a heap, in two passes: the
/// first makes an empty cell for each definition, the second fills them.
pub struct SomDeserializer {
    classes: Vec<String>,
    resolved_pointers: HashMap<u32, usize>,
}

impl SomDeserializer {
    /// The cell made for each id.
    pub closed spec fn resolved(&self) -> Map<u32, usize> {
        self.resolved_pointers@
    }

    /// The classes whose objects can be made.
    pub closed spec fn class_names(&self) -> Seq<Seq<char>> {
        crate::text::strings_view(self.classes@)
    }

    /// A deserializer that can make objects of the classes named in `classes`.
    pub fn new(classes: Vec<String>) -> (d: Self)
        ensures
            d.resolved() == Map::<u32, usize>::empty(),
            d.class_names() == crate::text::strings_view(classes@),
    {
        SomDeserializer { classes, resolved_pointers: HashMap::new() }
    }

    /// The value that `ir` stands for, built in `heap`.
    pub fn deserialize(&mut self, heap: &mut Heap, ir: &SerializedValue) -> (r: Result<Value, DeserializeError>)
        requires
            resolved_ok(old(self).resolved(), old(heap)@.len() as int),
        ensures
            resolved_ok(final(self).resolved(), final(heap)@.len() as int),
            final(self).class_names() == old(self).class_names(),
            match r {
                Ok(v) => deserialized(old(heap)@, old(self).resolved(), old(self).class_names(), ser_view(*ir))
                    == Ok::<(ValueV, Seq<CellV>), DeserializeError>((v@, final(heap)@)),
                Err(e) => deserialized(old(heap)@, old(self).resolved(), old(self).class_names(), ser_view(*ir))
                    == Err::<(ValueV, Seq<CellV>), DeserializeError>(e),
            },
    {
        match self.instantiate_shells(heap, ir) {
            Err(e) => Err(e),
            Ok(()) => self.populate_content(heap, ir),
        }
    }

    fn instantiate_shells(&mut self, heap: &mut Heap, ir: &SerializedValue) -> (r: Result<(), DeserializeError>)
        requires
            resolved_ok(old(self).resolved(), old(heap)@.len() as int),
        ensures
            resolved_ok(final(self).resolved(), final(heap)@.len() as int),
            final(self).class_names() == old(self).class_names(),
            old(heap)@.len() <= final(heap)@.len(),
            match r {
                Ok(()) => shells(old(heap)@, old(self).resolved(), old(self).class_names(), ser_view(*ir)) == Ok::<
                    (Seq<CellV>, Map<u32, usize>),
                    DeserializeError,
                >((final(heap)@, final(self).resolved())),
                Err(e) => shells(old(heap)@, old(self).resolved(), old(self).class_names(), ser_view(*ir)) == Err::<
                    (Seq<CellV>, Map<u32, usize>),
                    DeserializeError,
                >(e),
            },
        decreases ir, 0int,
    {
        match ir {
            SerializedValue::DefString { id, value: _ } => {
                let c = heap.cells.len();
                let ghost before = heap@;
                heap.cells.push(HeapCell::Str(String::new()));
                assert(heap@ =~= before.push(CellV::Str(Seq::empty())));
                self.resolved_pointers.insert(*id, c);
                Ok(())
            },
            SerializedValue::DefArray { id, elements } => {
                let c = heap.cells.len();
                let ghost before = heap@;
                let shell = nil_values(elements.len());
                heap.cells.push(HeapCell::Array(shell));
                assert(heap@ =~= before.push(CellV::Array(nils(elements@.len()))));
                self.resolved_pointers.insert(*id, c);
                proof {
                    assert(sers_view(elements@).len() == elements@.len()) by {
                        lemma_sers_view_len(elements@);
                    }
                }
                self.shells_of_all(heap, elements)
            },
            SerializedValue::DefObject { id, class_name, fields } => {
                if !crate::text::contains_string(&self.classes, class_name) {
                    return Err(DeserializeError::UnknownClass);
                }
                let c = heap.cells.len();
                let ghost before = heap@;
                let shell = nil_values(fields.len());
                heap.cells.push(HeapCell::Object { class_name: class_name.clone(), fields: shell });
                assert(heap@ =~= before.push(CellV::Object(class_name@, nils(fields@.len()))));
                self.resolved_pointers.insert(*id, c);
                proof {
                    assert(sers_view(fields@).len() == fields@.len()) by {
                        lemma_sers_view_len(fields@);
                    }
                }
                self.shells_of_all(heap, fields)
            },
            _ => Ok(()),
        }
    }

    fn shells_of_all(&mut self, heap: &mut Heap, xs: &Vec<SerializedValue>) -> (r: Result<(), DeserializeError>)
        requires
            resolved_ok(old(self).resolved(), old(heap)@.len() as int),
        ensures
            resolved_ok(final(self).resolved(), final(heap)@.len() as int),
            final(self).class_names() == old(self).class_names(),
            old(heap)@.len() <= final(heap)@.len(),
            match r {
                Ok(()) => shells_list(old(heap)@, old(self).resolved(), old(self).class_names(), sers_view(xs@), 0)
                    == Ok::<(Seq<CellV>, Map<u32, usize>), DeserializeError>((final(heap)@, final(self).resolved())),
                Err(e) => shells_list(old(heap)@, old(self).resolved(), old(self).class_names(), sers_view(xs@), 0)
                    == Err::<(Seq<CellV>, Map<u32, usize>), DeserializeError>(e),
            },
        decreases xs, 1int,
    {
        let ghost xv = sers_view(xs@);
        proof {
            lemma_sers_view_len(xs@);
        }
        let mut i: usize = 0;
        while i < xs.len()
            invariant
                i <= xs.len(),
                xv == sers_view(xs@),
                xv.len() == xs@.len(),
                resolved_ok(self.resolved(), heap@.len() as int),
                self.class_names() == old(self).class_names(),
                old(heap)@.len() <= heap@.len(),
                shells_list(old(heap)@, old(self).resolved(), self.class_names(), xv, 0) == shells_list(
                    heap@,
                    self.resolved(),
                    self.class_names(),
                    xv,
                    i as int,
                ),
            decreases xs.len() - i,
        {
            proof {
                lemma_sers_view_index(xs@, i as int);
                assert(decreases_to!(xs => xs@[i as int]));
            }
            match self.instantiate_shells(heap, &xs[i]) {
                Err(e) => {
                    return Err(e);
                },
                Ok(()) => {},
            }
            i = i + 1;
        }
        Ok(())
    }

    fn populate_content(&self, heap: &mut Heap, ir: &SerializedValue) -> (r: Result<Value, DeserializeError>)
        requires
            resolved_ok(self.resolved(), old(heap)@.len() as int),
        ensures
            old(heap)@.len() <= final(heap)@.len(),
            match r {
                Ok(v) => populate(old(heap)@, self.resolved(), ser_view(*ir)) == Ok::<(ValueV, Seq<CellV>), DeserializeError>(
                    (v@, final(heap)@),
                ),
                Err(e) => populate(old(heap)@, self.resolved(), ser_view(*ir)) == Err::<
                    (ValueV, Seq<CellV>),
                    DeserializeError,
                >(e),
            },
        decreases ir, 0int,
    {
        match ir {
            SerializedValue::Nil => Ok(Value::Nil),
            SerializedValue::Boolean(b) => Ok(Value::Boolean(*b)),
            SerializedValue::Integer(t) => {
                if integer_text_valid(t) {
                    Ok(Value::Integer(crate::compiler::canonical_integer_text(t)))
                } else {
                    Err(DeserializeError::InvalidInteger)
                }
            },
            SerializedValue::Double(d) => Ok(Value::Double(*d)),
            SerializedValue::Symbol(t) => Ok(Value::Symbol(t.clone())),
            SerializedValue::Unsupported(m) => {
                let mut text = String::from_str("Unsupported: ");
                text.append(m.as_str());
                let c = heap.cells.len();
                let ghost before = heap@;
                heap.cells.push(HeapCell::Str(text));
                assert(heap@ =~= before.push(CellV::Str("Unsupported: "@ + m@)));
                Ok(Value::String(c))
            },
            SerializedValue::Ref(id) => match self.resolved_pointers.get(id) {
                Some(c) => Ok(value_at_cell(heap, *c)),
                None => Err(DeserializeError::UnresolvedReference(*id)),
            },
            SerializedValue::DefString { id, value } => match self.resolved_pointers.get(id) {
                None => Err(DeserializeError::MissingShell(*id)),
                Some(c) => {
                    let c = *c;
                    let v = value_at_cell(heap, c);
                    let is_str = match &heap.cells[c] {
                        HeapCell::Str(_) => true,
                        _ => false,
                    };
                    proof {
                        assert(heap@[c as int] == heap.cells@[c as int]@);
                    }
                    if is_str {
                        let ghost before = heap@;
                        heap.cells.set(c, HeapCell::Str(value.clone()));
                        assert(heap@ =~= before.update(c as int, CellV::Str(value@)));
                    }
                    Ok(v)
                },
            },
            SerializedValue::DefArray { id, elements } => match self.resolved_pointers.get(id) {
                None => Err(DeserializeError::MissingShell(*id)),
                Some(c) => {
                    let c = *c;
                    let v = value_at_cell(heap, c);
                    match self.populate_all(heap, elements) {
                        Err(e) => Err(e),
                        Ok(vs) => {
                            let is_array = match &heap.cells[c] {
                                HeapCell::Array(_) => true,
                                _ => false,
                            };
                            proof {
                                assert(heap@[c as int] == heap.cells@[c as int]@);
                            }
                            if is_array {
                                let ghost before = heap@;
                                let ghost vv = values_view(vs@);
                                heap.cells.set(c, HeapCell::Array(vs));
                                assert(heap@ =~= before.update(c as int, CellV::Array(vv)));
                            }
                            Ok(v)
                        },
                    }
                },
            },
            SerializedValue::DefObject { id, class_name: _, fields } => match self.resolved_pointers.get(id) {
                None => Err(DeserializeError::MissingShell(*id)),
                Some(c) => {
                    let c = *c;
                    let v = value_at_cell(heap, c);
                    match self.populate_all(heap, fields) {
                        Err(e) => Err(e),
                        Ok(vs) => {
                            let name = match &heap.cells[c] {
                                HeapCell::Object { class_name, .. } => Some(class_name.clone()),
                                _ => None,
                            };
                            proof {
                                assert(heap@[c as int] == heap.cells@[c as int]@);
                            }
                            match name {
                                Some(n) => {
                                    let ghost before = heap@;
                                    let ghost vv = values_view(vs@);
                                    let ghost nv = n@;
                                    heap.cells.set(c, HeapCell::Object { class_name: n, fields: vs });
                                    assert(heap@ =~= before.update(c as int, CellV::Object(nv, vv)));
                                },
                                None => {},
                            }
                            Ok(v)
                        },
                    }
                },
            },
        }
    }

    fn populate_all(&self, heap: &mut Heap, xs: &Vec<SerializedValue>) -> (r: Result<Vec<Value>, DeserializeError>)
        requires
            resolved_ok(self.resolved(), old(heap)@.len() as int),
        ensures
            old(heap)@.len() <= final(heap)@.len(),
            match r {
                Ok(vs) => populate_list(old(heap)@, self.resolved(), sers_view(xs@), 0) == Ok::<
                    (Seq<ValueV>, Seq<CellV>),
                    DeserializeError,
                >((values_view(vs@), final(heap)@)),
                Err(e) => populate_list(old(heap)@, self.resolved(), sers_view(xs@), 0) == Err::<
                    (Seq<ValueV>, Seq<CellV>),
                    DeserializeError,
                >(e),
            },
        decreases xs, 1int,
    {
        let ghost xv = sers_view(xs@);
        proof {
            lemma_sers_view_len(xs@);
        }
        let mut out: Vec<Value> = Vec::new();
        let mut i: usize = 0;
        while i < xs.len()
            invariant
                i <= xs.len(),
                xv == sers_view(xs@),
                xv.len() == xs@.len(),
                resolved_ok(self.resolved(), heap@.len() as int),
                old(heap)@.len() <= heap@.len(),
                match populate_list(heap@, self.resolved(), xv, i as int) {
                    Ok((vs, c2)) => populate_list(old(heap)@, self.resolved(), xv, 0) == Ok::<
                        (Seq<ValueV>, Seq<CellV>),
                        DeserializeError,
                    >((values_view(out@) + vs, c2)),
                    Err(e) => populate_list(old(heap)@, self.resolved(), xv, 0) == Err::<
                        (Seq<ValueV>, Seq<CellV>),
                        DeserializeError,
                    >(e),
                },
            decreases xs.len() - i,
        {
            proof {
                lemma_sers_view_index(xs@, i as int);
                assert(decreases_to!(xs => xs@[i as int]));
            }
            let ghost cur = heap@;
            match self.populate_content(heap, &xs[i]) {
                Err(e) => {
                    return Err(e);
                },
                Ok(v) => {
                    proof {
                        match populate_list(heap@, self.resolved(), xv, i + 1) {
                            Ok((vs, c2)) => {
                                assert(values_view(out@.push(v)) =~= values_view(out@).push(v@));
                                assert(values_view(out@) + (seq![v@] + vs) =~= values_view(out@.push(v)) + vs);
                            },
                            Err(_) => {},
                        }
                    }
                    out.push(v);
                },
            }
            i = i + 1;
        }
        proof {
            assert(values_view(out@) + Seq::<ValueV>::empty() =~= values_view(out@));
        }
        Ok(out)
    }
}

pub proof fn lemma_sers_view_len(s: Seq<SerializedValue>)
    ensures
        sers_view(s).len() == s.len(),
    decreases s.len(),
{
    if s.len() > 0 {
        lemma_sers_view_len(s.drop_last());
    }
}

pub proof fn lemma_sers_view_index(s: Seq<SerializedValue>, i: int)
    requires
        0 <= i < s.len(),
    ensures
        sers_view(s)[i] == ser_view(s[i]),
    decreases s.len(),
{
    lemma_sers_view_len(s);
    if i < s.len() - 1 {
        lemma_sers_view_index(s.drop_last(), i);
        lemma_sers_view_len(s.drop_last());
    }
}

} // verus!

use vstd::prelude::*;
use crate::compiler::canonical_integer;
use crate::object::{CellV, ValueV, cell_values, heap_ok, value_ok};
use crate::serialize::{
    DeserializeError, SerState, SerV, deserialized, extends, integer_text_ok,
    lemma_extends_trans, lemma_unseen_grow, populate, populate_list, shells, shells_list,
    lemma_unseen_empty, lemma_unseen_insert, lemma_unseen_positive, mark, nils, ser, ser_list, state_ok,
    unseen_count,
};

verus! {

// ---------------------------------------------------------------------------
// What serialization defines, in order
// ---------------------------------------------------------------------------

/// The cells that serializing `v` gives ids to, in the order it does.
pub open spec fn ser_cells(cells: Seq<CellV>, st: SerState, v: ValueV, fuel: nat) -> Seq<usize>
    decreases fuel, 0nat, 0int,
{
    match v {
        ValueV::String(c) => if st.seen.contains_key(c) {
            Seq::empty()
        } else {
            seq![c]
        },
        ValueV::Array(c) => if st.seen.contains_key(c) || fuel == 0 {
            Seq::empty()
        } else {
            seq![c] + ser_cells_list(cells, mark(st, c), cell_values(cells[c as int]), 0, (fuel - 1) as nat)
        },
        ValueV::Object(c) => if st.seen.contains_key(c) || fuel == 0 {
            Seq::empty()
        } else {
            seq![c] + ser_cells_list(cells, mark(st, c), cell_values(cells[c as int]), 0, (fuel - 1) as nat)
        },
        _ => Seq::empty(),
    }
}

pub open spec fn ser_cells_list(cells: Seq<CellV>, st: SerState, vs: Seq<ValueV>, i: int, fuel: nat) -> Seq<
    usize,
>
    decreases fuel, 1nat, vs.len() - i,
{
    if i < 0 || i >= vs.len() {
        Seq::empty()
    } else {
        let (_, st1) = ser(cells, st, vs[i], fuel);
        ser_cells(cells, st, vs[i], fuel) + ser_cells_list(cells, st1, vs, i + 1, fuel)
    }
}

/// The ids of the definitions in `x`, in the order they come.
pub open spec fn def_ids(x: SerV) -> Seq<u32>
    decreases x, 1int,
{
    match x {
        SerV::DefString(id, _) => seq![id],
        SerV::DefArray(id, xs) => seq![id] + def_ids_seq(xs),
        SerV::DefObject(id, _, xs) => seq![id] + def_ids_seq(xs),
        _ => Seq::empty(),
    }
}

pub open spec fn def_ids_seq(xs: Seq<SerV>) -> Seq<u32>
    decreases xs, 0int,
{
    if xs.len() == 0 {
        Seq::empty()
    } else {
        proof {
            assert(decreases_to!(xs => xs.subrange(1, xs.len() as int)));
        }
        def_ids(xs[0]) + def_ids_seq(xs.subrange(1, xs.len() as int))
    }
}

/// The empty cell that the first pass of deserialization makes for a cell.
pub open spec fn shell_of(cell: CellV) -> CellV {
    match cell {
        CellV::Str(_) => CellV::Str(Seq::empty()),
        CellV::Array(vs) => CellV::Array(nils(vs.len())),
        CellV::Object(n, vs) => CellV::Object(n, nils(vs.len())),
    }
}

/// The cells that the first pass makes for the definitions of `x`, in order.
pub open spec fn shells_made(x: SerV) -> Seq<CellV>
    decreases x, 1int,
{
    match x {
        SerV::DefString(_, _) => seq![CellV::Str(Seq::empty())],
        SerV::DefArray(_, xs) => seq![CellV::Array(nils(xs.len()))] + shells_made_seq(xs),
        SerV::DefObject(_, n, xs) => seq![CellV::Object(n, nils(xs.len()))] + shells_made_seq(xs),
        _ => Seq::empty(),
    }
}

pub open spec fn shells_made_seq(xs: Seq<SerV>) -> Seq<CellV>
    decreases xs, 0int,
{
    if xs.len() == 0 {
        Seq::empty()
    } else {
        proof {
            assert(decreases_to!(xs => xs.subrange(1, xs.len() as int)));
        }
        shells_made(xs[0]) + shells_made_seq(xs.subrange(1, xs.len() as int))
    }
}

pub open spec fn ids_from(first: u32, n: nat) -> Seq<u32> {
    Seq::new(n, |k: int| (first + k) as u32)
}

pub open spec fn shells_of_cells(cells: Seq<CellV>, cs: Seq<usize>) -> Seq<CellV> {
    cs.map_values(|c: usize| shell_of(cells[c as int]))
}

proof fn lemma_seq_cons<A>(x: A, rest: Seq<A>)
    ensures
        (seq![x] + rest)[0] == x,
        (seq![x] + rest).subrange(1, (seq![x] + rest).len() as int) == rest,
{
    assert((seq![x] + rest).subrange(1, (seq![x] + rest).len() as int) =~= rest);
}

/// What serializing `v` does to the serializer's memory, and what it defines.
pub proof fn lemma_ser_facts(cells: Seq<CellV>, st: SerState, v: ValueV, fuel: nat)
    requires
        heap_ok(cells),
        value_ok(cells, v),
        state_ok(st, cells),
        unseen_count(st.seen, cells.len() as int) <= fuel,
        cells.len() <= u32::MAX,
    ensures
        ({
            let (x, st2) = ser(cells, st, v, fuel);
            let cs = ser_cells(cells, st, v, fuel);
            &&& state_ok(st2, cells)
            &&& extends(st, st2)
            &&& unseen_count(st2.seen, cells.len() as int) <= unseen_count(st.seen, cells.len() as int)
            &&& st2.next == st.next + cs.len()
            &&& forall|k: int|
                0 <= k < cs.len() ==> !st.seen.contains_key(#[trigger] cs[k]) && st2.seen.contains_key(cs[k])
                    && st2.seen[cs[k]] == st.next + k
            &&& def_ids(x) == ids_from(st.next, cs.len())
            &&& shells_made(x) == shells_of_cells(cells, cs)
        }),
    decreases fuel, 0nat, 0int,
{
    let n = cells.len() as int;
    match v {
        ValueV::String(c) => {
            if !st.seen.contains_key(c) {
                lemma_unseen_positive(st.seen, n, c);
                lemma_unseen_insert(st.seen, n, c, st.next);
                let st2 = mark(st, c);
                let (x, _) = ser(cells, st, v, fuel);
                assert(def_ids(x) =~= ids_from(st.next, 1));
                assert(shells_of_cells(cells, seq![c]) =~= seq![shell_of(cells[c as int])]);
                assert(shells_made(x) =~= shells_of_cells(cells, seq![c]));
                assert(state_ok(st2, cells));
                assert(extends(st, st2));
                let cs = seq![c];
                assert(ser_cells(cells, st, v, fuel) == cs);
                assert forall|k: int|
                    0 <= k < cs.len() implies !st.seen.contains_key(#[trigger] cs[k]) && st2.seen.contains_key(cs[k])
                        && st2.seen[cs[k]] == st.next + k by {
                    assert(cs[0] == c);
                }
                assert(shells_made(x) == shells_of_cells(cells, cs));
            } else {
                let (x, _) = ser(cells, st, v, fuel);
                assert(ids_from(st.next, 0) =~= Seq::<u32>::empty());
                assert(shells_of_cells(cells, Seq::empty()) =~= Seq::<CellV>::empty());
                assert(shells_made(x) =~= Seq::<CellV>::empty());
                assert(def_ids(x) =~= Seq::<u32>::empty());
            }
        },
        ValueV::Array(c) => {
            if !st.seen.contains_key(c) && fuel > 0 {
                lemma_unseen_positive(st.seen, n, c);
                lemma_unseen_insert(st.seen, n, c, st.next);
                let st1 = mark(st, c);
                assert(state_ok(st1, cells));
                let vs = cell_values(cells[c as int]);
                assert forall|i: int| 0 <= i < vs.len() implies value_ok(cells, #[trigger] vs[i]) by {}
                lemma_ser_list_facts(cells, st1, vs, 0, (fuel - 1) as nat);
                let (xs, st2) = ser_list(cells, st1, vs, 0, (fuel - 1) as nat);
                let rest = ser_cells_list(cells, st1, vs, 0, (fuel - 1) as nat);
                let cs = seq![c] + rest;
                assert(extends(st, st1));
                lemma_extends_trans(st, st1, st2);
                assert forall|k: int|
                    0 <= k < cs.len() implies !st.seen.contains_key(#[trigger] cs[k]) && st2.seen.contains_key(cs[k])
                        && st2.seen[cs[k]] == st.next + k by {
                    if k == 0 {
                        assert(cs[0] == c);
                        assert(st1.seen.contains_key(c));
                    } else {
                        assert(cs[k] == rest[k - 1]);
                        assert(!st1.seen.contains_key(rest[k - 1]));
                    }
                }
                assert(ids_from(st.next, cs.len()) =~= seq![st.next] + ids_from(st1.next, rest.len()));
                assert(shells_of_cells(cells, cs) =~= seq![shell_of(cells[c as int])] + shells_of_cells(cells, rest));
                let (x, _) = ser(cells, st, v, fuel);
                assert(xs.len() == vs.len());
                assert(shells_made(x) == shells_of_cells(cells, cs));
            } else {
                let (x, _) = ser(cells, st, v, fuel);
                assert(ids_from(st.next, 0) =~= Seq::<u32>::empty());
                assert(shells_of_cells(cells, Seq::empty()) =~= Seq::<CellV>::empty());
                assert(shells_made(x) =~= Seq::<CellV>::empty());
                assert(def_ids(x) =~= Seq::<u32>::empty());
            }
        },
        ValueV::Object(c) => {
            if !st.seen.contains_key(c) && fuel > 0 {
                lemma_unseen_positive(st.seen, n, c);
                lemma_unseen_insert(st.seen, n, c, st.next);
                let st1 = mark(st, c);
                assert(state_ok(st1, cells));
                let vs = cell_values(cells[c as int]);
                assert forall|i: int| 0 <= i < vs.len() implies value_ok(cells, #[trigger] vs[i]) by {}
                lemma_ser_list_facts(cells, st1, vs, 0, (fuel - 1) as nat);
                let (xs, st2) = ser_list(cells, st1, vs, 0, (fuel - 1) as nat);
                let rest = ser_cells_list(cells, st1, vs, 0, (fuel - 1) as nat);
                let cs = seq![c] + rest;
                assert(extends(st, st1));
                lemma_extends_trans(st, st1, st2);
                assert forall|k: int|
                    0 <= k < cs.len() implies !st.seen.contains_key(#[trigger] cs[k]) && st2.seen.contains_key(cs[k])
                        && st2.seen[cs[k]] == st.next + k by {
                    if k == 0 {
                        assert(cs[0] == c);
                        assert(st1.seen.contains_key(c));
                    } else {
                        assert(cs[k] == rest[k - 1]);
                        assert(!st1.seen.contains_key(rest[k - 1]));
                    }
                }
                assert(ids_from(st.next, cs.len()) =~= seq![st.next] + ids_from(st1.next, rest.len()));
                assert(shells_of_cells(cells, cs) =~= seq![shell_of(cells[c as int])] + shells_of_cells(cells, rest));
                let (x, _) = ser(cells, st, v, fuel);
                assert(xs.len() == vs.len());
                assert(shells_made(x) == shells_of_cells(cells, cs));
            } else {
                let (x, _) = ser(cells, st, v, fuel);
                assert(ids_from(st.next, 0) =~= Seq::<u32>::empty());
                assert(shells_of_cells(cells, Seq::empty()) =~= Seq::<CellV>::empty());
                assert(shells_made(x) =~= Seq::<CellV>::empty());
                assert(def_ids(x) =~= Seq::<u32>::empty());
            }
        },
        _ => {
            let (x, _) = ser(cells, st, v, fuel);
            assert(ids_from(st.next, 0) =~= Seq::<u32>::empty());
            assert(shells_of_cells(cells, Seq::empty()) =~= Seq::<CellV>::empty());
            assert(shells_made(x) =~= Seq::<CellV>::empty());
            assert(def_ids(x) =~= Seq::<u32>::empty());
        },
    }
}

pub proof fn lemma_ser_list_facts(cells: Seq<CellV>, st: SerState, vs: Seq<ValueV>, i: int, fuel: nat)
    requires
        heap_ok(cells),
        forall|j: int| 0 <= j < vs.len() ==> value_ok(cells, #[trigger] vs[j]),
        state_ok(st, cells),
        unseen_count(st.seen, cells.len() as int) <= fuel,
        cells.len() <= u32::MAX,
        0 <= i,
    ensures
        ({
            let (xs, st2) = ser_list(cells, st, vs, i, fuel);
            let cs = ser_cells_list(cells, st, vs, i, fuel);
            &&& state_ok(st2, cells)
            &&& extends(st, st2)
            &&& unseen_count(st2.seen, cells.len() as int) <= unseen_count(st.seen, cells.len() as int)
            &&& st2.next == st.next + cs.len()
            &&& forall|k: int|
                0 <= k < cs.len() ==> !st.seen.contains_key(#[trigger] cs[k]) && st2.seen.contains_key(cs[k])
                    && st2.seen[cs[k]] == st.next + k
            &&& def_ids_seq(xs) == ids_from(st.next, cs.len())
            &&& shells_made_seq(xs) == shells_of_cells(cells, cs)
            &&& xs.len() == if i < vs.len() { vs.len() - i } else { 0 }
        }),
    decreases fuel, 1nat, vs.len() - i,
{
    if i >= vs.len() {
        assert(ids_from(st.next, 0) =~= Seq::<u32>::empty());
        assert(shells_of_cells(cells, Seq::empty()) =~= Seq::<CellV>::empty());
    } else {
        lemma_ser_facts(cells, st, vs[i], fuel);
        let (x, st1) = ser(cells, st, vs[i], fuel);
        let c1 = ser_cells(cells, st, vs[i], fuel);
        lemma_ser_list_facts(cells, st1, vs, i + 1, fuel);
        let (rest, st2) = ser_list(cells, st1, vs, i + 1, fuel);
        let c2 = ser_cells_list(cells, st1, vs, i + 1, fuel);
        let cs = c1 + c2;
        lemma_extends_trans(st, st1, st2);
        lemma_seq_cons(x, rest);
        assert forall|k: int|
            0 <= k < cs.len() implies !st.seen.contains_key(#[trigger] cs[k]) && st2.seen.contains_key(cs[k])
                && st2.seen[cs[k]] == st.next + k by {
            if k < c1.len() {
                assert(cs[k] == c1[k]);
                assert(st1.seen.contains_key(c1[k]));
            } else {
                assert(cs[k] == c2[k - c1.len()]);
                assert(!st1.seen.contains_key(c2[k - c1.len()]));
            }
        }
        assert(ids_from(st.next, cs.len()) =~= ids_from(st.next, c1.len()) + ids_from(st1.next, c2.len()));
        assert(shells_of_cells(cells, cs) =~= shells_of_cells(cells, c1) + shells_of_cells(cells, c2));
    }
}

// ---------------------------------------------------------------------------
// The first pass of deserialization
// ---------------------------------------------------------------------------

/// `res` where each of `ids` in turn is given the next cell from `base` on.
pub open spec fn assign(res: Map<u32, usize>, ids: Seq<u32>, base: int) -> Map<u32, usize>
    decreases ids.len(),
{
    if ids.len() == 0 {
        res
    } else {
        assign(res.insert(ids[0], base as usize), ids.subrange(1, ids.len() as int), base + 1)
    }
}

proof fn lemma_assign_concat(res: Map<u32, usize>, a: Seq<u32>, b: Seq<u32>, base: int)
    ensures
        assign(res, a + b, base) == assign(assign(res, a, base), b, base + a.len()),
    decreases a.len(),
{
    if a.len() == 0 {
        assert(a + b =~= b);
    } else {
        assert((a + b)[0] == a[0]);
        assert((a + b).subrange(1, (a + b).len() as int) =~= a.subrange(1, a.len() as int) + b);
        lemma_assign_concat(res.insert(a[0], base as usize), a.subrange(1, a.len() as int), b, base + 1);
    }
}

/// Every object defined in `x` is of a class of `classes`.
pub open spec fn classes_known(classes: Seq<Seq<char>>, x: SerV) -> bool
    decreases x, 1int,
{
    match x {
        SerV::DefArray(_, xs) => classes_known_seq(classes, xs),
        SerV::DefObject(_, n, xs) => classes.contains(n) && classes_known_seq(classes, xs),
        _ => true,
    }
}

pub open spec fn classes_known_seq(classes: Seq<Seq<char>>, xs: Seq<SerV>) -> bool
    decreases xs, 0int,
{
    if xs.len() == 0 {
        true
    } else {
        proof {
            assert(decreases_to!(xs => xs.subrange(1, xs.len() as int)));
        }
        classes_known(classes, xs[0]) && classes_known_seq(classes, xs.subrange(1, xs.len() as int))
    }
}

proof fn lemma_made_len(x: SerV)
    ensures
        shells_made(x).len() == def_ids(x).len(),
    decreases x, 1int,
{
    match x {
        SerV::DefArray(_, xs) => {
            lemma_made_len_seq(xs);
        },
        SerV::DefObject(_, _, xs) => {
            lemma_made_len_seq(xs);
        },
        _ => {},
    }
}

proof fn lemma_made_len_seq(xs: Seq<SerV>)
    ensures
        shells_made_seq(xs).len() == def_ids_seq(xs).len(),
    decreases xs, 0int,
{
    if xs.len() > 0 {
        assert(decreases_to!(xs => xs.subrange(1, xs.len() as int)));
        lemma_made_len(xs[0]);
        lemma_made_len_seq(xs.subrange(1, xs.len() as int));
    }
}

/// The first pass makes the shells of the definitions of `x`, in order, and
/// gives each id the cell made for it.
pub proof fn lemma_shells(cells: Seq<CellV>, res: Map<u32, usize>, classes: Seq<Seq<char>>, x: SerV)
    requires
        classes_known(classes, x),
    ensures
        shells(cells, res, classes, x) == Ok::<(Seq<CellV>, Map<u32, usize>), DeserializeError>(
            (cells + shells_made(x), assign(res, def_ids(x), cells.len() as int)),
        ),
    decreases x, 1int,
{
    match x {
        SerV::DefString(id, _) => {
            assert(cells + shells_made(x) =~= cells.push(CellV::Str(Seq::empty())));
            assert(def_ids(x).subrange(1, 1) =~= Seq::<u32>::empty());
            reveal_with_fuel(assign, 2);
        },
        SerV::DefArray(id, xs) => {
            let shell = CellV::Array(nils(xs.len()));
            assert(xs.subrange(0, xs.len() as int) =~= xs);
            lemma_shells_list(cells.push(shell), res.insert(id, cells.len() as usize), classes, xs, 0);
            assert(cells.push(shell) + shells_made_seq(xs) =~= cells + shells_made(x));
            assert(def_ids(x)[0] == id);
            assert(def_ids(x).subrange(1, def_ids(x).len() as int) =~= def_ids_seq(xs));
        },
        SerV::DefObject(id, n, xs) => {
            let shell = CellV::Object(n, nils(xs.len()));
            assert(xs.subrange(0, xs.len() as int) =~= xs);
            lemma_shells_list(cells.push(shell), res.insert(id, cells.len() as usize), classes, xs, 0);
            assert(cells.push(shell) + shells_made_seq(xs) =~= cells + shells_made(x));
            assert(def_ids(x)[0] == id);
            assert(def_ids(x).subrange(1, def_ids(x).len() as int) =~= def_ids_seq(xs));
        },
        _ => {
            assert(cells + shells_made(x) =~= cells);
        },
    }
}

pub proof fn lemma_shells_list(
    cells: Seq<CellV>,
    res: Map<u32, usize>,
    classes: Seq<Seq<char>>,
    xs: Seq<SerV>,
    i: int,
)
    requires
        0 <= i <= xs.len(),
        classes_known_seq(classes, xs.subrange(i, xs.len() as int)),
    ensures
        shells_list(cells, res, classes, xs, i) == Ok::<(Seq<CellV>, Map<u32, usize>), DeserializeError>(
            (
                cells + shells_made_seq(xs.subrange(i, xs.len() as int)),
                assign(res, def_ids_seq(xs.subrange(i, xs.len() as int)), cells.len() as int),
            ),
        ),
    decreases xs, xs.len() - i,
{
    let tail = xs.subrange(i, xs.len() as int);
    if i == xs.len() {
        assert(cells + shells_made_seq(tail) =~= cells);
    } else {
        let next = xs.subrange(i + 1, xs.len() as int);
        assert(tail[0] == xs[i]);
        assert(tail.subrange(1, tail.len() as int) =~= next);
        assert(decreases_to!(xs => xs[i]));
        lemma_shells(cells, res, classes, xs[i]);
        let c1 = cells + shells_made(xs[i]);
        let r1 = assign(res, def_ids(xs[i]), cells.len() as int);
        lemma_shells_list(c1, r1, classes, xs, i + 1);
        lemma_made_len(xs[i]);
        lemma_assign_concat(res, def_ids(xs[i]), def_ids_seq(next), cells.len() as int);
        assert(c1 + shells_made_seq(next) =~= cells + shells_made_seq(tail));
    }
}

// ---------------------------------------------------------------------------
// The second pass of deserialization
// ---------------------------------------------------------------------------

/// A value of the source heap as it reads once the cells met have been copied,
/// the cell with id `k` to cell `base + k`.
pub open spec fn renamed(seen: Map<usize, u32>, base: int, v: ValueV) -> ValueV {
    match v {
        ValueV::String(c) => ValueV::String((base + seen[c]) as usize),
        ValueV::Array(c) => ValueV::Array((base + seen[c]) as usize),
        ValueV::Object(c) => ValueV::Object((base + seen[c]) as usize),
        _ => v,
    }
}

pub open spec fn renamed_values(seen: Map<usize, u32>, base: int, vs: Seq<ValueV>) -> Seq<ValueV> {
    vs.map_values(|v: ValueV| renamed(seen, base, v))
}

/// The copy of a cell, its values renamed.
pub open spec fn renamed_cell(seen: Map<usize, u32>, base: int, cell: CellV) -> CellV {
    match cell {
        CellV::Str(t) => CellV::Str(t),
        CellV::Array(vs) => CellV::Array(renamed_values(seen, base, vs)),
        CellV::Object(n, vs) => CellV::Object(n, renamed_values(seen, base, vs)),
    }
}

/// The kind of a cell, and the class of an object.
pub open spec fn shape(cell: CellV) -> (int, Seq<char>) {
    match cell {
        CellV::Str(_) => (0, Seq::empty()),
        CellV::Array(_) => (1, Seq::empty()),
        CellV::Object(n, _) => (2, n),
    }
}

/// `cur` with the cells of ids `lo .. hi` holding their copies.
pub open spec fn fill(
    cur: Seq<CellV>,
    cells: Seq<CellV>,
    seen: Map<usize, u32>,
    order: Seq<usize>,
    base: int,
    lo: int,
    hi: int,
) -> Seq<CellV> {
    Seq::new(
        cur.len(),
        |j: int|
            if base + lo <= j < base + hi {
                renamed_cell(seen, base, cells[order[j - base] as int])
            } else {
                cur[j]
            },
    )
}

/// A value that comes back unchanged from serialization: not a runtime value,
/// and an integer written canonically.
pub open spec fn plain(v: ValueV) -> bool {
    match v {
        ValueV::Class(_) | ValueV::Method(_) | ValueV::Block(_) | ValueV::Runtime => false,
        ValueV::Integer(t) => integer_text_ok(t) && canonical_integer(t) == t,
        _ => true,
    }
}

pub open spec fn plain_heap(cells: Seq<CellV>) -> bool {
    forall|c: int, i: int|
        0 <= c < cells.len() && 0 <= i < cell_values(cells[c]).len() ==> plain(#[trigger] cell_values(cells[c])[i])
}

/// The final memory `fin`, and the cells in the order of their ids.
pub open spec fn final_order(fin: SerState, order: Seq<usize>) -> bool {
    &&& order.len() == fin.next
    &&& forall|k: int| 0 <= k < order.len() ==> fin.seen.contains_key(#[trigger] order[k]) && fin.seen[order[k]] == k
}

/// Each id below `n` has the cell `base + id`, and no other id has one.
pub open spec fn id_cells(n: int, base: int) -> Map<u32, usize> {
    Map::new(|id: u32| id < n, |id: u32| (base + id) as usize)
}

/// `cur` holds, for each id, a cell of the same shape as the cell with that id.
pub open spec fn shapes_match(cur: Seq<CellV>, cells: Seq<CellV>, order: Seq<usize>, base: int) -> bool {
    &&& cur.len() == base + order.len()
    &&& forall|k: int| 0 <= k < order.len() ==> shape(#[trigger] cur[base + k]) == shape(cells[order[k] as int])
}

proof fn lemma_fill_shapes(cur: Seq<CellV>, cells: Seq<CellV>, seen: Map<usize, u32>, order: Seq<usize>, base: int, lo: int, hi: int)
    requires
        shapes_match(cur, cells, order, base),
        base >= 0,
    ensures
        shapes_match(fill(cur, cells, seen, order, base, lo, hi), cells, order, base),
{
    let f = fill(cur, cells, seen, order, base, lo, hi);
    assert forall|k: int| 0 <= k < order.len() implies shape(#[trigger] f[base + k]) == shape(cells[order[k] as int]) by {
        assert(f[base + k] == (if base + lo <= base + k < base + hi {
            renamed_cell(seen, base, cells[order[k] as int])
        } else {
            cur[base + k]
        }));
    }
}

proof fn lemma_fill_join(cur: Seq<CellV>, cells: Seq<CellV>, seen: Map<usize, u32>, order: Seq<usize>, base: int, lo: int, mid: int, hi: int)
    requires
        lo <= mid <= hi,
    ensures
        fill(fill(cur, cells, seen, order, base, mid, hi), cells, seen, order, base, lo, mid) == fill(
            cur,
            cells,
            seen,
            order,
            base,
            lo,
            hi,
        ),
{
    assert(fill(fill(cur, cells, seen, order, base, mid, hi), cells, seen, order, base, lo, mid) =~= fill(
        cur,
        cells,
        seen,
        order,
        base,
        lo,
        hi,
    ));
}

/// `populate_list` reads only the elements from `i` on.
proof fn lemma_populate_list_shift(cur: Seq<CellV>, res: Map<u32, usize>, x: SerV, rest: Seq<SerV>)
    ensures
        populate_list(cur, res, seq![x] + rest, 0) == (match populate(cur, res, x) {
            Err(e) => Err(e),
            Ok((v, c1)) => match populate_list(c1, res, rest, 0) {
                Err(e) => Err(e),
                Ok((vs, c2)) => Ok((seq![v] + vs, c2)),
            },
        }),
{
    let s = seq![x] + rest;
    assert(s[0] == x);
    match populate(cur, res, x) {
        Err(_) => {},
        Ok((v, c1)) => {
            assert(s.subrange(1, s.len() as int) =~= rest.subrange(0, rest.len() as int));
            lemma_populate_list_suffix(c1, res, s, rest, 1, 0);
        },
    }
}

proof fn lemma_populate_list_suffix(cur: Seq<CellV>, res: Map<u32, usize>, s: Seq<SerV>, t: Seq<SerV>, j: int, k: int)
    requires
        0 <= j <= s.len(),
        0 <= k <= t.len(),
        s.subrange(j, s.len() as int) == t.subrange(k, t.len() as int),
    ensures
        populate_list(cur, res, s, j) == populate_list(cur, res, t, k),
    decreases s.len() - j,
{
    let ss = s.subrange(j, s.len() as int);
    let tt = t.subrange(k, t.len() as int);
    assert(ss.len() == tt.len());
    if j < s.len() {
        assert(ss[0] == s[j]);
        assert(tt[0] == t[k]);
        assert(s[j] == t[k]);
        assert(s.subrange(j + 1, s.len() as int) =~= ss.subrange(1, ss.len() as int));
        assert(t.subrange(k + 1, t.len() as int) =~= tt.subrange(1, tt.len() as int));
        match populate(cur, res, s[j]) {
            Err(_) => {},
            Ok((v, c1)) => {
                lemma_populate_list_suffix(c1, res, s, t, j + 1, k + 1);
            },
        }
    }
}

/// The second pass copies what serializing `v` defined into the cells made
/// for it, and gives the copy of `v`.
pub proof fn lemma_populate(
    cells: Seq<CellV>,
    st: SerState,
    v: ValueV,
    fuel: nat,
    fin: SerState,
    order: Seq<usize>,
    cur: Seq<CellV>,
    base: int,
)
    requires
        heap_ok(cells),
        plain_heap(cells),
        value_ok(cells, v),
        plain(v),
        state_ok(st, cells),
        unseen_count(st.seen, cells.len() as int) <= fuel,
        cells.len() <= u32::MAX,
        extends(ser(cells, st, v, fuel).1, fin),
        state_ok(fin, cells),
        final_order(fin, order),
        0 <= base,
        base + fin.next <= usize::MAX,
        shapes_match(cur, cells, order, base),
    ensures
        ({
            let (x, st2) = ser(cells, st, v, fuel);
            populate(cur, id_cells(fin.next as int, base), x) == Ok::<(ValueV, Seq<CellV>), DeserializeError>(
                (renamed(fin.seen, base, v), fill(cur, cells, fin.seen, order, base, st.next as int, st2.next as int)),
            )
        }),
    decreases fuel, 0nat, 0int,
{
    lemma_ser_facts(cells, st, v, fuel);
    let (x, st2) = ser(cells, st, v, fuel);
    let res = id_cells(fin.next as int, base);
    lemma_extends_trans(st, st2, fin);
    match v {
        ValueV::String(c) | ValueV::Array(c) | ValueV::Object(c) => {
            let id = fin.seen[c];
            if st.seen.contains_key(c) {
                // A reference to a cell met before.
                assert(fin.seen.contains_key(c));
                assert(id < fin.next);
                assert(fin.seen[order[id as int]] == id);
                assert(order[id as int] == c);
                assert(shape(cur[base + id]) == shape(cells[c as int]));
                assert(fill(cur, cells, fin.seen, order, base, st.next as int, st2.next as int) =~= cur);
            } else {
                lemma_unseen_positive(st.seen, cells.len() as int, c);
                let cs = ser_cells(cells, st, v, fuel);
                assert(cs[0] == c);
                assert(st2.seen.contains_key(c));
                assert(id == st.next);
                assert(fin.seen[order[id as int]] == id);
                assert(order[id as int] == c);
                assert(shape(cur[base + id]) == shape(cells[c as int]));
                match v {
                    ValueV::String(_) => {
                        assert(cur.update(base + id, cells[c as int]) =~= fill(
                            cur,
                            cells,
                            fin.seen,
                            order,
                            base,
                            st.next as int,
                            st2.next as int,
                        ));
                    },
                    _ => {
                        if fuel == 0 {
                            // The fuel is never short: a cell not yet met leaves some unseen.
                            lemma_unseen_positive(st.seen, cells.len() as int, c);
                            assert(false);
                        }
                        let st1 = mark(st, c);
                        let vs = cell_values(cells[c as int]);
                        lemma_unseen_positive(st.seen, cells.len() as int, c);
                        lemma_unseen_insert(st.seen, cells.len() as int, c, st.next);
                        assert(state_ok(st1, cells));
                        assert forall|i: int| 0 <= i < vs.len() implies value_ok(cells, #[trigger] vs[i]) && plain(vs[i]) by {}
                        let (xs, _) = ser_list(cells, st1, vs, 0, (fuel - 1) as nat);
                        lemma_populate_list(cells, st1, vs, 0, (fuel - 1) as nat, fin, order, cur, base);
                        let c2 = fill(cur, cells, fin.seen, order, base, st1.next as int, st2.next as int);
                        lemma_fill_join(cur, cells, fin.seen, order, base, st.next as int, st1.next as int, st2.next as int);
                        assert(c2[base + id] == cur[base + id]);
                        assert(vs.subrange(0, vs.len() as int) =~= vs);
                        assert(c2.update(base + id, renamed_cell(fin.seen, base, cells[c as int])) =~= fill(
                            cur,
                            cells,
                            fin.seen,
                            order,
                            base,
                            st.next as int,
                            st2.next as int,
                        ));
                    },
                }
            }
        },
        _ => {
            assert(fill(cur, cells, fin.seen, order, base, st.next as int, st2.next as int) =~= cur);
        },
    }
}

pub proof fn lemma_populate_list(
    cells: Seq<CellV>,
    st: SerState,
    vs: Seq<ValueV>,
    i: int,
    fuel: nat,
    fin: SerState,
    order: Seq<usize>,
    cur: Seq<CellV>,
    base: int,
)
    requires
        heap_ok(cells),
        plain_heap(cells),
        forall|j: int| 0 <= j < vs.len() ==> value_ok(cells, #[trigger] vs[j]) && plain(vs[j]),
        state_ok(st, cells),
        unseen_count(st.seen, cells.len() as int) <= fuel,
        cells.len() <= u32::MAX,
        extends(ser_list(cells, st, vs, i, fuel).1, fin),
        state_ok(fin, cells),
        final_order(fin, order),
        0 <= base,
        base + fin.next <= usize::MAX,
        shapes_match(cur, cells, order, base),
        0 <= i <= vs.len(),
    ensures
        ({
            let (xs, st2) = ser_list(cells, st, vs, i, fuel);
            populate_list(cur, id_cells(fin.next as int, base), xs, 0) == Ok::<
                (Seq<ValueV>, Seq<CellV>),
                DeserializeError,
            >(
                (
                    renamed_values(fin.seen, base, vs.subrange(i, vs.len() as int)),
                    fill(cur, cells, fin.seen, order, base, st.next as int, st2.next as int),
                ),
            )
        }),
    decreases fuel, 1nat, vs.len() - i,
{
    let res = id_cells(fin.next as int, base);
    lemma_ser_list_facts(cells, st, vs, i, fuel);
    let (xs, st2) = ser_list(cells, st, vs, i, fuel);
    if i >= vs.len() {
        assert(fill(cur, cells, fin.seen, order, base, st.next as int, st2.next as int) =~= cur);
        assert(renamed_values(fin.seen, base, vs.subrange(i, vs.len() as int)) =~= Seq::<ValueV>::empty());
    } else {
        lemma_ser_facts(cells, st, vs[i], fuel);
        let (x, st1) = ser(cells, st, vs[i], fuel);
        lemma_ser_list_facts(cells, st1, vs, i + 1, fuel);
        let (rest, _) = ser_list(cells, st1, vs, i + 1, fuel);
        lemma_extends_trans(st1, st2, fin);
        lemma_populate(cells, st, vs[i], fuel, fin, order, cur, base);
        let c1 = fill(cur, cells, fin.seen, order, base, st.next as int, st1.next as int);
        lemma_fill_shapes(cur, cells, fin.seen, order, base, st.next as int, st1.next as int);
        lemma_unseen_grow(st.seen, st1.seen, cells.len() as int);
        lemma_populate_list(cells, st1, vs, i + 1, fuel, fin, order, c1, base);
        lemma_populate_list_shift(cur, res, x, rest);
        lemma_fill_join(c1, cells, fin.seen, order, base, st.next as int, st1.next as int, st2.next as int);
        assert(fill(fill(cur, cells, fin.seen, order, base, st.next as int, st1.next as int), cells, fin.seen, order, base, st1.next as int, st2.next as int)
            =~= fill(cur, cells, fin.seen, order, base, st.next as int, st2.next as int));
        assert(renamed_values(fin.seen, base, vs.subrange(i, vs.len() as int)) =~= seq![renamed(fin.seen, base, vs[i])]
            + renamed_values(fin.seen, base, vs.subrange(i + 1, vs.len() as int)));
    }
}

// ---------------------------------------------------------------------------
// The round trip
// ---------------------------------------------------------------------------

/// Every object of the heap is of a class of `classes`.
pub open spec fn classes_cover(cells: Seq<CellV>, classes: Seq<Seq<char>>) -> bool {
    forall|c: int| 0 <= c < cells.len() ==> (#[trigger] cells[c] matches CellV::Object(n, _) ==> classes.contains(n))
}

proof fn lemma_ser_classes(cells: Seq<CellV>, st: SerState, v: ValueV, fuel: nat, classes: Seq<Seq<char>>)
    requires
        heap_ok(cells),
        value_ok(cells, v),
        classes_cover(cells, classes),
    ensures
        classes_known(classes, ser(cells, st, v, fuel).0),
    decreases fuel, 0nat, 0int,
{
    match v {
        ValueV::Array(c) | ValueV::Object(c) => {
            if !st.seen.contains_key(c) && fuel > 0 {
                let vs = cell_values(cells[c as int]);
                assert forall|i: int| 0 <= i < vs.len() implies value_ok(cells, #[trigger] vs[i]) by {}
                lemma_ser_list_classes(cells, mark(st, c), vs, 0, (fuel - 1) as nat, classes);
                assert(classes_known(classes, ser(cells, st, v, fuel).0));
            }
        },
        _ => {},
    }
}

proof fn lemma_ser_list_classes(cells: Seq<CellV>, st: SerState, vs: Seq<ValueV>, i: int, fuel: nat, classes: Seq<Seq<char>>)
    requires
        heap_ok(cells),
        forall|j: int| 0 <= j < vs.len() ==> value_ok(cells, #[trigger] vs[j]),
        classes_cover(cells, classes),
        0 <= i,
    ensures
        classes_known_seq(classes, ser_list(cells, st, vs, i, fuel).0),
    decreases fuel, 1nat, vs.len() - i,
{
    if i < vs.len() {
        lemma_ser_classes(cells, st, vs[i], fuel, classes);
        let (x, st1) = ser(cells, st, vs[i], fuel);
        lemma_ser_list_classes(cells, st1, vs, i + 1, fuel, classes);
        let (rest, _) = ser_list(cells, st1, vs, i + 1, fuel);
        lemma_seq_cons(x, rest);
    }
}

proof fn lemma_assign_ids(res: Map<u32, usize>, s: u32, n: nat, b: int)
    requires
        s + n <= u32::MAX + 1,
    ensures
        assign(res, ids_from(s, n), b) == res.union_prefer_right(
            Map::new(|id: u32| s <= id < s + n, |id: u32| (b + id - s) as usize),
        ),
    decreases n,
{
    let m = Map::new(|id: u32| s <= id < s + n, |id: u32| (b + id - s) as usize);
    if n == 0 {
        assert(ids_from(s, 0) =~= Seq::<u32>::empty());
        assert(res.union_prefer_right(m) =~= res);
    } else {
        let ids = ids_from(s, n);
        assert(ids[0] == s);
        if n == 1 {
            assert(ids.subrange(1, ids.len() as int) =~= ids_from(s, 0));
            lemma_assign_ids(res.insert(s, b as usize), s, 0, b + 1);
            let m0 = Map::new(|id: u32| s <= id < s + 0, |id: u32| (b + 1 + id - s) as usize);
            assert(res.insert(s, b as usize).union_prefer_right(m0) =~= res.union_prefer_right(m));
        } else {
            let s1 = (s + 1) as u32;
            assert(ids.subrange(1, ids.len() as int) =~= ids_from(s1, (n - 1) as nat));
            lemma_assign_ids(res.insert(s, b as usize), s1, (n - 1) as nat, b + 1);
            let m1 = Map::new(|id: u32| s1 <= id < s1 + (n - 1), |id: u32| (b + 1 + id - s1) as usize);
            assert(res.insert(s, b as usize).union_prefer_right(m1) =~= res.union_prefer_right(m));
        }
    }
}

/// The heap `target` followed by the copies of the cells of `order`.
pub open spec fn copied_heap(cells: Seq<CellV>, seen: Map<usize, u32>, order: Seq<usize>, target: Seq<CellV>) -> Seq<
    CellV,
> {
    target + order.map_values(|c: usize| renamed_cell(seen, target.len() as int, cells[c as int]))
}

/// Serializing a value with a new serializer and deserializing the result into
/// a heap gives a copy of the value: the cells it reaches are copied after the
/// cells already there, in the order serialization met them, each reference to
/// a cell becoming a reference to its copy. Shared cells stay shared and cycles
/// stay cycles. This holds of values without runtime values, whose integers are
/// written canonically and whose objects are of known classes.
pub proof fn law_roundtrip(cells: Seq<CellV>, v: ValueV, target: Seq<CellV>, classes: Seq<Seq<char>>)
    requires
        heap_ok(cells),
        plain_heap(cells),
        value_ok(cells, v),
        plain(v),
        classes_cover(cells, classes),
        cells.len() <= u32::MAX,
        target.len() + cells.len() <= usize::MAX,
    ensures
        ({
            let st0 = SerState { seen: Map::empty(), next: 0 };
            let (x, fin) = ser(cells, st0, v, cells.len() as nat);
            let order = ser_cells(cells, st0, v, cells.len() as nat);
            &&& deserialized(target, Map::empty(), classes, x) == Ok::<(ValueV, Seq<CellV>), DeserializeError>(
                (renamed(fin.seen, target.len() as int, v), copied_heap(cells, fin.seen, order, target)),
            )
            &&& final_order(fin, order)
            &&& forall|c: usize| #[trigger] fin.seen.contains_key(c) ==> copied_heap(cells, fin.seen, order, target)[target.len()
                + fin.seen[c]] == renamed_cell(fin.seen, target.len() as int, cells[c as int])
        }),
{
    let st0 = SerState { seen: Map::empty(), next: 0 };
    let n = cells.len() as nat;
    let b = target.len() as int;
    lemma_unseen_empty(n as int);
    assert(state_ok(st0, cells));
    lemma_ser_facts(cells, st0, v, n);
    lemma_ser_classes(cells, st0, v, n, classes);
    let (x, fin) = ser(cells, st0, v, n);
    let order = ser_cells(cells, st0, v, n);
    assert(final_order(fin, order));
    let t1 = target + shells_made(x);
    lemma_shells(target, Map::empty(), classes, x);
    lemma_assign_ids(Map::empty(), 0, order.len(), b);
    let res = id_cells(fin.next as int, b);
    assert(assign(Map::empty(), def_ids(x), b) =~= res);
    assert(shapes_match(t1, cells, order, b)) by {
        assert forall|k: int| 0 <= k < order.len() implies shape(#[trigger] t1[b + k]) == shape(cells[order[k] as int]) by {
            assert(t1[b + k] == shells_of_cells(cells, order)[k]);
        }
    }
    lemma_populate(cells, st0, v, n, fin, order, t1, b);
    let copied = copied_heap(cells, fin.seen, order, target);
    assert(fill(t1, cells, fin.seen, order, b, 0, fin.next as int) =~= copied);
    assert forall|c: usize| #[trigger] fin.seen.contains_key(c) implies copied[b + fin.seen[c]] == renamed_cell(
        fin.seen,
        b,
        cells[c as int],
    ) by {
        let k = fin.seen[c] as int;
        assert(fin.seen[order[k]] == k);
        assert(order[k] == c);
    }
}

} // verus!

use vstd::prelude::*;

verus! {

/// A SOM value. Numbers, booleans and symbols are
/// held directly (an integer as its decimal text, a double as its IEEE 754
/// bits); strings, arrays and objects live in cells of a [`Heap`] and are held
/// by the index of their cell, which identifies them. Classes, methods and
/// blocks live in the tables of a running interpreter and are held by their
/// index there. `Runtime` stands for the other values that only make sense
/// inside a running interpreter (compiled blocks, native handles).
pub enum Value {
    Nil,
    Boolean(bool),
    Integer(String),
    Double(u64),
    Symbol(String),
    String(usize),
    Array(usize),
    Object(usize),
    Class(usize),
    Method(usize),
    Block(usize),
    Runtime,
}

/// The contents of a heap cell.
pub enum HeapCell {
    Str(String),
    Array(Vec<Value>),
    Object { class_name: String, fields: Vec<Value> },
}

/// The cells that strings, arrays and objects occupy.
pub struct Heap {
    pub cells: Vec<HeapCell>,
}

pub enum ValueV {
    Nil,
    Boolean(bool),
    Integer(Seq<char>),
    Double(u64),
    Symbol(Seq<char>),
    String(usize),
    Array(usize),
    Object(usize),
    Class(usize),
    Method(usize),
    Block(usize),
    Runtime,
}

pub enum CellV {
    Str(Seq<char>),
    Array(Seq<ValueV>),
    Object(Seq<char>, Seq<ValueV>),
}

impl View for Value {
    type V = ValueV;

    open spec fn view(&self) -> ValueV {
        match self {
            Value::Nil => ValueV::Nil,
            Value::Boolean(b) => ValueV::Boolean(*b),
            Value::Integer(s) => ValueV::Integer(s@),
            Value::Double(d) => ValueV::Double(*d),
            Value::Symbol(s) => ValueV::Symbol(s@),
            Value::String(c) => ValueV::String(*c),
            Value::Array(c) => ValueV::Array(*c),
            Value::Object(c) => ValueV::Object(*c),
            Value::Class(c) => ValueV::Class(*c),
            Value::Method(m) => ValueV::Method(*m),
            Value::Block(b) => ValueV::Block(*b),
            Value::Runtime => ValueV::Runtime,
        }
    }
}

pub open spec fn values_view(v: Seq<Value>) -> Seq<ValueV> {
    v.map_values(|x: Value| x@)
}

impl View for HeapCell {
    type V = CellV;

    open spec fn view(&self) -> CellV {
        match self {
            HeapCell::Str(s) => CellV::Str(s@),
            HeapCell::Array(v) => CellV::Array(values_view(v@)),
            HeapCell::Object { class_name, fields } => CellV::Object(class_name@, values_view(fields@)),
        }
    }
}

impl View for Heap {
    type V = Seq<CellV>;

    open spec fn view(&self) -> Seq<CellV> {
        self.cells@.map_values(|c: HeapCell| c@)
    }
}

/// `v` refers, if it refers to a cell at all, to a cell of the right kind.
pub open spec fn value_ok(cells: Seq<CellV>, v: ValueV) -> bool {
    match v {
        ValueV::String(c) => c < cells.len() && cells[c as int] is Str,
        ValueV::Array(c) => c < cells.len() && cells[c as int] is Array,
        ValueV::Object(c) => c < cells.len() && cells[c as int] is Object,
        _ => true,
    }
}

pub open spec fn cell_values(cell: CellV) -> Seq<ValueV> {
    match cell {
        CellV::Str(_) => Seq::empty(),
        CellV::Array(vs) => vs,
        CellV::Object(_, vs) => vs,
    }
}

/// Every value held in a cell refers to a cell of the right kind.
pub open spec fn heap_ok(cells: Seq<CellV>) -> bool {
    forall|c: int, i: int|
        0 <= c < cells.len() && 0 <= i < cell_values(cells[c]).len() ==> value_ok(
            cells,
            #[trigger] cell_values(cells[c])[i],
        )
}

} // verus!

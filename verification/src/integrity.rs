//! Testing, while a program runs, that the state is well formed: what a
//! step that cannot promise it (assembling a class anew) is followed by.
use vstd::prelude::*;
use crate::object::ValueV;
use crate::runtime::{act_ok, chain_ok, class_fields_ok, class_ok, entry_index, find_entry, lemma_table_keys, Store, StoreV};

verus! {

impl Store {
    /// Whether the chain of superclasses from class `k` ends within as many
    /// steps as there are classes.
    fn chain_ends(&self, k: usize) -> (r: bool)
        requires
            k < self.classes@.len(),
        ensures
            r == chain_ok(self@, k as int, self@.classes.len() as nat),
    {
        let n = self.classes.len();
        let mut cur = k;
        let mut fuel = n;
        loop
            invariant
                n == self.classes@.len(),
                cur < n,
                fuel <= n,
                chain_ok(self@, cur as int, fuel as nat) == chain_ok(self@, k as int, n as nat),
            decreases fuel,
        {
            assert(self@.classes[cur as int] == self.classes@[cur as int]@);
            match self.classes[cur].super_class {
                None => {
                    return true;
                },
                Some(sup) => {
                    if fuel == 0 || sup >= n {
                        assert(self@.classes[cur as int].super_class == Some(sup));
                        if fuel > 0 {
                            assert(!chain_ok(self@, sup as int, (fuel - 1) as nat));
                        }
                        assert(!chain_ok(self@, cur as int, fuel as nat));
                        return false;
                    }
                    cur = sup;
                    fuel = fuel - 1;
                },
            }
        }
    }

    /// Whether class `k` is as `class_ok` says.
    fn class_holds(&self, k: usize) -> (r: bool)
        requires
            k < self.classes@.len(),
        ensures
            r == class_ok(self@, k as int),
    {
        assert(self@.classes[k as int] == self.classes@[k as int]@);
        let c = &self.classes[k];
        match c.metaclass {
            Some(m) => {
                if m >= self.classes.len() {
                    return false;
                }
            },
            None => {},
        }
        if !self.chain_ends(k) {
            return false;
        }
        let mut j: usize = 0;
        while j < c.methods.len()
            invariant
                j <= c.methods@.len(),
                c == self.classes@[k as int],
                forall|i: int| 0 <= i < j ==> #[trigger] c@.methods[i].1 < self@.methods.len(),
            decreases c.methods.len() - j,
        {
            if c.methods[j].1 >= self.methods.len() {
                assert(c@.methods[j as int].1 >= self@.methods.len());
                return false;
            }
            j = j + 1;
        }
        proof {
            lemma_table_keys(c.methods@);
        }
        let mut j: usize = 0;
        while j < c.method_order.len()
            invariant
                j <= c.method_order@.len(),
                c == self.classes@[k as int],
                crate::runtime::keys(c@.methods) == c.methods@.map_values(|p: (String, usize)| p.0@),
                forall|i: int| 0 <= i < j ==> #[trigger] entry_index(c@.methods, c@.method_order[i]) is Some,
            decreases c.method_order.len() - j,
        {
            if find_entry(&c.methods, &c.method_order[j]).is_none() {
                assert(entry_index(c@.methods, c@.method_order[j as int]) is None);
                return false;
            }
            j = j + 1;
        }
        true
    }

    /// Whether activation `a` is as `act_ok` says.
    fn act_holds(&self, a: usize) -> (r: bool)
        requires
            a < self.activations@.len(),
        ensures
            r == act_ok(self@, a as int),
    {
        assert(self@.acts[a as int] == self.activations@[a as int]@);
        let act = &self.activations[a];
        match act.parent {
            Some(p) => {
                if p >= a {
                    return false;
                }
            },
            None => {},
        }
        match act.holder {
            Some(h) => {
                if h >= self.classes.len() {
                    return false;
                }
                match &act.self_val {
                    crate::object::Value::Class(k) => {
                        if *k >= self.classes.len() || !self.fields_of_class_hold(*k) {
                            return false;
                        }
                    },
                    _ => {},
                }
            },
            None => {},
        }
        self.refers_to_held(&act.self_val)
    }

    /// Whether class `k` holds one value for each field its metaclass names.
    pub(crate) fn fields_of_class_hold(&self, k: usize) -> (r: bool)
        requires
            k < self.classes@.len(),
        ensures
            r == class_fields_ok(self@, k as int),
    {
        assert(self@.classes[k as int] == self.classes@[k as int]@);
        match self.classes[k].metaclass {
            Some(m) => {
                if m < self.classes.len() {
                    assert(self@.classes[m as int] == self.classes@[m as int]@);
                    self.classes[k].fields.len() == self.classes[m].instance_fields.len()
                } else {
                    false
                }
            },
            None => false,
        }
    }

    /// Whether `v` refers only to what the state holds.
    pub(crate) fn refers_to_held(&self, v: &crate::object::Value) -> (r: bool)
        ensures
            r == crate::runtime::ref_ok(self@, v@),
    {
        match v {
            crate::object::Value::String(c) => *c < self.heap.cells.len(),
            crate::object::Value::Array(c) => *c < self.heap.cells.len(),
            crate::object::Value::Object(c) => {
                if *c >= self.heap.cells.len() {
                    return false;
                }
                assert(self@.cells[*c as int] == self.heap.cells@[*c as int]@);
                match &self.heap.cells[*c] {
                    crate::object::HeapCell::Object { class_name, fields } => match self.global_class(class_name) {
                        Some(k) => {
                            if k < self.classes.len() {
                                assert(self@.classes[k as int] == self.classes@[k as int]@);
                                fields.len() == self.classes[k].instance_fields.len()
                            } else {
                                false
                            }
                        },
                        None => false,
                    },
                    _ => false,
                }
            },
            crate::object::Value::Class(k) => *k < self.classes.len(),
            crate::object::Value::Method(m) => *m < self.methods.len(),
            crate::object::Value::Block(b) => *b < self.blocks.len(),
            _ => true,
        }
    }

    /// Whether the state is well formed; when it answers true, it is.
    pub fn is_well_formed(&self) -> (r: bool)
        ensures
            r == self@.wf(),
    {
        let n = self.classes.len();
        let mut k: usize = 0;
        while k < n
            invariant
                n == self.classes@.len(),
                k <= n,
                forall|i: int| 0 <= i < k ==> #[trigger] class_ok(self@, i),
            decreases n - k,
        {
            if !self.class_holds(k) {
                assert(!class_ok(self@, k as int));
                return false;
            }
            k = k + 1;
        }
        let mut m: usize = 0;
        while m < self.methods.len()
            invariant
                m <= self.methods@.len(),
                forall|i: int| 0 <= i < m ==> #[trigger] self@.methods[i].holder < self@.classes.len(),
            decreases self.methods.len() - m,
        {
            assert(self@.methods[m as int] == self.methods@[m as int]@);
            if self.methods[m].holder >= self.classes.len() {
                assert(self@.methods[m as int].holder >= self@.classes.len());
                return false;
            }
            m = m + 1;
        }
        let mut b: usize = 0;
        while b < self.blocks.len()
            invariant
                b <= self.blocks@.len(),
                forall|i: int|
                    0 <= i < b ==> (#[trigger] self@.blocks[i].context matches Some(c) ==> c < self@.acts.len()),
            decreases self.blocks.len() - b,
        {
            assert(self@.blocks[b as int] == self.blocks@[b as int]@);
            match self.blocks[b].context {
                Some(c) => {
                    if c >= self.activations.len() {
                        assert(!(self@.blocks[b as int].context matches Some(x) ==> x < self@.acts.len()));
                        return false;
                    }
                },
                None => {},
            }
            b = b + 1;
        }
        let mut a: usize = 0;
        while a < self.activations.len()
            invariant
                a <= self.activations@.len(),
                forall|i: int| 0 <= i < a ==> #[trigger] act_ok(self@, i),
            decreases self.activations.len() - a,
        {
            if !self.act_holds(a) {
                assert(!act_ok(self@, a as int));
                return false;
            }
            a = a + 1;
        }
        let mut g: usize = 0;
        while g < self.globals.len()
            invariant
                g <= self.globals@.len(),
                forall|i: int|
                    0 <= i < g ==> (#[trigger] self@.globals[i].1 matches ValueV::Class(c) ==> c < self@.classes.len()),
            decreases self.globals.len() - g,
        {
            assert(self@.globals[g as int].1 == self.globals@[g as int].1@);
            match &self.globals[g].1 {
                crate::object::Value::Class(c) => {
                    if *c >= self.classes.len() {
                        assert(!(self@.globals[g as int].1 matches ValueV::Class(x) ==> x < self@.classes.len()));
                        return false;
                    }
                },
                _ => {},
            }
            g = g + 1;
        }
        true
    }
}

} // verus!

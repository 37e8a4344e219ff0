//! The variable environment of a running function: named values, and the
//! temporaries of the expression being evaluated.
//!
//! Every value lives in a cell of the environment's store; a name is bound to a
//! cell. A [`ReferableValue`] is a handle on a cell: what is written through it is
//! what the names bound to that cell read afterwards.

use vstd::prelude::*;

use crate::value::{Value, ValueView};

verus! {

/// A handle on a cell of an environment's store.
#[derive(Clone, Copy, Debug, PartialEq, Eq, Structural)]
pub struct ReferableValue {
    cell: usize,
}

impl ReferableValue {
    /// The cell this handle refers to.
    pub closed spec fn cell(self) -> usize {
        self.cell
    }
}

/// Some entry of `es` has the name `k`.
pub open spec fn has_key(es: Seq<(String, usize)>, k: Seq<char>) -> bool {
    exists|i: int| 0 <= i < es.len() && (#[trigger] es[i]).0@ == k
}

/// The position of an entry named `k`.
pub open spec fn key_index(es: Seq<(String, usize)>, k: Seq<char>) -> int {
    choose|i: int| 0 <= i < es.len() && (#[trigger] es[i]).0@ == k
}

/// The names of `es` are distinct.
pub open spec fn keys_unique(es: Seq<(String, usize)>) -> bool {
    forall|i: int, j: int| 0 <= i < j < es.len() ==> (#[trigger] es[i]).0@ != (#[trigger] es[j]).0@
}

/// The cells of `es`, by name.
pub open spec fn slots_map(es: Seq<(String, usize)>) -> Map<Seq<char>, usize> {
    Map::new(|k: Seq<char>| has_key(es, k), |k: Seq<char>| es[key_index(es, k)].1)
}

/// Every cell named in `es` is below `n`.
pub open spec fn slots_below(es: Seq<(String, usize)>, n: nat) -> bool {
    forall|i: int| 0 <= i < es.len() ==> (#[trigger] es[i]).1 < n
}

/// The contents of the cells that `slots` names.
pub open spec fn read_cells(slots: Map<Seq<char>, usize>, cells: Seq<ValueView>) -> Map<Seq<char>, ValueView> {
    slots.map_values(|c: usize| cells[c as int])
}

/// The contents of a store of cells.
pub open spec fn cell_views(cells: Seq<Value>) -> Seq<ValueView> {
    Seq::new(cells.len(), |i: int| cells[i].deep())
}

/// The cells named by entries below `n` stay below `n` in the map.
proof fn lemma_slots_below(es: Seq<(String, usize)>, n: nat)
    requires
        slots_below(es, n),
    ensures
        forall|k: Seq<char>| #[trigger] slots_map(es).dom().contains(k) ==> slots_map(es)[k] < n,
{
    assert forall|k: Seq<char>| #[trigger] slots_map(es).dom().contains(k) implies slots_map(es)[k] < n by {
        let i = key_index(es, k);
        assert(0 <= i < es.len() && es[i].0@ == k);
    }
}

/// Pushing a cell leaves what existing names read unchanged.
proof fn lemma_read_push(slots: Map<Seq<char>, usize>, cells: Seq<ValueView>, v: ValueView)
    requires
        forall|k: Seq<char>| #[trigger] slots.dom().contains(k) ==> slots[k] < cells.len(),
    ensures
        read_cells(slots, cells.push(v)) == read_cells(slots, cells),
{
    assert(read_cells(slots, cells.push(v)) =~= read_cells(slots, cells));
}

/// A new binding to a new cell reads as the value of that cell.
proof fn lemma_read_bind(slots: Map<Seq<char>, usize>, cells: Seq<ValueView>, name: Seq<char>, n: usize, v: ValueView)
    requires
        forall|k: Seq<char>| #[trigger] slots.dom().contains(k) ==> slots[k] < cells.len(),
        n == cells.len(),
    ensures
        read_cells(slots.insert(name, n), cells.push(v)) == read_cells(slots, cells).insert(name, v),
{
    let a = read_cells(slots.insert(name, n), cells.push(v));
    let b = read_cells(slots, cells).insert(name, v);
    assert forall|k: Seq<char>| #[trigger] a.dom().contains(k) implies a[k] == b[k] by {
        if k != name {
            assert(slots[k] < cells.len());
            assert(cells.push(v)[slots[k] as int] == cells[slots[k] as int]);
        }
    }
    assert(a =~= b);
}

/// The environment of one function invocation: a store of cells, and the cells
/// that names and temporaries are bound to.
pub struct Env {
    cells: Vec<Value>,
    env: Vec<(String, usize)>,
    tmp_store: Vec<(String, usize)>,
}

/// The index of the entry named `name`, if any.
fn find(es: &Vec<(String, usize)>, name: &String) -> (r: Option<usize>)
    requires
        keys_unique(es@),
    ensures
        r is Some <==> has_key(es@, name@),
        r matches Some(i) ==> i < es@.len() && es@[i as int].0@ == name@ && key_index(es@, name@) == i,
{
    let mut i: usize = 0;
    while i < es.len()
        invariant
            i <= es@.len(),
            keys_unique(es@),
            forall|j: int| 0 <= j < i ==> (#[trigger] es@[j]).0@ != name@,
        decreases es.len() - i,
    {
        if es[i].0 == *name {
            proof {
                assert(es@[i as int].0@ == name@);
                assert(has_key(es@, name@));
                let k = key_index(es@, name@);
                assert(0 <= k < es@.len() && es@[k].0@ == name@);
                if k < i {
                    assert(es@[k].0@ != es@[i as int].0@);
                } else if k > i {
                    assert(es@[i as int].0@ != es@[k].0@);
                }
            }
            return Some(i);
        }
        i = i + 1;
    }
    None
}

/// Sets the entry named `name` to the cell `value`, adding it if there is none;
/// returns the cell it had.
fn put(es: &mut Vec<(String, usize)>, name: String, value: usize) -> (r: Option<usize>)
    requires
        keys_unique(old(es)@),
    ensures
        keys_unique(final(es)@),
        slots_map(final(es)@) == slots_map(old(es)@).insert(name@, value),
        r is Some <==> slots_map(old(es)@).dom().contains(name@),
        r matches Some(v) ==> v == slots_map(old(es)@)[name@],
{
    let ghost old_es = es@;
    let ghost vv = value;
    let ghost key = name@;
    match find(es, &name) {
        Some(i) => {
            let previous = es[i].1;
            es.set(i, (name, value));
            proof {
                assert forall|a: int, b: int| 0 <= a < b < es@.len() implies (#[trigger] es@[a]).0@ != (
                #[trigger] es@[b]).0@ by {
                    assert(es@[a].0@ == old_es[a].0@);
                    assert(es@[b].0@ == old_es[b].0@);
                }
                assert forall|k: Seq<char>| has_key(es@, k) == has_key(old_es, k) by {
                    if has_key(old_es, k) {
                        let j = choose|j: int| 0 <= j < old_es.len() && (#[trigger] old_es[j]).0@ == k;
                        assert(es@[j].0@ == k);
                    }
                    if has_key(es@, k) {
                        let j = choose|j: int| 0 <= j < es@.len() && (#[trigger] es@[j]).0@ == k;
                        assert(old_es[j].0@ == k);
                    }
                }
                assert forall|k: Seq<char>| #[trigger] has_key(es@, k) implies es@[key_index(es@, k)].1
                    == slots_map(old_es).insert(key, vv)[k] by {
                    let a = key_index(es@, k);
                    if k == key {
                        if a != i {
                            assert(es@[a].0@ == old_es[a].0@);
                        }
                    } else {
                        let b = key_index(old_es, k);
                        assert(old_es[b].0@ == k);
                        assert(es@[a].0@ == k);
                        if a != b {
                            assert(old_es[a].0@ == k);
                        }
                    }
                }
                assert(slots_map(es@) =~= slots_map(old_es).insert(key, vv));
            }
            Some(previous)
        },
        None => {
            es.push((name, value));
            proof {
                assert forall|a: int, b: int| 0 <= a < b < es@.len() implies (#[trigger] es@[a]).0@ != (
                #[trigger] es@[b]).0@ by {
                    if b == old_es.len() {
                        assert(es@[a] == old_es[a]);
                    } else {
                        assert(es@[a] == old_es[a]);
                        assert(es@[b] == old_es[b]);
                    }
                }
                assert forall|k: Seq<char>| has_key(es@, k) == (has_key(old_es, k) || k == key) by {
                    if has_key(old_es, k) {
                        let j = choose|j: int| 0 <= j < old_es.len() && (#[trigger] old_es[j]).0@ == k;
                        assert(es@[j].0@ == k);
                    }
                    if k == key {
                        assert(es@[old_es.len() as int].0@ == k);
                    }
                    if has_key(es@, k) && k != key {
                        let j = choose|j: int| 0 <= j < es@.len() && (#[trigger] es@[j]).0@ == k;
                        assert(old_es[j].0@ == k);
                    }
                }
                assert forall|k: Seq<char>| #[trigger] has_key(es@, k) implies es@[key_index(es@, k)].1
                    == slots_map(old_es).insert(key, vv)[k] by {
                    let a = key_index(es@, k);
                    if k == key {
                        if a != old_es.len() {
                            assert(old_es[a].0@ == key);
                        }
                    } else {
                        let b = key_index(old_es, k);
                        assert(old_es[b].0@ == k);
                        assert(es@[b] == old_es[b]);
                        if a != b {
                            assert(es@[a].0@ == k);
                        }
                    }
                }
                assert(slots_map(es@) =~= slots_map(old_es).insert(key, vv));
            }
            None
        },
    }
}

/// The cell of the entry named `name`, if any.
fn lookup(es: &Vec<(String, usize)>, name: &str) -> (r: Option<usize>)
    requires
        keys_unique(es@),
    ensures
        r is Some <==> slots_map(es@).dom().contains(name@),
        r matches Some(c) ==> c == slots_map(es@)[name@],
{
    let key = name.to_owned();
    match find(es, &key) {
        Some(i) => Some(es[i].1),
        None => None,
    }
}

/// A copy of the entries.
fn copy_slots(es: &Vec<(String, usize)>) -> (r: Vec<(String, usize)>)
    ensures
        r@.len() == es@.len(),
        forall|j: int| 0 <= j < es@.len() ==> (#[trigger] r@[j]).0@ == es@[j].0@ && r@[j].1 == es@[j].1,
{
    let mut out: Vec<(String, usize)> = Vec::new();
    let mut i: usize = 0;
    while i < es.len()
        invariant
            i <= es@.len(),
            out@.len() == i,
            forall|j: int| 0 <= j < i ==> (#[trigger] out@[j]).0@ == es@[j].0@ && out@[j].1 == es@[j].1,
        decreases es.len() - i,
    {
        out.push((es[i].0.clone(), es[i].1));
        i = i + 1;
    }
    out
}

/// Entries with the same names and cells name the same cells.
proof fn lemma_same_slots(a: Seq<(String, usize)>, b: Seq<(String, usize)>)
    requires
        a.len() == b.len(),
        forall|j: int| 0 <= j < b.len() ==> (#[trigger] a[j]).0@ == b[j].0@ && a[j].1 == b[j].1,
        keys_unique(b),
    ensures
        keys_unique(a),
        slots_map(a) == slots_map(b),
        forall|n: nat| slots_below(b, n) ==> #[trigger] slots_below(a, n),
{
    assert forall|x: int, y: int| 0 <= x < y < a.len() implies (#[trigger] a[x]).0@ != (#[trigger] a[y]).0@ by {
        assert(b[x].0@ != b[y].0@);
    }
    assert forall|k: Seq<char>| has_key(a, k) == has_key(b, k) by {
        if has_key(a, k) {
            let j = choose|j: int| 0 <= j < a.len() && (#[trigger] a[j]).0@ == k;
            assert(b[j].0@ == k);
        }
        if has_key(b, k) {
            let j = choose|j: int| 0 <= j < b.len() && (#[trigger] b[j]).0@ == k;
            assert(a[j].0@ == k);
        }
    }
    assert forall|k: Seq<char>| #[trigger] has_key(a, k) implies a[key_index(a, k)].1 == b[key_index(b, k)].1 by {
        let x = key_index(a, k);
        let y = key_index(b, k);
        assert(a[x].0@ == k);
        assert(b[y].0@ == k);
        if x != y {
            assert(b[x].0@ == k);
        }
    }
    assert(slots_map(a) =~= slots_map(b));
    assert forall|n: nat| slots_below(b, n) implies #[trigger] slots_below(a, n) by {
        assert forall|i: int| 0 <= i < a.len() implies (#[trigger] a[i]).1 < n by {
            assert(b[i].1 < n);
        }
    }
}

/// A deep copy of a store of cells.
fn copy_cells(cells: &Vec<Value>) -> (r: Vec<Value>)
    ensures
        cell_views(r@) == cell_views(cells@),
{
    let mut out: Vec<Value> = Vec::new();
    let mut i: usize = 0;
    while i < cells.len()
        invariant
            i <= cells@.len(),
            out@.len() == i,
            forall|j: int| 0 <= j < i ==> (#[trigger] out@[j]).deep() == cells@[j].deep(),
        decreases cells.len() - i,
    {
        out.push(cells[i].duplicate());
        i = i + 1;
    }
    assert(cell_views(out@) =~= cell_views(cells@));
    out
}

impl Env {
    #[verifier::type_invariant]
    spec fn well_formed(self) -> bool {
        &&& keys_unique(self.env@)
        &&& keys_unique(self.tmp_store@)
        &&& slots_below(self.env@, self.cells@.len())
        &&& slots_below(self.tmp_store@, self.cells@.len())
    }

    /// The contents of the store, cell by cell.
    pub closed spec fn cells(self) -> Seq<ValueView> {
        cell_views(self.cells@)
    }

    /// The cells the names are bound to.
    pub closed spec fn value_cells(self) -> Map<Seq<char>, usize> {
        slots_map(self.env@)
    }

    /// The cells the temporaries are bound to.
    pub closed spec fn tmp_cells(self) -> Map<Seq<char>, usize> {
        slots_map(self.tmp_store@)
    }

    /// The named values.
    pub open spec fn values(self) -> Map<Seq<char>, ValueView> {
        read_cells(self.value_cells(), self.cells())
    }

    /// The temporaries.
    pub open spec fn tmps(self) -> Map<Seq<char>, ValueView> {
        read_cells(self.tmp_cells(), self.cells())
    }

    /// The bindings name distinct keys and cells of the store.
    pub closed spec fn inv(self) -> bool {
        self.well_formed()
    }

    /// Every bound cell is a cell of the store.
    pub proof fn lemma_cells_exist(self)
        requires
            self.inv(),
        ensures
            forall|k: Seq<char>| #[trigger] self.value_cells().dom().contains(k) ==> self.value_cells()[k] < self.cells().len(),
            forall|k: Seq<char>| #[trigger] self.tmp_cells().dom().contains(k) ==> self.tmp_cells()[k] < self.cells().len(),
    {
        lemma_slots_below(self.env@, self.cells@.len());
        lemma_slots_below(self.tmp_store@, self.cells@.len());
    }

    /// An empty environment.
    pub fn new() -> (r: Env)
        ensures
            r.values() == Map::<Seq<char>, ValueView>::empty(),
            r.tmps() == Map::<Seq<char>, ValueView>::empty(),
            r.cells().len() == 0,
            r.inv(),
    {
        let r = Env { cells: Vec::new(), env: Vec::new(), tmp_store: Vec::new() };
        assert(r.values() =~= Map::<Seq<char>, ValueView>::empty());
        assert(r.tmps() =~= Map::<Seq<char>, ValueView>::empty());
        r
    }

    /// An independent copy of the environment: a new store with copies of every
    /// cell, and the same bindings.
    pub fn fork(&self) -> (r: Env)
        ensures
            r.cells() == self.cells(),
            r.value_cells() == self.value_cells(),
            r.tmp_cells() == self.tmp_cells(),
            r.values() == self.values(),
            r.tmps() == self.tmps(),
            r.inv(),
    {
        proof {
            use_type_invariant(self);
        }
        let cells = copy_cells(&self.cells);
        let env = copy_slots(&self.env);
        let tmp_store = copy_slots(&self.tmp_store);
        proof {
            lemma_same_slots(env@, self.env@);
            lemma_same_slots(tmp_store@, self.tmp_store@);
            assert(cell_views(cells@).len() == cell_views(self.cells@).len());
            assert(slots_below(self.env@, cells@.len()));
            assert(slots_below(env@, cells@.len()));
            assert(slots_below(tmp_store@, cells@.len()));
        }
        Env { cells, env, tmp_store }
    }

    /// Binds `name` to a new cell holding `value`; returns a copy of the value it
    /// was bound to before. Handles on the old cell keep referring to that cell.
    pub fn map_value(&mut self, name: String, value: Value) -> (r: Option<Value>)
        ensures
            final(self).values() == old(self).values().insert(name@, value.deep()),
            final(self).tmps() == old(self).tmps(),
            final(self).cells() == old(self).cells().push(value.deep()),
            final(self).value_cells() == old(self).value_cells().insert(name@, old(self).cells().len() as usize),
            final(self).tmp_cells() == old(self).tmp_cells(),
            final(self).inv(),
            r is Some <==> old(self).values().dom().contains(name@),
            r matches Some(v) ==> v.deep() == old(self).values()[name@],
    {
        proof {
            use_type_invariant(&*self);
        }
        let previous = self.get_value(name.as_str());
        let ghost vd = value.deep();
        let ghost old_cells = self.cells();
        let n = self.cells.len();
        let mut env: Vec<(String, usize)> = Vec::new();
        std::mem::swap(&mut env, &mut self.env);
        let mut tmps: Vec<(String, usize)> = Vec::new();
        std::mem::swap(&mut tmps, &mut self.tmp_store);
        let mut cells: Vec<Value> = Vec::new();
        std::mem::swap(&mut cells, &mut self.cells);
        cells.push(value);
        let ghost before = env@;
        let _ = put(&mut env, name, n);
        proof {
            assert(cell_views(cells@) =~= old_cells.push(vd));
            lemma_slots_below(before, n as nat);
            lemma_slots_below(tmps@, n as nat);
            assert forall|i: int| 0 <= i < env@.len() implies (#[trigger] env@[i]).1 < cells@.len() by {
                let k = env@[i].0@;
                assert(has_key(env@, k));
                let j = key_index(env@, k);
                assert(0 <= j < env@.len() && env@[j].0@ == k);
                if j < i {
                    assert(env@[j].0@ != env@[i].0@);
                } else if j > i {
                    assert(env@[i].0@ != env@[j].0@);
                }
                assert(slots_map(env@)[k] == env@[i].1);
                if k != name@ {
                    assert(slots_map(env@).dom().contains(k));
                    assert(slots_map(env@) == slots_map(before).insert(name@, n));
                    assert(slots_map(before).insert(name@, n).dom().contains(k));
                    assert(slots_map(before).dom().contains(k));
                    assert(slots_map(before)[k] < n);
                }
            }
            assert forall|i: int| 0 <= i < tmps@.len() implies (#[trigger] tmps@[i]).1 < cells@.len() by {
                assert(tmps@[i].1 < n);
            }
            lemma_read_bind(slots_map(before), old_cells, name@, n, vd);
            lemma_read_push(slots_map(tmps@), old_cells, vd);
        }
        self.cells = cells;
        self.env = env;
        self.tmp_store = tmps;
        previous
    }

    /// Binds the temporary `name` to a new cell holding `value`; returns a copy of
    /// its previous value.
    pub fn map_tmp(&mut self, name: String, value: Value) -> (r: Option<Value>)
        ensures
            final(self).tmps() == old(self).tmps().insert(name@, value.deep()),
            final(self).values() == old(self).values(),
            final(self).cells() == old(self).cells().push(value.deep()),
            final(self).tmp_cells() == old(self).tmp_cells().insert(name@, old(self).cells().len() as usize),
            final(self).value_cells() == old(self).value_cells(),
            final(self).inv(),
            r is Some <==> old(self).tmps().dom().contains(name@),
            r matches Some(v) ==> v.deep() == old(self).tmps()[name@],
    {
        proof {
            use_type_invariant(&*self);
        }
        let previous = self.get_tmp(name.as_str());
        let ghost vd = value.deep();
        let ghost old_cells = self.cells();
        let n = self.cells.len();
        let mut env: Vec<(String, usize)> = Vec::new();
        std::mem::swap(&mut env, &mut self.env);
        let mut tmps: Vec<(String, usize)> = Vec::new();
        std::mem::swap(&mut tmps, &mut self.tmp_store);
        let mut cells: Vec<Value> = Vec::new();
        std::mem::swap(&mut cells, &mut self.cells);
        cells.push(value);
        let ghost before = tmps@;
        let _ = put(&mut tmps, name, n);
        proof {
            assert(cell_views(cells@) =~= old_cells.push(vd));
            lemma_slots_below(before, n as nat);
            lemma_slots_below(env@, n as nat);
            assert forall|i: int| 0 <= i < tmps@.len() implies (#[trigger] tmps@[i]).1 < cells@.len() by {
                let k = tmps@[i].0@;
                assert(has_key(tmps@, k));
                let j = key_index(tmps@, k);
                assert(0 <= j < tmps@.len() && tmps@[j].0@ == k);
                if j < i {
                    assert(tmps@[j].0@ != tmps@[i].0@);
                } else if j > i {
                    assert(tmps@[i].0@ != tmps@[j].0@);
                }
                assert(slots_map(tmps@)[k] == tmps@[i].1);
                if k != name@ {
                    assert(slots_map(tmps@).dom().contains(k));
                    assert(slots_map(tmps@) == slots_map(before).insert(name@, n));
                    assert(slots_map(before).insert(name@, n).dom().contains(k));
                    assert(slots_map(before).dom().contains(k));
                    assert(slots_map(before)[k] < n);
                }
            }
            assert forall|i: int| 0 <= i < env@.len() implies (#[trigger] env@[i]).1 < cells@.len() by {
                assert(env@[i].1 < n);
            }
            lemma_read_bind(slots_map(before), old_cells, name@, n, vd);
            lemma_read_push(slots_map(env@), old_cells, vd);
        }
        self.cells = cells;
        self.env = env;
        self.tmp_store = tmps;
        previous
    }

    /// A copy of the value in cell `c`.
    fn read_cell(&self, c: usize) -> (r: Value)
        requires
            c < self.cells().len(),
        ensures
            r.deep() == self.cells()[c as int],
    {
        self.cells[c].duplicate()
    }

    /// A copy of the value bound to `name`.
    pub fn get_value(&self, name: &str) -> (r: Option<Value>)
        ensures
            r is Some <==> self.values().dom().contains(name@),
            r matches Some(v) ==> v.deep() == self.values()[name@],
    {
        proof {
            use_type_invariant(self);
            Self::lemma_cells_exist(*self);
        }
        match lookup(&self.env, name) {
            Some(c) => Some(self.read_cell(c)),
            None => None,
        }
    }

    /// A handle on the cell bound to `name`: what is written through it is what
    /// `name` reads afterwards.
    pub fn ref_value(&self, name: &str) -> (r: Option<ReferableValue>)
        ensures
            r is Some <==> self.value_cells().dom().contains(name@),
            r matches Some(h) ==> h.cell() == self.value_cells()[name@],
    {
        proof {
            use_type_invariant(self);
        }
        match lookup(&self.env, name) {
            Some(c) => Some(ReferableValue { cell: c }),
            None => None,
        }
    }

    /// A copy of the temporary `name`.
    pub fn get_tmp(&self, name: &str) -> (r: Option<Value>)
        ensures
            r is Some <==> self.tmps().dom().contains(name@),
            r matches Some(v) ==> v.deep() == self.tmps()[name@],
    {
        proof {
            use_type_invariant(self);
            Self::lemma_cells_exist(*self);
        }
        match lookup(&self.tmp_store, name) {
            Some(c) => Some(self.read_cell(c)),
            None => None,
        }
    }

    /// A handle on the cell of the temporary `name`.
    pub fn ref_tmp(&self, name: &str) -> (r: Option<ReferableValue>)
        ensures
            r is Some <==> self.tmp_cells().dom().contains(name@),
            r matches Some(h) ==> h.cell() == self.tmp_cells()[name@],
    {
        proof {
            use_type_invariant(self);
        }
        match lookup(&self.tmp_store, name) {
            Some(c) => Some(ReferableValue { cell: c }),
            None => None,
        }
    }

    /// The value bound to `name`, or else the temporary `name`.
    pub fn get(&self, name: &str) -> (r: Option<Value>)
        ensures
            r is Some <==> (self.values().dom().contains(name@) || self.tmps().dom().contains(name@)),
            r matches Some(v) ==> v.deep() == if self.values().dom().contains(name@) {
                self.values()[name@]
            } else {
                self.tmps()[name@]
            },
    {
        match self.get_value(name) {
            Some(v) => Some(v),
            None => self.get_tmp(name),
        }
    }

    /// A handle on the cell bound to `name`, or else on that of the temporary `name`.
    pub fn get_ref(&self, name: &str) -> (r: Option<ReferableValue>)
        ensures
            r is Some <==> (self.value_cells().dom().contains(name@) || self.tmp_cells().dom().contains(name@)),
            r matches Some(h) ==> h.cell() == if self.value_cells().dom().contains(name@) {
                self.value_cells()[name@]
            } else {
                self.tmp_cells()[name@]
            },
    {
        match self.ref_value(name) {
            Some(v) => Some(v),
            None => self.ref_tmp(name),
        }
    }

    /// A copy of the value in the cell that `r` refers to, if it is a cell of this
    /// store.
    pub fn read_ref(&self, r: &ReferableValue) -> (v: Option<Value>)
        ensures
            v is Some <==> r.cell() < self.cells().len(),
            v matches Some(x) ==> x.deep() == self.cells()[r.cell() as int],
    {
        if r.cell < self.cells.len() {
            Some(self.read_cell(r.cell))
        } else {
            None
        }
    }

    /// Writes `value` into the cell that `r` refers to; `false`, with nothing
    /// changed, when it is no cell of this store.
    pub fn write_ref(&mut self, r: &ReferableValue, value: Value) -> (ok: bool)
        ensures
            ok == (r.cell() < old(self).cells().len()),
            ok ==> final(self).cells() == old(self).cells().update(r.cell() as int, value.deep()),
            !ok ==> final(self).cells() == old(self).cells(),
            final(self).value_cells() == old(self).value_cells(),
            final(self).tmp_cells() == old(self).tmp_cells(),
            final(self).inv(),
    {
        proof {
            use_type_invariant(&*self);
        }
        if r.cell < self.cells.len() {
            let ghost vd = value.deep();
            let ghost old_cells = self.cells();
            let mut env: Vec<(String, usize)> = Vec::new();
            std::mem::swap(&mut env, &mut self.env);
            let mut tmps: Vec<(String, usize)> = Vec::new();
            std::mem::swap(&mut tmps, &mut self.tmp_store);
            let mut cells: Vec<Value> = Vec::new();
            std::mem::swap(&mut cells, &mut self.cells);
            cells.set(r.cell, value);
            proof {
                assert(cell_views(cells@) =~= old_cells.update(r.cell as int, vd));
            }
            self.cells = cells;
            self.env = env;
            self.tmp_store = tmps;
            true
        } else {
            false
        }
    }

    /// Forgets every temporary. Handles on their cells stay readable.
    pub fn wipe_tmps(&mut self)
        ensures
            final(self).tmps() == Map::<Seq<char>, ValueView>::empty(),
            final(self).values() == old(self).values(),
            final(self).cells() == old(self).cells(),
            final(self).value_cells() == old(self).value_cells(),
            final(self).inv(),
    {
        proof {
            use_type_invariant(&*self);
        }
        self.tmp_store = Vec::new();
        assert(slots_map(self.tmp_store@) =~= Map::<Seq<char>, usize>::empty());
        assert(self.tmps() =~= Map::<Seq<char>, ValueView>::empty());
    }
}

/// A write through the handle that `ref_value(name)` gives is what `name` reads
/// afterwards: the handle and the binding share one cell.
pub proof fn law_write_through_ref(before: Env, after: Env, name: Seq<char>, h: ReferableValue, v: ValueView)
    requires
        before.inv(),
        h.cell() < before.cells().len(),
        before.value_cells().dom().contains(name),
        h.cell() == before.value_cells()[name],
        after.value_cells() == before.value_cells(),
        after.cells() == before.cells().update(h.cell() as int, v),
    ensures
        after.values().dom().contains(name),
        after.values()[name] == v,
{
    Env::lemma_cells_exist(before);
}

/// Writing through a handle changes only the names bound to its cell.
pub proof fn law_write_keeps_others(before: Env, after: Env, other: Seq<char>, h: ReferableValue, v: ValueView)
    requires
        before.inv(),
        h.cell() < before.cells().len(),
        before.value_cells().dom().contains(other),
        before.value_cells()[other] != h.cell(),
        after.value_cells() == before.value_cells(),
        after.cells() == before.cells().update(h.cell() as int, v),
    ensures
        after.values()[other] == before.values()[other],
{
    Env::lemma_cells_exist(before);
    let c = before.value_cells()[other];
    assert(c < before.cells().len());
    assert(after.cells()[c as int] == before.cells()[c as int]);
}

/// After binding `name` to `v`, reading `name` gives `v`, and every other name
/// reads as before.
pub proof fn law_read_after_bind(before: Map<Seq<char>, ValueView>, name: Seq<char>, v: ValueView, other: Seq<char>)
    requires
        other != name,
    ensures
        before.insert(name, v).dom().contains(name),
        before.insert(name, v)[name] == v,
        before.insert(name, v).dom().contains(other) == before.dom().contains(other),
        before.dom().contains(other) ==> before.insert(name, v)[other] == before[other],
{
}

/// Binding a name twice keeps only the second value.
pub proof fn law_bind_twice(before: Map<Seq<char>, ValueView>, name: Seq<char>, v1: ValueView, v2: ValueView)
    ensures
        before.insert(name, v1).insert(name, v2) == before.insert(name, v2),
{
    assert(before.insert(name, v1).insert(name, v2) =~= before.insert(name, v2));
}

} // verus!

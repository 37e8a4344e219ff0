//! Checking a whole program: its modules, their `use` declarations, struct
//! types, function types, control flow and function bodies.

use vstd::prelude::*;

use crate::ast::{UseDecl, BuiltinFnParams, DeclStmt, FnParameter, Ident, Module, ModulePath, TypeAnnotation};
use crate::control_flow::{branches_both_ways, edges_at, return_closed, stmts_cost, trace_start, first_jump_error, jump_error, nodes_in_place, return_trace, returns_on_all_paths, stmts_cost_capped, stmts_well_shaped, CFG};
use crate::error::{AnalysisError, TypeError};
use crate::span::Span;
use crate::type_checker::{
    ann_resolves, denotes, fns_unique, intern_fn_type, lemma_denotes_extends, lemma_table_extends_trans, names_equal, same_name,
    table_extends, type_check, type_from_ann, TypeChecker,
};
use crate::types::{AbstractType, RecordType, TypeTable};

verus! {

/// A checked function: its module (by position), name, type, and, unless it is a
/// builtin, its control-flow graph.
pub struct FnInfo {
    pub module: usize,
    pub name: Ident,
    pub fn_type: AbstractType,
    pub cfg: Option<CFG>,
}

/// A checked program.
pub struct CheckedProgram {
    pub table: TypeTable,
    pub module_names: Vec<Ident>,
    pub fns: Vec<FnInfo>,
}

/// The index of the last function of `fns` in module `module` named `name`.
pub open spec fn last_fn(fns: Seq<FnInfo>, module: usize, name: Seq<char>) -> Option<usize>
    decreases fns.len(),
{
    if fns.len() == 0 {
        None
    } else if fns.last().module == module && fns.last().name.0@ == name {
        Some((fns.len() - 1) as usize)
    } else {
        last_fn(fns.drop_last(), module, name)
    }
}

/// The function at index `i` is named `main`.
pub open spec fn is_main(fns: Seq<FnInfo>, i: int) -> bool {
    fns[i].name.0@ == "main"@
}

/// Two modules each have a function named `main`.
pub open spec fn mains_in_two_modules(fns: Seq<FnInfo>) -> bool {
    exists|i: int, j: int|
        0 <= i < fns.len() && 0 <= j < fns.len() && #[trigger] is_main(fns, i) && #[trigger] is_main(fns, j)
            && fns[i].module != fns[j].module
}

impl CheckedProgram {
    /// The function named `name` in module `module`; where a module declares two
    /// functions of one name, the later one.
    pub fn module_fn(&self, module: usize, name: &Ident) -> (r: Option<usize>)
        ensures
            r == last_fn(self.fns@, module, name.0@),
    {
        let mut i: usize = self.fns.len();
        assert(self.fns@.subrange(0, i as int) =~= self.fns@);
        while i > 0
            invariant
                i <= self.fns@.len(),
                last_fn(self.fns@, module, name.0@) == last_fn(self.fns@.subrange(0, i as int), module, name.0@),
            decreases i,
        {
            let f = &self.fns[i - 1];
            proof {
                assert(self.fns@.subrange(0, i as int).drop_last() =~= self.fns@.subrange(0, i - 1));
            }
            if f.module == module && names_equal(&f.name, name) {
                return Some(i - 1);
            }
            i = i - 1;
        }
        None
    }

    /// Whether function `f` is a builtin: a function declared without a body.
    pub fn is_builtin(&self, f: usize) -> (r: bool)
        requires
            f < self.fns@.len(),
        ensures
            r == (self.fns@[f as int].cfg is None),
    {
        self.fns[f].cfg.is_none()
    }

    /// Whether function `f` is a builtin whose parameters are not checked.
    pub fn is_builtin_params_unchecked(&self, f: usize) -> (r: bool)
        requires
            f < self.fns@.len(),
        ensures
            r == (self.fns@[f as int].fn_type is UncheckedFunction),
    {
        match self.fns[f].fn_type {
            AbstractType::UncheckedFunction(_) => true,
            _ => false,
        }
    }

    /// The program's entry point: the function named `main`. At most one module may
    /// have one; where that module declares two, the later one counts.
    pub fn find_main(&self) -> (r: Result<Option<usize>, AnalysisError>)
        ensures
            r is Err <==> mains_in_two_modules(self.fns@),
            r is Err ==> r == Err::<Option<usize>, AnalysisError>(AnalysisError::MultipleMainFns),
            r == Ok::<Option<usize>, AnalysisError>(None) <==> forall|i: int| 0 <= i < self.fns@.len() ==> !#[trigger] is_main(self.fns@, i),
            r matches Ok(Some(k)) ==> k < self.fns@.len() && is_main(self.fns@, k as int)
                && forall|i: int| k < i < self.fns@.len() ==> !#[trigger] is_main(self.fns@, i),
    {
        let main_name = Ident("main".to_string());
        proof {
            reveal_strlit("main");
        }
        let mut found: Option<usize> = None;
        let mut i: usize = 0;
        while i < self.fns.len()
            invariant
                i <= self.fns@.len(),
                main_name.0@ == "main"@,
                found is None <==> forall|j: int| 0 <= j < i ==> !#[trigger] is_main(self.fns@, j),
                found matches Some(k) ==> k < i && is_main(self.fns@, k as int)
                    && (forall|j: int| k < j < i ==> !#[trigger] is_main(self.fns@, j))
                    && (forall|j: int| 0 <= j < i && #[trigger] is_main(self.fns@, j) ==> self.fns@[j].module == self.fns@[k as int].module),
            decreases self.fns.len() - i,
        {
            let is_m = names_equal(&self.fns[i].name, &main_name);
            assert(is_m == is_main(self.fns@, i as int));
            if is_m {
                match found {
                    Some(k) => {
                        if self.fns[k].module != self.fns[i].module {
                            proof {
                                assert(is_main(self.fns@, k as int) && is_main(self.fns@, i as int));
                            }
                            return Err(AnalysisError::MultipleMainFns);
                        }
                    },
                    None => {},
                }
                found = Some(i);
            }
            i = i + 1;
        }
        proof {
            if mains_in_two_modules(self.fns@) {
                let (a, b) = choose|a: int, b: int|
                    0 <= a < self.fns@.len() && 0 <= b < self.fns@.len() && #[trigger] is_main(self.fns@, a)
                        && #[trigger] is_main(self.fns@, b) && self.fns@[a].module != self.fns@[b].module;
                let k = found->0;
                assert(self.fns@[a].module == self.fns@[k as int].module);
                assert(self.fns@[b].module == self.fns@[k as int].module);
            }
        }
        Ok(found)
    }
}

/// The struct that a value of type `t` holds inline: a record type, or the
/// element type of an array, through nested arrays.
pub open spec fn inline_record(t: AbstractType) -> Option<u64>
    decreases t,
{
    match t {
        AbstractType::Record(i) => Some(i),
        AbstractType::Array { element_type, .. } => inline_record(*element_type),
        _ => None,
    }
}

/// Struct `b` is held inline by a field of struct `a`.
pub open spec fn holds(records: Seq<RecordType>, a: int, b: int) -> bool {
    &&& 0 <= a < records.len()
    &&& 0 <= b < records.len()
    &&& exists|j: int|
        0 <= j < records[a].fields@.len() && #[trigger] inline_record(records[a].fields@[j].1) == Some(
            b as u64,
        )
}

/// `c` is a chain of structs from `root`, each holding the next inline.
pub open spec fn chain_from(records: Seq<RecordType>, root: int, c: Seq<int>) -> bool {
    &&& c.len() > 0
    &&& c[0] == root
    &&& forall|i: int, j: int| 0 <= i && j == i + 1 && j < c.len() ==> #[trigger] holds(records, c[i], c[j])
}

/// A chain of `k` struct fields, each holding the next struct inline, leads from
/// struct `root` to struct `r`.
pub open spec fn nests(records: Seq<RecordType>, root: int, r: int, k: nat) -> bool {
    exists|c: Seq<int>| #[trigger] chain_from(records, root, c) && c.len() == k + 1 && c.last() == r
}

/// Some chain of struct fields from `root` is as deep as there are structs, so it
/// meets some struct twice: the struct holds a cycle of structs.
pub open spec fn nests_cyclically(records: Seq<RecordType>, root: int) -> bool {
    exists|x: int| 0 <= x < records.len() && #[trigger] nests(records, root, x, records.len())
}

/// No level of nesting is the root itself.
proof fn lemma_nests_zero(records: Seq<RecordType>, root: int, z: int)
    ensures
        nests(records, root, z, 0) == (z == root),
{
    if z == root {
        let c = seq![root];
        assert(chain_from(records, root, c));
    }
}

/// One more level of nesting: the structs held by those `k` levels deep.
proof fn lemma_nests_step(records: Seq<RecordType>, root: int, z: int, k: nat)
    ensures
        nests(records, root, z, k + 1) == (exists|p: int| #[trigger] nests(records, root, p, k) && holds(records, p, z)),
{
    if nests(records, root, z, k + 1) {
        let c = choose|c: Seq<int>| #[trigger] chain_from(records, root, c) && c.len() == k + 2 && c.last() == z;
        let d = c.drop_last();
        assert forall|i: int, j: int| 0 <= i && j == i + 1 && j < d.len() implies #[trigger] holds(records, d[i], d[j]) by {
            assert(holds(records, c[i], c[j]));
        }
        assert(chain_from(records, root, d));
        assert(holds(records, c[k as int], c[k as int + 1]));
        assert(nests(records, root, d.last(), k));
    }
    if exists|p: int| #[trigger] nests(records, root, p, k) && holds(records, p, z) {
        let p = choose|p: int| #[trigger] nests(records, root, p, k) && holds(records, p, z);
        let c = choose|c: Seq<int>| #[trigger] chain_from(records, root, c) && c.len() == k + 1 && c.last() == p;
        let d = c.push(z);
        assert forall|i: int, j: int| 0 <= i && j == i + 1 && j < d.len() implies #[trigger] holds(records, d[i], d[j]) by {
            if j < c.len() {
                assert(holds(records, c[i], c[j]));
            }
        }
        assert(chain_from(records, root, d));
    }
}

/// A chain of struct fields as deep as there are structs meets some struct twice,
/// so the nesting that [`cyclic_type_check`] refuses is a cycle of structs.
pub proof fn law_deep_nesting_repeats(records: Seq<RecordType>, root: int, x: int)
    requires
        0 <= root < records.len(),
        nests(records, root, x, records.len()),
    ensures
        exists|c: Seq<int>, i: int, j: int|
            #![trigger chain_from(records, root, c), c[i], c[j]]
            chain_from(records, root, c) && 0 <= i < j < c.len() && c[i] == c[j],
{
    let n = records.len();
    let c = choose|c: Seq<int>| #[trigger] chain_from(records, root, c) && c.len() == n + 1 && c.last() == x;
    assert forall|k: int| 0 <= k < c.len() implies 0 <= #[trigger] c[k] < n by {
        if k > 0 {
            assert(holds(records, c[k - 1], c[k]));
        }
    }
    if !c.no_duplicates() {
        let (i, j) = choose|i: int, j: int| 0 <= i < c.len() && 0 <= j < c.len() && i != j && c[i] == c[j];
        if i < j {
            assert(chain_from(records, root, c) && 0 <= i < j < c.len() && c[i] == c[j]);
        } else {
            assert(chain_from(records, root, c) && 0 <= j < i < c.len() && c[j] == c[i]);
        }
    } else {
        c.unique_seq_to_set();
        vstd::set_lib::lemma_int_range(0, n as int);
        assert(c.to_set().subset_of(vstd::set_lib::set_int_range(0, n as int)));
        vstd::set_lib::lemma_len_subset(c.to_set(), vstd::set_lib::set_int_range(0, n as int));
        assert(false);
    }
}

/// Following a chain from `root` into a cycle of structs `d` (which starts and
/// ends at the chain's last struct) and around it: a chain of `k + 1` structs.
proof fn lemma_long_chain(records: Seq<RecordType>, root: int, c: Seq<int>, d: Seq<int>, k: nat) -> (e: Seq<int>)
    requires
        chain_from(records, root, c),
        chain_from(records, c.last(), d),
        d.len() > 1,
        d.last() == c.last(),
    ensures
        chain_from(records, root, e),
        e.len() == k + 1,
        (k + 1 <= c.len() && e == c.take(k as int + 1)) || exists|p: int| 0 <= p < d.len() - 1 && e.last() == #[trigger] d[p],
    decreases k,
{
    if k + 1 <= c.len() {
        let e = c.take(k as int + 1);
        assert forall|i: int, j: int| 0 <= i && j == i + 1 && j < e.len() implies #[trigger] holds(records, e[i], e[j]) by {
            assert(holds(records, c[i], c[j]));
        }
        e
    } else {
        let e0 = lemma_long_chain(records, root, c, d, (k - 1) as nat);
        let l = d.len() - 1;
        let p: int = if k == c.len() && e0 == c.take(k as int) {
            0
        } else {
            choose|p: int| 0 <= p < d.len() - 1 && e0.last() == #[trigger] d[p]
        };
        if k == c.len() && e0 == c.take(k as int) {
            assert(e0 =~= c);
            assert(e0.last() == d[0]);
        }
        assert(0 <= p < l && e0.last() == d[p]);
        assert(holds(records, d[p], d[p + 1]));
        let e = e0.push(d[p + 1]);
        assert forall|i: int, j: int| 0 <= i && j == i + 1 && j < e.len() implies #[trigger] holds(records, e[i], e[j]) by {
            if j < e0.len() {
                assert(holds(records, e0[i], e0[j]));
            }
        }
        if p + 1 < l {
            assert(e.last() == d[p + 1]);
        } else {
            assert(d[p + 1] == d[0]);
            assert(e.last() == d[0]);
        }
        e
    }
}

/// A struct reached from `root` that holds itself through a cycle of structs `d`
/// makes chains of struct fields from `root` of every depth, so
/// [`cyclic_type_check`] refuses `root`.
pub proof fn law_cycle_nests_deeply(records: Seq<RecordType>, root: int, c: Seq<int>, d: Seq<int>, k: nat)
    requires
        chain_from(records, root, c),
        chain_from(records, c.last(), d),
        d.len() > 1,
        d.last() == c.last(),
    ensures
        exists|x: int| #[trigger] nests(records, root, x, k),
{
    let e = lemma_long_chain(records, root, c, d, k);
    assert(nests(records, root, e.last(), k));
}

/// The struct that a value of type `t` holds inline.
fn record_in(t: &AbstractType) -> (r: Option<u64>)
    ensures
        r == inline_record(*t),
    decreases t,
{
    match t {
        AbstractType::Record(i) => Some(*i),
        AbstractType::Array { element_type, .. } => record_in(element_type),
        _ => None,
    }
}

/// Refuses a struct type that holds itself: following the fields that hold
/// structs inline (through arrays) from struct `root`, level by level, as many
/// levels deep as there are structs, must come to an end.
#[verifier::loop_isolation(false)]
pub fn cyclic_type_check(table: &TypeTable, root: u64) -> (r: Result<(), AnalysisError>)
    requires
        root < table.records@.len(),
    ensures
        r is Err <==> nests_cyclically(table.records@, root as int),
        r is Err ==> r == Err::<(), AnalysisError>(AnalysisError::TypeError(TypeError::CyclicType(root))),
{
    let n = table.records.len();
    let mut cur: Vec<bool> = Vec::new();
    let mut x: usize = 0;
    while x < n
        invariant
            x <= n,
            cur@.len() == x,
            forall|y: int| 0 <= y < x ==> cur@[y] == (y == root),
        decreases n - x,
    {
        cur.push(x as u64 == root);
        x = x + 1;
    }
    let mut k: usize = 0;
    proof {
        assert forall|y: int| 0 <= y < n implies cur@[y] == #[trigger] nests(table.records@, root as int, y, 0) by {
            lemma_nests_zero(table.records@, root as int, y);
        }
    }
    while k < n
        invariant
            k <= n,
            cur@.len() == n,
            forall|y: int| 0 <= y < n ==> cur@[y] == #[trigger] nests(table.records@, root as int, y, k as nat),
        decreases n - k,
    {
        let mut nxt: Vec<bool> = Vec::new();
        let mut y: usize = 0;
        while y < n
            invariant
                y <= n,
                nxt@.len() == y,
                forall|z: int| 0 <= z < y ==> !nxt@[z],
            decreases n - y,
        {
            nxt.push(false);
            y = y + 1;
        }
        let mut p: usize = 0;
        while p < n
            invariant
                p <= n,
                nxt@.len() == n,
                cur@.len() == n,
                forall|z: int| 0 <= z < n ==> cur@[z] == #[trigger] nests(table.records@, root as int, z, k as nat),
                forall|z: int| 0 <= z < n ==> nxt@[z] == (exists|q: int| 0 <= q < p && #[trigger] nests(table.records@, root as int, q, k as nat) && holds(table.records@, q, z)),
            decreases n - p,
        {
            if cur[p] {
                let fields = &table.records[p].fields;
                let mut j: usize = 0;
                while j < fields.len()
                    invariant
                        j <= fields@.len(),
                        nxt@.len() == n,
                        forall|z: int| 0 <= z < n ==> nxt@[z] == ((exists|q: int| 0 <= q < p && #[trigger] nests(table.records@, root as int, q, k as nat) && holds(table.records@, q, z))
                            || exists|i: int| 0 <= i < j && #[trigger] inline_record(fields@[i].1) == Some(z as u64)),
                    decreases fields.len() - j,
                {
                    match record_in(&fields[j].1) {
                        Some(s) => {
                            if s < n as u64 {
                                nxt.set(s as usize, true);
                            }
                        },
                        None => {},
                    }
                    j = j + 1;
                }
            }
            proof {
                assert forall|z: int| 0 <= z < n implies nxt@[z] == (exists|q: int|
                    0 <= q < p + 1 && #[trigger] nests(table.records@, root as int, q, k as nat) && holds(table.records@, q, z)) by {
                    if nests(table.records@, root as int, p as int, k as nat) && holds(table.records@, p as int, z) {
                        let j = choose|j: int|
                            0 <= j < table.records@[p as int].fields@.len() && #[trigger] inline_record(
                                table.records@[p as int].fields@[j].1,
                            ) == Some(z as u64);
                        assert(cur@[p as int]);
                    }
                }
            }
            p = p + 1;
        }
        proof {
            let kn: nat = k as nat;
            assert((k + 1) as nat == kn + 1);
            assert forall|z: int| 0 <= z < n implies nxt@[z] == #[trigger] nests(table.records@, root as int, z, (k + 1) as nat) by {
                lemma_nests_step(table.records@, root as int, z, kn);
                if nxt@[z] {
                    let q = choose|q: int| 0 <= q < n && #[trigger] nests(table.records@, root as int, q, kn) && holds(table.records@, q, z);
                    assert(nests(table.records@, root as int, q, kn) && holds(table.records@, q, z));
                }
                if nests(table.records@, root as int, z, kn + 1) {
                    let q = choose|q: int| #[trigger] nests(table.records@, root as int, q, kn) && holds(table.records@, q, z);
                    assert(0 <= q < n);
                }
            }
        }
        cur = nxt;
        k = k + 1;
    }
    let mut y: usize = 0;
    while y < n
        invariant
            y <= n,
            forall|z: int| 0 <= z < y ==> !#[trigger] nests(table.records@, root as int, z, n as nat),
        decreases n - y,
    {
        if cur[y] {
            assert(nests(table.records@, root as int, y as int, table.records@.len()));
            return Err(AnalysisError::TypeError(TypeError::CyclicType(root)));
        }
        y = y + 1;
    }
    Ok(())
}

/// Some module has no `mod name;` declaration.
pub open spec fn some_module_unnamed(ms: Seq<Module>) -> bool {
    exists|i: int| 0 <= i < ms.len() && (#[trigger] ms[i]).0 is None
}

/// Every `use` declaration names a module of the program.
pub open spec fn uses_resolve(ms: Seq<Module>) -> bool {
    forall|i: int, j: int|
        0 <= i < ms.len() && 0 <= j < ms[i].1@.len() ==> (#[trigger] ms[i].1@[j] matches DeclStmt::Use(u, _)
            ==> exists|k: int| 0 <= k < ms.len() && (#[trigger] ms[k].0 matches Some(n) && same_name(n, u.0)))
}

/// The `use` declaration names a module of the program.
pub open spec fn use_resolves(ms: Seq<Module>, u: UseDecl) -> bool {
    exists|k: int| 0 <= k < ms.len() && (#[trigger] ms[k].0 matches Some(n) && same_name(n, u.0))
}

/// The `use` declaration `u` is the `j`-th declaration of module `i`, it names no
/// module, and every `use` declaration before it (by module, then by position)
/// names one.
pub open spec fn first_unresolved(ms: Seq<Module>, i: int, j: int, u: UseDecl) -> bool {
    &&& 0 <= i < ms.len()
    &&& 0 <= j < ms[i].1@.len()
    &&& ms[i].1@[j] matches DeclStmt::Use(v, _) && v == u
    &&& !use_resolves(ms, u)
    &&& forall|a: int, b: int|
        0 <= a < ms.len() && 0 <= b < ms[a].1@.len() && (a < i || (a == i && b < j)) ==> (#[trigger] ms[a].1@[b] matches DeclStmt::Use(
            w,
            _,
        ) ==> use_resolves(ms, w))
}

/// The number of struct declarations among `ds`.
pub open spec fn structs_in(ds: Seq<DeclStmt>) -> nat
    decreases ds.len(),
{
    if ds.len() == 0 {
        0
    } else {
        structs_in(ds.drop_last()) + if ds.last() is Struct {
            1nat
        } else {
            0nat
        }
    }
}

/// The number of struct declarations in the first `i` modules.
pub open spec fn structs_before(ms: Seq<Module>, i: int) -> nat
    decreases i,
{
    if i <= 0 {
        0
    } else {
        structs_before(ms, i - 1) + structs_in(ms[i - 1].1@)
    }
}

proof fn lemma_structs_in_prefix(ds: Seq<DeclStmt>, j: int)
    requires
        0 <= j <= ds.len(),
    ensures
        structs_in(ds.subrange(0, j)) <= structs_in(ds),
    decreases ds.len() - j,
{
    if j < ds.len() {
        assert(ds.subrange(0, j + 1).drop_last() =~= ds.subrange(0, j));
        lemma_structs_in_prefix(ds, j + 1);
    } else {
        assert(ds.subrange(0, j) =~= ds);
    }
}

proof fn lemma_structs_before_mono(ms: Seq<Module>, i: int, j: int)
    requires
        i <= j,
    ensures
        structs_before(ms, i) <= structs_before(ms, j),
    decreases j - i,
{
    if i < j {
        lemma_structs_before_mono(ms, i, j - 1);
    }
}

/// Every declaration is a `use` declaration or a function without parameters,
/// without a return type and with an empty body.
pub open spec fn uses_and_empty_fns(ms: Seq<Module>) -> bool {
    forall|i: int, j: int|
        0 <= i < ms.len() && 0 <= j < ms[i].1@.len() ==> match #[trigger] ms[i].1@[j] {
            DeclStmt::Use(_, _) => true,
            DeclStmt::Function(f, _) => f.params is None && f.return_type is None && f.body.0@.len() == 0,
            _ => false,
        }
}

/// The number of function declarations (builtin or not) among `ds`.
pub open spec fn fns_in(ds: Seq<DeclStmt>) -> nat
    decreases ds.len(),
{
    if ds.len() == 0 {
        0
    } else {
        fns_in(ds.drop_last()) + if ds.last() is Function || ds.last() is BuiltinFunction {
            1nat
        } else {
            0nat
        }
    }
}

/// The number of function declarations in the first `i` modules.
pub open spec fn fns_before(ms: Seq<Module>, i: int) -> nat
    decreases i,
{
    if i <= 0 {
        0
    } else {
        fns_before(ms, i - 1) + fns_in(ms[i - 1].1@)
    }
}

/// Every declaration of the modules is a `use` declaration.
pub open spec fn only_uses(ms: Seq<Module>) -> bool {
    forall|i: int, j: int| 0 <= i < ms.len() && 0 <= j < ms[i].1@.len() ==> (#[trigger] ms[i].1@[j]) is Use
}

/// No function of the modules has a `break` or `continue` outside a loop.
pub open spec fn jumps_ok(ms: Seq<Module>) -> bool {
    forall|i: int, j: int|
        0 <= i < ms.len() && 0 <= j < ms[i].1@.len() ==> (#[trigger] ms[i].1@[j] matches DeclStmt::Function(f, _)
            ==> jump_error(f.body.0@, 0, false) is None)
}

/// A copy of a list of name bindings.
fn dup_bindings(v: &Vec<(ModulePath, AbstractType)>) -> (r: Vec<(ModulePath, AbstractType)>)
    ensures
        r@.len() == v@.len(),
{
    let mut out: Vec<(ModulePath, AbstractType)> = Vec::new();
    let mut i: usize = 0;
    while i < v.len()
        invariant
            i <= v@.len(),
            out@.len() == i,
        decreases v.len() - i,
    {
        out.push((v[i].0.duplicate(), v[i].1.duplicate()));
        i = i + 1;
    }
    out
}

/// The path `name`.
fn single(name: &Ident) -> (r: ModulePath)
    ensures
        r.0@ == seq![*name],
{
    let r = ModulePath(vec![name.duplicate()]);
    assert(r.0@ =~= seq![*name]);
    r
}

/// The path `module::name`.
fn prefixed(module: &Ident, name: &Ident) -> (r: ModulePath)
    ensures
        r.0@ == seq![*module, *name],
{
    let r = ModulePath(vec![module.duplicate(), name.duplicate()]);
    assert(r.0@ =~= seq![*module, *name]);
    r
}

/// The types of a function's parameters, in the scope of `names`: each
/// parameter with the type its annotation denotes. An annotation that names a
/// type not in scope is an error.
fn param_types(table: &mut TypeTable, params: &Option<Vec<FnParameter>>, span: Span) -> (r: Result<
    Vec<(Ident, AbstractType)>,
    AnalysisError,
>)
    requires
        fns_unique(old(table)),
    ensures
        fns_unique(final(table)),
        final(table).names@ == old(table).names@,
        final(table).records@ == old(table).records@,
        table_extends(old(table), final(table)),
        r is Ok <==> match *params {
            Some(ps) => forall|k: int| 0 <= k < ps@.len() ==> ann_resolves(old(table).names@, #[trigger] ps@[k].param_type),
            None => true,
        },
        r matches Ok(out) ==> match *params {
            Some(ps) => {
                &&& out@.len() == ps@.len()
                &&& forall|k: int| 0 <= k < ps@.len() ==> (#[trigger] out@[k]).0 == ps@[k].name
                    && denotes(final(table), ps@[k].param_type, out@[k].1)
            },
            None => out@.len() == 0,
        },
{
    let mut out: Vec<(Ident, AbstractType)> = Vec::new();
    match params {
        Some(ps) => {
            let mut k: usize = 0;
            while k < ps.len()
                invariant
                    k <= ps@.len(),
                    *params == Some(*ps),
                    fns_unique(table),
                    table.names@ == old(table).names@,
                    table.records@ == old(table).records@,
                    table_extends(old(table), table),
                    out@.len() == k,
                    forall|j: int| 0 <= j < k ==> ann_resolves(old(table).names@, #[trigger] ps@[j].param_type),
                    forall|j: int| 0 <= j < k ==> (#[trigger] out@[j]).0 == ps@[j].name
                        && denotes(table, ps@[j].param_type, out@[j].1),
                decreases ps.len() - k,
            {
                let ghost before = *table;
                let ghost out0 = out@;
                let t = match type_from_ann(table, &ps[k].param_type, span) {
                    Ok(t) => t,
                    Err(e) => {
                        assert(!ann_resolves(old(table).names@, ps@[k as int].param_type));
                        return Err(e);
                    },
                };
                out.push((ps[k].name.duplicate(), t));
                proof {
                    lemma_table_extends_trans(old(table), &before, table);
                    assert forall|j: int| 0 <= j < k + 1 implies (#[trigger] out@[j]).0 == ps@[j].name
                        && denotes(table, ps@[j].param_type, out@[j].1) by {
                        if j < k {
                            assert(out@[j] == out0[j]);
                            lemma_denotes_extends(&before, table, ps@[j].param_type, out0[j].1);
                        }
                    }
                }
                k = k + 1;
            }
        },
        None => {
            assert(table_extends(old(table), table));
        },
    }
    Ok(out)
}

/// The declared return type of a function: the type its annotation denotes, or
/// unit when none is written.
fn return_type_of(table: &mut TypeTable, ann: &Option<TypeAnnotation>, span: Span) -> (r: Result<AbstractType, AnalysisError>)
    requires
        fns_unique(old(table)),
    ensures
        fns_unique(final(table)),
        final(table).names@ == old(table).names@,
        final(table).records@ == old(table).records@,
        table_extends(old(table), final(table)),
        r is Ok <==> match *ann {
            Some(a) => ann_resolves(old(table).names@, a),
            None => true,
        },
        r matches Ok(t) ==> match *ann {
            Some(a) => denotes(final(table), a, t),
            None => t == AbstractType::Unit,
        },
{
    match ann {
        Some(a) => type_from_ann(table, a, span),
        None => Ok(AbstractType::Unit),
    }
}

/// The stored function type with these parameters and return type.
fn fn_type_of(table: &mut TypeTable, params: &Vec<(Ident, AbstractType)>, ret: &AbstractType) -> (r: AbstractType)
    requires
        fns_unique(old(table)),
    ensures
        fns_unique(final(table)),
        final(table).names@ == old(table).names@,
        final(table).records@ == old(table).records@,
        table_extends(old(table), final(table)),
        r matches AbstractType::Function(i) && i < final(table).fns@.len()
            && final(table).fns@[i as int].params@ == params@.map_values(|p: (Ident, AbstractType)| p.1)
            && final(table).fns@[i as int].return_type == *ret,
{
    let mut types: Vec<AbstractType> = Vec::new();
    let mut k: usize = 0;
    while k < params.len()
        invariant
            k <= params@.len(),
            types@ == params@.subrange(0, k as int).map_values(|p: (Ident, AbstractType)| p.1),
        decreases params.len() - k,
    {
        types.push(params[k].1.duplicate());
        k = k + 1;
        assert(types@ =~= params@.subrange(0, k as int).map_values(|p: (Ident, AbstractType)| p.1));
    }
    assert(params@.subrange(0, params@.len() as int) =~= params@);
    AbstractType::Function(intern_fn_type(table, types, ret.duplicate()))
}

/// The signature of a function: its parameters and return type.
struct Signature {
    module: usize,
    params: Vec<(Ident, AbstractType)>,
    return_type: AbstractType,
}

/// The graph of a function returning unit ends in the implicit return, so it
/// returns on every path.
proof fn lemma_unit_returns(cfg: &CFG)
    requires
        cfg.wf(),
        cfg.end_node() == 1,
        cfg.nodes().len() >= 2,
        cfg.nodes()[cfg.nodes().len() - 2] is Return,
        edges_at(cfg.edges(), 1, false).len() == 1,
        edges_at(cfg.edges(), 1, false)[0].0 == cfg.nodes().len() - 1,
        edges_at(cfg.edges(), (cfg.nodes().len() - 1) as usize, false).len() == 1,
        edges_at(cfg.edges(), (cfg.nodes().len() - 1) as usize, false)[0].0 == cfg.nodes().len() - 2,
    ensures
        returns_on_all_paths(*cfg),
{
    let x = (cfg.nodes().len() - 2) as usize;
    assert(trace_start(*cfg) == x);
    let t = set![x];
    assert(return_closed(*cfg, x, t));
}

/// Checks the modules of a program.
///
/// Every module must be named. `use` declarations must name modules of the
/// program; a used module's structs and functions come into scope as
/// `module::name`. Struct field types and function signatures must name types in
/// scope. No function may have a `break` or `continue` outside a loop, and every
/// function body must type check. The result holds the type table and, for each
/// function, its type and control-flow graph.
#[verifier::loop_isolation(false)]
#[verifier::rlimit(60)]
#[verifier::spinoff_prover]
pub fn check_modules(modules: Vec<Module>) -> (r: Result<CheckedProgram, AnalysisError>)
    ensures
        some_module_unnamed(modules@) ==> r == Err::<CheckedProgram, AnalysisError>(AnalysisError::MissingModName),
        r is Ok ==> jumps_ok(modules@),
        r is Ok ==> uses_resolve(modules@),
        r matches Ok(p) ==> forall|k: int|
            0 <= k < p.fns@.len() ==> ((#[trigger] p.fns@[k]).cfg matches Some(c) ==> c.wf() && returns_on_all_paths(c) && nodes_in_place(c.nodes(), c.edges()) && branches_both_ways(c.nodes(), c.edges())),
        r matches Ok(p) ==> forall|x: int| 0 <= x < p.table.records@.len() ==> !#[trigger] nests_cyclically(p.table.records@, x),
        !some_module_unnamed(modules@) && only_uses(modules@) && uses_resolve(modules@) ==> (r matches Ok(p)
            && p.fns@.len() == 0 && p.table.records@.len() == 0),
        !some_module_unnamed(modules@) && uses_resolve(modules@) && uses_and_empty_fns(modules@) ==> (r matches Ok(p)
            && p.fns@.len() == fns_before(modules@, modules@.len() as int)),
        !some_module_unnamed(modules@) && !uses_resolve(modules@) && structs_before(modules@, modules@.len() as int)
            <= u64::MAX ==> (r matches Err(AnalysisError::UnresolvedUses(v)) && v@.len() == 1 && exists|i: int, j: int, u: UseDecl|
            #[trigger] first_unresolved(modules@, i, j, u) && v@[0] == u.0),
{
    let ghost ms = modules@;
    let ghost h = !some_module_unnamed(ms) && only_uses(ms) && uses_resolve(ms);
    let ghost h2 = !some_module_unnamed(ms) && uses_and_empty_fns(ms) && uses_resolve(ms);
    // Every module must be named.
    let mut names: Vec<Ident> = Vec::new();
    let mut i: usize = 0;
    while i < modules.len()
        invariant
            i <= ms.len(),
            modules@ == ms,
            names@.len() == i,
            forall|k: int| 0 <= k < i ==> (#[trigger] ms[k]).0 is Some,
            forall|k: int| 0 <= k < i ==> (#[trigger] ms[k]).0 == Some(names@[k]),
        decreases modules.len() - i,
    {
        match &modules[i].0 {
            Some(n) => names.push(n.duplicate()),
            None => {
                return Err(AnalysisError::MissingModName);
            },
        }
        i = i + 1;
    }
    assert(!some_module_unnamed(ms));
    let mut table = TypeTable::with_builtins();
    assert(fns_unique(&table));
    // The type names of each module: the builtin ones and its own structs.
    let mut scopes: Vec<Vec<(ModulePath, AbstractType)>> = Vec::new();
    let mut own_structs: Vec<Vec<(Ident, u64)>> = Vec::new();
    let mut record_count: u64 = 0;
    let ghost bounded = structs_before(ms, ms.len() as int) <= u64::MAX;
    let mut i: usize = 0;
    while i < modules.len()
        invariant
            i <= ms.len(),
            modules@ == ms,
            scopes@.len() == i,
            own_structs@.len() == i,
            record_count == structs_before(ms, i as int),
            bounded == (structs_before(ms, ms.len() as int) <= u64::MAX),
        decreases modules.len() - i,
    {
        let mut scope = dup_bindings(&table.names);
        let mut own: Vec<(Ident, u64)> = Vec::new();
        let decls = &modules[i].1;
        let mut j: usize = 0;
        proof {
            assert(decls@.subrange(0, 0) =~= Seq::<DeclStmt>::empty());
        }
        while j < decls.len()
            invariant
                j <= decls@.len(),
                decls@ == ms[i as int].1@,
                i < ms.len(),
                record_count == structs_before(ms, i as int) + structs_in(decls@.subrange(0, j as int)),
                bounded == (structs_before(ms, ms.len() as int) <= u64::MAX),
            decreases decls.len() - j,
        {
            proof {
                assert(decls@.subrange(0, j + 1).drop_last() =~= decls@.subrange(0, j as int));
            }
            if let DeclStmt::Struct(s, _) = &decls[j] {
                assert(!h2) by {
                    if h2 {
                        assert(ms[i as int].1@[j as int] is Struct);
                    }
                }
                if record_count == u64::MAX {
                    proof {
                        assert(decls@.subrange(0, j + 1).last() == decls@[j as int]);
                        lemma_structs_in_prefix(decls@, j + 1);
                        lemma_structs_before_mono(ms, i + 1, ms.len() as int);
                        assert(!bounded);
                    }
                    return Err(AnalysisError::MalformedBody(s.name.duplicate()));
                }
                scope.push((single(&s.name), AbstractType::Record(record_count)));
                own.push((s.name.duplicate(), record_count));
                record_count = record_count + 1;
            }
            j = j + 1;
        }
        proof {
            assert(decls@.subrange(0, decls@.len() as int) =~= decls@);
        }
        scopes.push(scope);
        own_structs.push(own);
        i = i + 1;
    }
    // `use` declarations bring the used module's structs into scope.
    let mut deps: Vec<Vec<usize>> = Vec::new();
    let mut i: usize = 0;
    while i < modules.len()
        invariant
            i <= ms.len(),
            modules@ == ms,
            scopes@.len() == ms.len(),
            own_structs@.len() == ms.len(),
            names@.len() == ms.len(),
            deps@.len() == i,
            forall|a: int, b: int| 0 <= a < deps@.len() && 0 <= b < deps@[a]@.len() ==> #[trigger] deps@[a]@[b] < ms.len(),
            forall|k: int| 0 <= k < ms.len() ==> (#[trigger] ms[k]).0 == Some(names@[k]),
            forall|a: int, b: int|
                0 <= a < i && 0 <= b < ms[a].1@.len() ==> (#[trigger] ms[a].1@[b] matches DeclStmt::Use(u, _)
                    ==> exists|k: int| 0 <= k < ms.len() && (#[trigger] ms[k].0 matches Some(n) && same_name(n, u.0))),
        decreases modules.len() - i,
    {
        let decls = &modules[i].1;
        let mut used: Vec<usize> = Vec::new();
        let mut j: usize = 0;
        while j < decls.len()
            invariant
                j <= decls@.len(),
                decls@ == ms[i as int].1@,
                scopes@.len() == ms.len(),
                own_structs@.len() == ms.len(),
                names@.len() == ms.len(),
                forall|k: int| 0 <= k < used@.len() ==> used@[k] < ms.len(),
                forall|b: int|
                    0 <= b < j ==> (#[trigger] ms[i as int].1@[b] matches DeclStmt::Use(u, _) ==> exists|k: int|
                        0 <= k < ms.len() && (#[trigger] ms[k].0 matches Some(n) && same_name(n, u.0))),
            decreases decls.len() - j,
        {
            if let DeclStmt::Use(u, _) = &decls[j] {
                let mut found: Option<usize> = None;
                let mut k: usize = 0;
                while k < names.len()
                    invariant
                        k <= names@.len(),
                        names@.len() == ms.len(),
                        found matches Some(f) ==> f < ms.len() && same_name(names@[f as int], u.0),
                        found is None ==> forall|q: int| 0 <= q < k ==> !same_name(#[trigger] names@[q], u.0),
                    decreases names.len() - k,
                {
                    if found.is_none() && names_equal(&names[k], &u.0) {
                        found = Some(k);
                    }
                    k = k + 1;
                }
                match found {
                    Some(k) => {
                        let mut scope = scopes.remove(i);
                        let imported = &own_structs[k];
                        let mut m: usize = 0;
                        while m < imported.len()
                            invariant
                                m <= imported@.len(),
                            decreases imported.len() - m,
                        {
                            scope.push((prefixed(&names[k], &imported[m].0), AbstractType::Record(imported[m].1)));
                            m = m + 1;
                        }
                        scopes.insert(i, scope);
                        used.push(k);
                        assert(ms[k as int].0 matches Some(n) && same_name(n, u.0));
                    },
                    None => {
                        proof {
                            assert(ms[i as int].1@[j as int] matches DeclStmt::Use(u2, _) && u2 == *u);
                            assert(!use_resolves(ms, *u)) by {
                                if use_resolves(ms, *u) {
                                    let q = choose|q: int| 0 <= q < ms.len() && (#[trigger] ms[q].0 matches Some(n) && same_name(n, u.0));
                                    assert(ms[q].0 == Some(names@[q]));
                                    assert(!same_name(names@[q], u.0));
                                }
                            }
                            assert forall|a: int, b: int|
                                0 <= a < ms.len() && 0 <= b < ms[a].1@.len() && (a < i || (a == i && b < j)) implies (#[trigger] ms[a].1@[b] matches DeclStmt::Use(
                                    w,
                                    _,
                                ) ==> use_resolves(ms, w)) by {}
                            assert(first_unresolved(ms, i as int, j as int, *u));
                            if h {
                                assert(ms[i as int].1@[j as int] matches DeclStmt::Use(u2, _) && u2 == *u);
                                let q = choose|q: int| 0 <= q < ms.len() && (#[trigger] ms[q].0 matches Some(n) && same_name(n, u.0));
                                assert(ms[q].0 == Some(names@[q]));
                                assert(!same_name(names@[q], u.0));
                            }
                        }
                        return Err(AnalysisError::UnresolvedUses(vec![u.0.duplicate()]));
                    },
                }
            }
            j = j + 1;
        }
        deps.push(used);
        i = i + 1;
    }
    assert(uses_resolve(ms));
    // Struct types, in declaration order.
    let mut i: usize = 0;
    while i < modules.len()
        invariant
            i <= ms.len(),
            modules@ == ms,
            scopes@.len() == ms.len(),
            fns_unique(&table),
            h ==> table.records@.len() == 0,
            h2 ==> table.records@.len() == 0,
        decreases modules.len() - i,
    {
        table.names = dup_bindings(&scopes[i]);
        let decls = &modules[i].1;
        let mut j: usize = 0;
        while j < decls.len()
            invariant
                j <= decls@.len(),
                decls@ == ms[i as int].1@,
                scopes@.len() == ms.len(),
                fns_unique(&table),
                h ==> table.records@.len() == 0,
                h2 ==> table.records@.len() == 0,
            decreases decls.len() - j,
        {
            if let DeclStmt::Struct(s, span) = &decls[j] {
                assert(!h) by {
                    if h {
                        assert(ms[i as int].1@[j as int] is Use);
                    }
                }
                assert(!h2) by {
                    if h2 {
                        assert(ms[i as int].1@[j as int] is Struct);
                    }
                }
                let mut fields: Vec<(Ident, AbstractType)> = Vec::new();
                match &s.body.0 {
                    Some(fs) => {
                        let mut k: usize = 0;
                        while k < fs.len()
                            invariant
                                k <= fs@.len(),
                                fns_unique(&table),
                            decreases fs.len() - k,
                        {
                            let t = type_from_ann(&mut table, &fs[k].field_type, *span)?;
                            fields.push((fs[k].name.duplicate(), t));
                            k = k + 1;
                        }
                    },
                    None => {},
                }
                table.records.push(RecordType { name: s.name.duplicate(), fields });
            }
            j = j + 1;
        }
        i = i + 1;
    }
    // No struct type may hold itself.
    let mut rec: usize = 0;
    while rec < table.records.len()
        invariant
            rec <= table.records@.len(),
            forall|x: int| 0 <= x < rec ==> !#[trigger] nests_cyclically(table.records@, x),
        decreases table.records.len() - rec,
    {
        cyclic_type_check(&table, rec as u64)?;
        rec = rec + 1;
    }
    let ghost recs = table.records@;
    // Function types; the functions of each module are in its scope, and those of
    // the modules it uses as `module::name`.
    let mut sigs: Vec<Signature> = Vec::new();
    let mut fn_scopes: Vec<Vec<(ModulePath, AbstractType)>> = Vec::new();
    let mut own_fns: Vec<Vec<(Ident, AbstractType)>> = Vec::new();
    let mut i: usize = 0;
    while i < modules.len()
        invariant
            table.records@ == recs,
            i <= ms.len(),
            modules@ == ms,
            scopes@.len() == ms.len(),
            own_fns@.len() == i,
            fns_unique(&table),
            forall|k: int| 0 <= k < sigs@.len() ==> (#[trigger] sigs@[k]).module < ms.len(),
            h2 ==> forall|k: int| 0 <= k < sigs@.len() ==> (#[trigger] sigs@[k]).return_type == AbstractType::Unit,
        decreases modules.len() - i,
    {
        table.names = dup_bindings(&scopes[i]);
        let decls = &modules[i].1;
        let mut own: Vec<(Ident, AbstractType)> = Vec::new();
        let mut j: usize = 0;
        while j < decls.len()
            invariant
                table.records@ == recs,
                j <= decls@.len(),
                i < ms.len(),
                scopes@.len() == ms.len(),
                fns_unique(&table),
                forall|k: int| 0 <= k < sigs@.len() ==> (#[trigger] sigs@[k]).module < ms.len(),
                h2 ==> forall|k: int| 0 <= k < sigs@.len() ==> (#[trigger] sigs@[k]).return_type == AbstractType::Unit,
                decls@ == ms[i as int].1@,
            decreases decls.len() - j,
        {
            match &decls[j] {
                DeclStmt::Function(f, span) => {
                    proof {
                        if h2 {
                            assert(ms[i as int].1@[j as int] matches DeclStmt::Function(g2, _) && g2 == *f);
                        }
                    }
                    let params = param_types(&mut table, &f.params, *span)?;
                    let ret = return_type_of(&mut table, &f.return_type, *span)?;
                    let t = fn_type_of(&mut table, &params, &ret);
                    own.push((f.name.duplicate(), t));
                    sigs.push(Signature { module: i, params, return_type: ret });
                },
                DeclStmt::BuiltinFunction(b, span) => {
                    assert(!h2) by {
                        if h2 {
                            assert(ms[i as int].1@[j as int] is BuiltinFunction);
                        }
                    }
                    let ret = return_type_of(&mut table, &b.return_type, *span)?;
                    let t = match &b.params {
                        BuiltinFnParams::Unchecked => {
                            let id = table.unchecked_fns.len() as u64;
                            table.unchecked_fns.push(ret);
                            AbstractType::UncheckedFunction(id)
                        },
                        BuiltinFnParams::Checked(ps) => {
                            let params = param_types(&mut table, ps, *span)?;
                            fn_type_of(&mut table, &params, &ret)
                        },
                    };
                    own.push((b.name.duplicate(), t));
                },
                _ => {},
            }
            j = j + 1;
        }
        own_fns.push(own);
        i = i + 1;
    }
    let mut i: usize = 0;
    while i < modules.len()
        invariant
            table.records@ == recs,
            i <= ms.len(),
            own_fns@.len() == ms.len(),
            deps@.len() == ms.len(),
            names@.len() == ms.len(),
            fn_scopes@.len() == i,
            forall|a: int, b: int| 0 <= a < deps@.len() && 0 <= b < deps@[a]@.len() ==> #[trigger] deps@[a]@[b] < ms.len(),
        decreases modules.len() - i,
    {
        let mut scope: Vec<(ModulePath, AbstractType)> = Vec::new();
        let mut k: usize = 0;
        while k < own_fns[i].len()
            invariant
                table.records@ == recs,
                k <= own_fns@[i as int]@.len(),
                i < own_fns@.len(),
            decreases own_fns@[i as int]@.len() - k,
        {
            scope.push((single(&own_fns[i][k].0), own_fns[i][k].1.duplicate()));
            k = k + 1;
        }
        let mut d: usize = 0;
        while d < deps[i].len()
            invariant
                table.records@ == recs,
                d <= deps@[i as int]@.len(),
                i < deps@.len(),
                own_fns@.len() == ms.len(),
                names@.len() == ms.len(),
            decreases deps@[i as int]@.len() - d,
        {
            let m = deps[i][d];
            assert(m < ms.len());
            let mut k: usize = 0;
            while k < own_fns[m].len()
                invariant
                    table.records@ == recs,
                    k <= own_fns@[m as int]@.len(),
                    m < own_fns@.len(),
                    m < names@.len(),
                decreases own_fns@[m as int]@.len() - k,
            {
                scope.push((prefixed(&names[m], &own_fns[m][k].0), own_fns[m][k].1.duplicate()));
                k = k + 1;
            }
            d = d + 1;
        }
        fn_scopes.push(scope);
        i = i + 1;
    }
    // No `break` or `continue` outside a loop.
    let mut i: usize = 0;
    while i < modules.len()
        invariant
            table.records@ == recs,
            i <= ms.len(),
            modules@ == ms,
            forall|a: int, b: int|
                0 <= a < i && 0 <= b < ms[a].1@.len() ==> (#[trigger] ms[a].1@[b] matches DeclStmt::Function(f, _)
                    ==> jump_error(f.body.0@, 0, false) is None),
        decreases modules.len() - i,
    {
        let decls = &modules[i].1;
        let mut j: usize = 0;
        while j < decls.len()
            invariant
                table.records@ == recs,
                j <= decls@.len(),
                decls@ == ms[i as int].1@,
                forall|a: int, b: int|
                    0 <= a < i && 0 <= b < ms[a].1@.len() ==> (#[trigger] ms[a].1@[b] matches DeclStmt::Function(f, _)
                        ==> jump_error(f.body.0@, 0, false) is None),
                forall|b: int|
                    0 <= b < j ==> (#[trigger] ms[i as int].1@[b] matches DeclStmt::Function(f, _) ==> jump_error(
                        f.body.0@,
                        0,
                        false,
                    ) is None),
            decreases decls.len() - j,
        {
            if let DeclStmt::Function(f, _) = &decls[j] {
                proof {
                    if h2 {
                        assert(ms[i as int].1@[j as int] matches DeclStmt::Function(g2, _) && g2 == *f);
                        assert(f.body.0@.len() == 0);
                    }
                }
                if let Some(e) = first_jump_error(&f.body.0, false) {
                    return Err(AnalysisError::ControlFlowError(e));
                }
            }
            j = j + 1;
        }
        i = i + 1;
    }
    assert(jumps_ok(ms));
    // Every function body must type check.
    let mut i: usize = 0;
    let mut s: usize = 0;
    while i < modules.len()
        invariant
            table.records@ == recs,
            i <= ms.len(),
            modules@ == ms,
            scopes@.len() == ms.len(),
            fn_scopes@.len() == ms.len(),
            fns_unique(&table),
        decreases modules.len() - i,
    {
        let decls = &modules[i].1;
        let mut j: usize = 0;
        while j < decls.len()
            invariant
                table.records@ == recs,
                j <= decls@.len(),
                i < ms.len(),
                scopes@.len() == ms.len(),
                fn_scopes@.len() == ms.len(),
                fns_unique(&table),
                decls@ == ms[i as int].1@,
            decreases decls.len() - j,
        {
            if let DeclStmt::Function(f, _) = &decls[j] {
                proof {
                    if h2 {
                        assert(ms[i as int].1@[j as int] matches DeclStmt::Function(g2, _) && g2 == *f);
                        assert(f.body.0@.len() == 0);
                    }
                }
                if s < sigs.len() {
                    let mut params: Vec<(Ident, AbstractType)> = Vec::new();
                    let mut k: usize = 0;
                    while k < sigs[s].params.len()
                        invariant
                            table.records@ == recs,
                            k <= sigs@[s as int].params@.len(),
                            s < sigs@.len(),
                        decreases sigs@[s as int].params@.len() - k,
                    {
                        params.push((sigs[s].params[k].0.duplicate(), sigs[s].params[k].1.duplicate()));
                        k = k + 1;
                    }
                    let ret = sigs[s].return_type.duplicate();
                    let mut checked_table = TypeTable {
                        records: Vec::new(),
                        widths: Vec::new(),
                        fns: Vec::new(),
                        unchecked_fns: Vec::new(),
                        names: Vec::new(),
                    };
                    std::mem::swap(&mut checked_table, &mut table);
                    checked_table.names = dup_bindings(&scopes[i]);
                    let mut checker = TypeChecker::new(checked_table, params, dup_bindings(&fn_scopes[i]), ret);
                    let result = type_check(&mut checker, &f.body);
                    table = checker.table;
                    result?;
                    s = s + 1;
                }
            }
            j = j + 1;
        }
        i = i + 1;
    }
    // The control-flow graph of each function.
    let mut fns: Vec<FnInfo> = Vec::new();
    let mut rest = modules;
    let mut i: usize = 0;
    let mut s: usize = 0;
    while rest.len() > 0
        invariant
            table.records@ == recs,
            i <= ms.len(),
            rest@ == ms.subrange(i as int, ms.len() as int),
            own_fns@.len() == ms.len(),
            h ==> fns@.len() == 0 && only_uses(ms),
            h2 ==> fns@.len() == fns_before(ms, i as int),
            forall|k: int| 0 <= k < fns@.len() ==> ((#[trigger] fns@[k]).cfg matches Some(c) ==> c.wf() && returns_on_all_paths(c) && nodes_in_place(c.nodes(), c.edges()) && branches_both_ways(c.nodes(), c.edges())),
        decreases rest.len(),
    {
        let module = rest.remove(0);
        let mut decls = module.1;
        let ghost n0 = decls@.len();
        let ghost all_decls = decls@;
        assert(all_decls == ms[i as int].1@);
        assert(decls@.len() == decls.len());
        let mut f_index: usize = 0;
        proof {
            assert(all_decls.subrange(0, 0) =~= Seq::<DeclStmt>::empty());
        }
        while decls.len() > 0
            invariant
                h2 ==> fns@.len() == fns_before(ms, i as int) + fns_in(all_decls.subrange(0, n0 - decls@.len())),
                table.records@ == recs,
                i < ms.len(),
                own_fns@.len() == ms.len(),
                f_index + decls@.len() <= n0,
                h ==> fns@.len() == 0 && only_uses(ms),
                all_decls == ms[i as int].1@,
                decls@ == all_decls.subrange(n0 - decls@.len(), n0 as int),
                n0 == all_decls.len(),
                n0 <= usize::MAX,
                forall|k: int| 0 <= k < fns@.len() ==> ((#[trigger] fns@[k]).cfg matches Some(c) ==> c.wf() && returns_on_all_paths(c) && nodes_in_place(c.nodes(), c.edges()) && branches_both_ways(c.nodes(), c.edges())),
            decreases decls.len(),
        {
            let ghost before = decls@;
            let decl = decls.remove(0);
            let ghost idx = n0 - before.len();
            proof {
                assert(decl == all_decls[n0 - before.len()]);
                assert(decls@ =~= all_decls.subrange(n0 - decls@.len(), n0 as int));
                if h {
                    assert(ms[i as int].1@[n0 - before.len()] is Use);
                }
                assert(all_decls.subrange(0, idx + 1).drop_last() =~= all_decls.subrange(0, idx));
                assert(all_decls.subrange(0, idx + 1).last() == decl);
            }
            match decl {
                DeclStmt::Function(f, _) => {
                    proof {
                        if h2 {
                            assert(ms[i as int].1@[idx] matches DeclStmt::Function(g2, _) && g2 == f);
                            assert(f.body.0@.len() == 0);
                            assert(stmts_cost(f.body.0@, 0) == 0);
                        }
                    }
                    let ret = if s < sigs.len() {
                        let r = sigs[s].return_type.duplicate();
                        s = s + 1;
                        r
                    } else {
                        AbstractType::Unit
                    };
                    let fn_type = if f_index < own_fns[i].len() {
                        own_fns[i][f_index].1.duplicate()
                    } else {
                        AbstractType::Unit
                    };
                    f_index = f_index + 1;
                    if !stmts_well_shaped(&f.body.0) || stmts_cost_capped(&f.body.0, 0xffff_ffff) + 6 >= 0xffff_ffff {
                        return Err(AnalysisError::MalformedBody(f.name));
                    }
                    let name = f.name;
                    let cfg = CFG::generate(f.body, &ret)?;
                    proof {
                        if ret == AbstractType::Unit {
                            lemma_unit_returns(&cfg);
                        }
                    }
                    if let Err(e) = return_trace(&cfg) {
                        return Err(AnalysisError::ControlFlowError(e));
                    }
                    fns.push(FnInfo { module: i, name, fn_type, cfg: Some(cfg) });
                },
                DeclStmt::BuiltinFunction(b, _) => {
                    assert(!h2) by {
                        if h2 {
                            assert(ms[i as int].1@[idx] is BuiltinFunction);
                        }
                    }
                    let fn_type = if f_index < own_fns[i].len() {
                        own_fns[i][f_index].1.duplicate()
                    } else {
                        AbstractType::Unit
                    };
                    f_index = f_index + 1;
                    fns.push(FnInfo { module: i, name: b.name, fn_type, cfg: None });
                },
                _ => {},
            }
        }
        assert(rest@ =~= ms.subrange(i + 1, ms.len() as int));
        proof {
            assert(all_decls.subrange(0, n0 as int) =~= all_decls);
        }
        i = i + 1;
    }
    Ok(CheckedProgram { table, module_names: names, fns })
}

} // verus!

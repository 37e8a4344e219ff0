//! Type constructors and their applications to type arguments.
//!
//! A [`TypeCons`] is stored in a [`Universe`] under its index, its type id. A
//! [`TypeApp`] either applies a stored constructor to type arguments or names a
//! type parameter. Applying substitutes type parameters by their arguments and
//! stores the resulting constructors as new entries.

use vstd::prelude::*;

use crate::ast::{Ident, ModulePath, TypeAnnotation};
use crate::error::{AnalysisError, ApplicationError, TypeError};
use crate::span::Span;
use crate::type_checker::{paths_equal, same_name};

verus! {

pub enum TypeApp {
    Applied { type_cons: u64, args: Option<Vec<TypeApp>> },
    Param(u64),
}

pub enum TypeCons {
    UncheckedFunction { type_params: Option<Vec<u64>>, return_type: TypeApp },
    Function { type_params: Option<Vec<u64>>, parameters: Vec<TypeApp>, return_type: TypeApp },
    Array { element_type: TypeApp, size: u64 },
    Record {
        type_id: u64,
        type_params: Option<Vec<u64>>,
        fields: Vec<(u64, TypeApp)>,
        field_map: Vec<(Ident, u64)>,
    },
    Int,
    Float,
    String,
    Bool,
    Unit,
}

/// The stored type constructors; a constructor's type id is its index. `unit` is
/// the id of the unit type.
pub struct Universe {
    pub type_cons: Vec<TypeCons>,
    pub unit: u64,
}

/// The mathematical content of a [`TypeApp`].
pub enum AppView {
    Applied(u64, Option<Seq<AppView>>),
    Param(u64),
}

impl TypeApp {
    pub open spec fn view_app(self) -> AppView
        decreases self, 0int,
    {
        match self {
            TypeApp::Applied { type_cons, args } => AppView::Applied(
                type_cons,
                match args {
                    Some(a) => Some(apps_view(a@)),
                    None => None,
                },
            ),
            TypeApp::Param(p) => AppView::Param(p),
        }
    }
}

pub open spec fn apps_view(s: Seq<TypeApp>) -> Seq<AppView>
    decreases s, s.len(),
{
    if s.len() == 0 {
        Seq::empty()
    } else {
        apps_view(s.drop_last()).push(s.last().view_app())
    }
}

pub proof fn lemma_apps_view(s: Seq<TypeApp>)
    ensures
        apps_view(s).len() == s.len(),
        forall|i: int| 0 <= i < s.len() ==> #[trigger] apps_view(s)[i] == s[i].view_app(),
    decreases s.len(),
{
    if s.len() > 0 {
        lemma_apps_view(s.drop_last());
    }
}

/// Every constructor that the application refers to is one of the first `n`.
pub open spec fn view_ok(n: nat, v: AppView) -> bool
    decreases v,
{
    match v {
        AppView::Applied(tc, args) => tc < n && match args {
            Some(a) => forall|i: int| 0 <= i < a.len() ==> view_ok(n, #[trigger] a[i]),
            None => true,
        },
        AppView::Param(_) => true,
    }
}

pub open spec fn app_ok(n: nat, a: TypeApp) -> bool {
    view_ok(n, a.view_app())
}

/// Every application inside the constructor refers to one of the first `n`.
pub open spec fn cons_ok(n: nat, c: TypeCons) -> bool {
    match c {
        TypeCons::UncheckedFunction { return_type, .. } => app_ok(n, return_type),
        TypeCons::Function { parameters, return_type, .. } => {
            &&& forall|i: int| 0 <= i < parameters@.len() ==> app_ok(n, #[trigger] parameters@[i])
            &&& app_ok(n, return_type)
        },
        TypeCons::Array { element_type, .. } => app_ok(n, element_type),
        TypeCons::Record { fields, .. } => forall|i: int| 0 <= i < fields@.len() ==> app_ok(n, (#[trigger] fields@[i]).1),
        _ => true,
    }
}

/// Validity stays when more constructors are stored.
pub proof fn lemma_view_ok_mono(n: nat, m: nat, v: AppView)
    requires
        n <= m,
        view_ok(n, v),
    ensures
        view_ok(m, v),
    decreases v,
{
    if let AppView::Applied(tc, Some(a)) = v {
        assert forall|i: int| 0 <= i < a.len() implies view_ok(m, #[trigger] a[i]) by {
            lemma_view_ok_mono(n, m, a[i]);
        }
    }
}

pub proof fn lemma_cons_ok_mono(n: nat, m: nat, c: TypeCons)
    requires
        n <= m,
        cons_ok(n, c),
    ensures
        cons_ok(m, c),
{
    match c {
        TypeCons::UncheckedFunction { return_type, .. } => lemma_view_ok_mono(n, m, return_type.view_app()),
        TypeCons::Function { parameters, return_type, .. } => {
            assert forall|i: int| 0 <= i < parameters@.len() implies app_ok(m, #[trigger] parameters@[i]) by {
                lemma_view_ok_mono(n, m, parameters@[i].view_app());
            }
            lemma_view_ok_mono(n, m, return_type.view_app());
        },
        TypeCons::Array { element_type, .. } => lemma_view_ok_mono(n, m, element_type.view_app()),
        TypeCons::Record { fields, .. } => {
            assert forall|i: int| 0 <= i < fields@.len() implies app_ok(m, (#[trigger] fields@[i]).1) by {
                lemma_view_ok_mono(n, m, fields@[i].1.view_app());
            }
        },
        _ => {},
    }
}

impl Universe {
    /// Every stored constructor refers only to stored constructors.
    pub open spec fn wf(self) -> bool {
        forall|i: int| 0 <= i < self.type_cons@.len() ==> cons_ok(self.type_cons@.len(), #[trigger] self.type_cons@[i])
    }

    /// `new` keeps the constructors of `old` and adds more.
    pub open spec fn extends(old: Universe, new: Universe) -> bool {
        &&& new.unit == old.unit
        &&& new.type_cons@.len() >= old.type_cons@.len()
        &&& forall|k: int| 0 <= k < old.type_cons@.len() ==> #[trigger] new.type_cons@[k] == old.type_cons@[k]
    }

    /// Stores a constructor under a new type id.
    pub fn insert_type_cons(&mut self, c: TypeCons) -> (id: u64)
        requires
            old(self).wf(),
            cons_ok(old(self).type_cons@.len() as nat, c),
        ensures
            final(self).wf(),
            Universe::extends(*old(self), *final(self)),
            id == old(self).type_cons@.len(),
            final(self).type_cons@ == old(self).type_cons@.push(c),
    {
        let id = self.type_cons.len() as u64;
        let ghost n = old(self).type_cons@.len() as nat;
        self.type_cons.push(c);
        proof {
            assert forall|i: int| 0 <= i < self.type_cons@.len() implies cons_ok(
                self.type_cons@.len() as nat,
                #[trigger] self.type_cons@[i],
            ) by {
                if i < n {
                    assert(self.type_cons@[i] == old(self).type_cons@[i]);
                    lemma_cons_ok_mono(n, (n + 1) as nat, self.type_cons@[i]);
                } else {
                    lemma_cons_ok_mono(n, (n + 1) as nat, c);
                }
            }
        }
        id
    }
}

impl TypeApp {
    /// The applied constructor, or `None` for a type parameter.
    pub fn type_cons(&self) -> (r: Option<u64>)
        ensures
            r == (match *self {
                TypeApp::Applied { type_cons, .. } => Some(type_cons),
                TypeApp::Param(_) => None,
            }),
    {
        match self {
            TypeApp::Applied { type_cons, .. } => Some(*type_cons),
            TypeApp::Param(_) => None,
        }
    }

    /// A copy of the application.
    pub fn duplicate(&self) -> (r: TypeApp)
        ensures
            r.view_app() == self.view_app(),
        decreases self,
    {
        match self {
            TypeApp::Applied { type_cons, args } => {
                let args = match args {
                    Some(a) => Some(duplicate_apps(a)),
                    None => None,
                };
                TypeApp::Applied { type_cons: *type_cons, args }
            },
            TypeApp::Param(p) => TypeApp::Param(*p),
        }
    }
}

/// A copy of a list of applications.
pub fn duplicate_apps(v: &Vec<TypeApp>) -> (r: Vec<TypeApp>)
    ensures
        apps_view(r@) == apps_view(v@),
    decreases v, 0nat,
{
    let mut out: Vec<TypeApp> = Vec::new();
    let mut i: usize = 0;
    while i < v.len()
        invariant
            i <= v@.len(),
            out@.len() == i,
            forall|j: int| 0 <= j < i ==> #[trigger] out@[j].view_app() == v@[j].view_app(),
        decreases v.len() - i,
    {
        proof {
            vstd::std_specs::vec::axiom_vec_index_decreases(*v, i as int);
        }
        out.push(v[i].duplicate());
        i = i + 1;
    }
    proof {
        lemma_apps_view(out@);
        lemma_apps_view(v@);
        assert(apps_view(out@) =~= apps_view(v@));
    }
    out
}

/// The type parameters of a function or record constructor.
pub open spec fn cons_type_params(c: TypeCons) -> Option<Vec<u64>> {
    match c {
        TypeCons::Function { type_params, .. } => type_params,
        TypeCons::Record { type_params, .. } => type_params,
        TypeCons::UncheckedFunction { type_params, .. } => type_params,
        _ => None,
    }
}

impl TypeCons {
    /// Whether this is the constructor of a function with unchecked parameters.
    pub fn is_unchecked_fn(&self) -> (r: bool)
        ensures
            r == (*self is UncheckedFunction),
    {
        if let TypeCons::UncheckedFunction { .. } = *self {
            true
        } else {
            false
        }
    }

    /// The type parameters of a function or record constructor.
    pub fn type_params(&self) -> (r: Option<&Vec<u64>>)
        ensures
            r is Some <==> cons_type_params(*self) is Some,
            r matches Some(v) ==> cons_type_params(*self) == Some(*v),
    {
        match self {
            TypeCons::Function { type_params, .. } => type_params.as_ref(),
            TypeCons::Record { type_params, .. } => type_params.as_ref(),
            TypeCons::UncheckedFunction { type_params, .. } => type_params.as_ref(),
            _ => None,
        }
    }
}


/// The argument bound to the type parameter `p` (the last binding wins).
pub open spec fn lookup_param(map: Seq<(u64, TypeApp)>, p: u64) -> Option<TypeApp>
    decreases map.len(),
{
    if map.len() == 0 {
        None
    } else if map.last().0 == p {
        Some(map.last().1)
    } else {
        lookup_param(map.drop_last(), p)
    }
}

/// The position of the binding of `p` that [`lookup_param`] finds.
fn find_param(map: &Vec<(u64, TypeApp)>, p: u64) -> (r: Option<usize>)
    ensures
        r is Some <==> lookup_param(map@, p) is Some,
        r matches Some(i) ==> i < map@.len() && lookup_param(map@, p) == Some(map@[i as int].1),
{
    let mut i = map.len();
    assert(map@.subrange(0, i as int) =~= map@);
    while i > 0
        invariant
            i <= map@.len(),
            lookup_param(map@, p) == lookup_param(map@.subrange(0, i as int), p),
        decreases i,
    {
        assert(map@.subrange(0, i as int).drop_last() =~= map@.subrange(0, i - 1));
        if map[i - 1].0 == p {
            return Some(i - 1);
        }
        i = i - 1;
    }
    None
}

/// Every application in `s` refers to one of the first `n` constructors.
pub open spec fn apps_ok(n: nat, s: Seq<TypeApp>) -> bool {
    forall|i: int| 0 <= i < s.len() ==> app_ok(n, #[trigger] s[i])
}

pub proof fn lemma_apps_ok_mono(n: nat, m: nat, s: Seq<TypeApp>)
    requires
        n <= m,
        apps_ok(n, s),
    ensures
        apps_ok(m, s),
{
    assert forall|i: int| 0 <= i < s.len() implies app_ok(m, #[trigger] s[i]) by {
        lemma_view_ok_mono(n, m, s[i].view_app());
    }
}

/// The arguments of an applied type are valid when the application is.
proof fn lemma_args_ok(n: nat, a: Vec<TypeApp>, tc: u64)
    requires
        view_ok(n, AppView::Applied(tc, Some(apps_view(a@)))),
    ensures
        apps_ok(n, a@),
{
    lemma_apps_view(a@);
    let av = apps_view(a@);
    let v = AppView::Applied(tc, Some(av));
    assert(view_ok(n, v));
    if let AppView::Applied(_, Some(b)) = v {
        assert(b == av);
        assert(forall|i: int| 0 <= i < b.len() ==> view_ok(n, #[trigger] b[i]));
    }
    assert forall|i: int| 0 <= i < a@.len() implies app_ok(n, #[trigger] a@[i]) by {
        assert(view_ok(n, av[i]));
        assert(av[i] == a@[i].view_app());
    }
}

/// The kind of constructor that `c` is, with the data that applying keeps.
pub open spec fn same_shape(a: TypeCons, b: TypeCons) -> bool {
    match (a, b) {
        (TypeCons::Function { .. }, TypeCons::Function { .. }) => true,
        (TypeCons::UncheckedFunction { .. }, TypeCons::UncheckedFunction { .. }) => true,
        (TypeCons::Array { size: s1, .. }, TypeCons::Array { size: s2, .. }) => s1 == s2,
        (TypeCons::Record { type_id: t1, .. }, TypeCons::Record { type_id: t2, .. }) => t1 == t2,
        _ => false,
    }
}

/// `b` has the layout of `a`: a function as many parameters, a record the same
/// fields (by name, in order), an array the same size.
pub open spec fn same_layout(a: TypeCons, b: TypeCons) -> bool {
    match (a, b) {
        (TypeCons::Function { parameters: p1, .. }, TypeCons::Function { parameters: p2, .. }) => p1@.len() == p2@.len(),
        (TypeCons::UncheckedFunction { .. }, TypeCons::UncheckedFunction { .. }) => true,
        (TypeCons::Array { size: s1, .. }, TypeCons::Array { size: s2, .. }) => s1 == s2,
        (TypeCons::Record { type_id: t1, fields: f1, .. }, TypeCons::Record { type_id: t2, fields: f2, .. }) => t1 == t2
            && f1@.len() == f2@.len() && forall|k: int| 0 <= k < f1@.len() ==> (#[trigger] f1@[k]).0 == f2@[k].0,
        _ => false,
    }
}

/// The constructor has no structure to apply arguments to.
pub open spec fn is_simple(c: TypeCons) -> bool {
    c is Int || c is Float || c is String || c is Bool || c is Unit
}

/// The arity error, if any, of applying constructor `c` to `args`.
pub open spec fn arity_error(c: TypeCons, args: Option<Vec<TypeApp>>) -> Option<ApplicationError> {
    match (cons_type_params(c), args) {
        (Some(ps), Some(a)) => if ps@.len() != a@.len() {
            Some(ApplicationError::Arity { expected: ps@.len() as usize, found: a@.len() as usize })
        } else {
            None
        },
        (Some(ps), None) => Some(ApplicationError::Arity { expected: ps@.len() as usize, found: 0 }),
        (None, Some(a)) => Some(ApplicationError::Arity { expected: 0, found: a@.len() as usize }),
        (None, None) => None,
    }
}

/// Applying `t` under `map` gives `t` back: it is a type parameter that `map`
/// leaves unbound, or a simple constructor given the arguments it takes.
pub open spec fn applies_as_is(u: Universe, map: Seq<(u64, TypeApp)>, t: TypeApp) -> bool {
    match t {
        TypeApp::Param(q) => lookup_param(map, q) is None,
        TypeApp::Applied { type_cons, args } => type_cons < u.type_cons@.len() && arity_error(u.type_cons@[type_cons as int], args)
            is None && is_simple(u.type_cons@[type_cons as int]),
    }
}

/// The bindings of a parameter map, each argument taken by its view.
pub open spec fn map_view(m: Seq<(u64, TypeApp)>) -> Seq<(u64, AppView)> {
    Seq::new(m.len(), |i: int| (m[i].0, m[i].1.view_app()))
}

/// The last binding of `p` in `m`, if any.
pub open spec fn lookup_view(m: Seq<(u64, AppView)>, p: u64) -> Option<AppView>
    decreases m.len(),
{
    if m.len() == 0 {
        None
    } else if m.last().0 == p {
        Some(m.last().1)
    } else {
        lookup_view(m.drop_last(), p)
    }
}

/// The constructor with these type parameters takes these arguments.
pub open spec fn arity_fits(ps: Option<Vec<u64>>, args: Option<Seq<AppView>>) -> bool {
    match (ps, args) {
        (Some(p), Some(a)) => p@.len() == a.len(),
        (None, None) => true,
        _ => false,
    }
}

/// `m` with the type parameters `ps` bound to the arguments `args`.
pub open spec fn bind_params(m: Seq<(u64, AppView)>, ps: Option<Vec<u64>>, args: Option<Seq<AppView>>) -> Seq<(u64, AppView)> {
    match (ps, args) {
        (Some(p), Some(a)) => m + Seq::new(p@.len(), |i: int| (p@[i], a[i])),
        _ => m,
    }
}

/// Applying `t` under the bindings `m` in the universe `u` needs nesting at most
/// `depth` deep and meets no arity error: every constructor reached takes the
/// arguments it is given, and every part of a function, array or record
/// constructor, and every bound parameter, applies one level less deep.
pub open spec fn applies_within(u: Seq<TypeCons>, m: Seq<(u64, AppView)>, t: AppView, depth: nat) -> bool
    decreases depth,
{
    depth > 0 && match t {
        AppView::Param(p) => match lookup_view(m, p) {
            None => true,
            Some(b) => applies_within(u, m, b, (depth - 1) as nat),
        },
        AppView::Applied(tc, args) => tc < u.len() && arity_fits(cons_type_params(u[tc as int]), args) && {
            let m2 = bind_params(m, cons_type_params(u[tc as int]), args);
            match u[tc as int] {
                TypeCons::Function { parameters, return_type, .. } => (forall|k: int|
                    0 <= k < parameters@.len() ==> applies_within(u, m2, (#[trigger] parameters@[k]).view_app(), (depth - 1) as nat))
                    && applies_within(u, m2, return_type.view_app(), (depth - 1) as nat),
                TypeCons::UncheckedFunction { return_type, .. } => applies_within(u, m2, return_type.view_app(), (depth - 1) as nat),
                TypeCons::Array { element_type, .. } => applies_within(u, m2, element_type.view_app(), (depth - 1) as nat),
                TypeCons::Record { fields, .. } => forall|k: int|
                    0 <= k < fields@.len() ==> applies_within(u, m2, (#[trigger] fields@[k]).1.view_app(), (depth - 1) as nat),
                _ => true,
            }
        }
    }
}

/// The part `t` of the constructor at index `k` is a plain use of an earlier
/// constructor: no arguments, no type parameter.
pub open spec fn plain_part(k: int, t: AppView) -> bool {
    t matches AppView::Applied(j, None) && j < k
}

/// Every constructor of `u` takes no type parameters, and every part of it is a
/// plain use of an earlier constructor: the universe holds no recursive and no
/// generic type.
pub open spec fn plain_universe(u: Seq<TypeCons>) -> bool {
    forall|k: int|
        0 <= k < u.len() ==> cons_type_params(#[trigger] u[k]) is None && match u[k] {
            TypeCons::Function { parameters, return_type, .. } => (forall|i: int|
                0 <= i < parameters@.len() ==> plain_part(k, (#[trigger] parameters@[i]).view_app())) && plain_part(
                k,
                return_type.view_app(),
            ),
            TypeCons::UncheckedFunction { return_type, .. } => plain_part(k, return_type.view_app()),
            TypeCons::Array { element_type, .. } => plain_part(k, element_type.view_app()),
            TypeCons::Record { fields, .. } => forall|i: int|
                0 <= i < fields@.len() ==> plain_part(k, (#[trigger] fields@[i]).1.view_app()),
            _ => true,
        }
}

/// Applying never needs less room for being given more: what applies within
/// `depth` levels applies within any deeper limit.
pub proof fn law_applies_within_deeper(u: Seq<TypeCons>, m: Seq<(u64, AppView)>, t: AppView, depth: nat, more: nat)
    requires
        applies_within(u, m, t, depth),
        depth <= more,
    ensures
        applies_within(u, m, t, more),
    decreases depth,
{
    match t {
        AppView::Param(p) => {
            if let Some(b) = lookup_view(m, p) {
                law_applies_within_deeper(u, m, b, (depth - 1) as nat, (more - 1) as nat);
            }
        },
        AppView::Applied(tc, args) => {
            let m2 = bind_params(m, cons_type_params(u[tc as int]), args);
            match u[tc as int] {
                TypeCons::Function { parameters, return_type, .. } => {
                    assert forall|k: int| 0 <= k < parameters@.len() implies applies_within(u, m2, (#[trigger] parameters@[k]).view_app(), (more - 1) as nat) by {
                        law_applies_within_deeper(u, m2, parameters@[k].view_app(), (depth - 1) as nat, (more - 1) as nat);
                    }
                    law_applies_within_deeper(u, m2, return_type.view_app(), (depth - 1) as nat, (more - 1) as nat);
                },
                TypeCons::UncheckedFunction { return_type, .. } => {
                    law_applies_within_deeper(u, m2, return_type.view_app(), (depth - 1) as nat, (more - 1) as nat);
                },
                TypeCons::Array { element_type, .. } => {
                    law_applies_within_deeper(u, m2, element_type.view_app(), (depth - 1) as nat, (more - 1) as nat);
                },
                TypeCons::Record { fields, .. } => {
                    assert forall|k: int| 0 <= k < fields@.len() implies applies_within(u, m2, (#[trigger] fields@[k]).1.view_app(), (more - 1) as nat) by {
                        law_applies_within_deeper(u, m2, fields@[k].1.view_app(), (depth - 1) as nat, (more - 1) as nat);
                    }
                },
                _ => {},
            }
        },
    }
}

/// An array constructor applies exactly when its element type applies one level
/// less deep: arrays are applied part by part, not refused.
pub proof fn law_array_applies(u: Seq<TypeCons>, m: Seq<(u64, AppView)>, id: u64, depth: nat)
    requires
        id < u.len(),
        u[id as int] is Array,
    ensures
        applies_within(u, m, AppView::Applied(id, None), depth + 1) == applies_within(
            u,
            m,
            u[id as int]->element_type.view_app(),
            depth,
        ),
{
}

/// Applying is total on types without recursion or type parameters: in a plain
/// universe the constructor at index `tc`, used without arguments, applies within
/// `tc + 1` levels, so `apply` (which allows `u64::MAX`) succeeds on it.
pub proof fn law_plain_types_apply(u: Seq<TypeCons>, m: Seq<(u64, AppView)>, tc: u64)
    requires
        plain_universe(u),
        tc < u.len(),
        u.len() <= u64::MAX,
    ensures
        applies_within(u, m, AppView::Applied(tc, None), tc as nat + 1),
        applies_within(u, m, AppView::Applied(tc, None), u64::MAX as nat),
    decreases tc,
{
    let k = tc as int;
    let c = u[k];
    assert(cons_type_params(c) is None);
    assert(bind_params(m, cons_type_params(c), None) == m);
    assert forall|t: AppView| plain_part(k, t) implies applies_within(u, m, t, tc as nat) by {
        if let AppView::Applied(j, None) = t {
            law_plain_types_apply(u, m, j);
            law_applies_within_deeper(u, m, t, j as nat + 1, tc as nat);
        }
    }
    match c {
        TypeCons::Function { parameters, return_type, .. } => {
            assert forall|i: int| 0 <= i < parameters@.len() implies applies_within(u, m, (#[trigger] parameters@[i]).view_app(), tc as nat) by {
                assert(plain_part(k, parameters@[i].view_app()));
            }
            assert(plain_part(k, return_type.view_app()));
        },
        TypeCons::UncheckedFunction { return_type, .. } => {
            assert(plain_part(k, return_type.view_app()));
        },
        TypeCons::Array { element_type, .. } => {
            assert(plain_part(k, element_type.view_app()));
        },
        TypeCons::Record { fields, .. } => {
            assert forall|i: int| 0 <= i < fields@.len() implies applies_within(u, m, (#[trigger] fields@[i]).1.view_app(), tc as nat) by {
                assert(plain_part(k, fields@[i].1.view_app()));
            }
        },
        _ => {},
    }
    law_applies_within_deeper(u, m, AppView::Applied(tc, None), tc as nat + 1, u64::MAX as nat);
}

proof fn lemma_lookup_view(m: Seq<(u64, TypeApp)>, p: u64)
    ensures
        lookup_view(map_view(m), p) == match lookup_param(m, p) {
            Some(b) => Some(b.view_app()),
            None => None,
        },
    decreases m.len(),
{
    if m.len() > 0 {
        assert(map_view(m).drop_last() =~= map_view(m.drop_last()));
        lemma_lookup_view(m.drop_last(), p);
    }
}

/// What applies in a universe applies in any universe that extends it.
proof fn lemma_applies_within_mono(u1: Seq<TypeCons>, u2: Seq<TypeCons>, m: Seq<(u64, AppView)>, t: AppView, depth: nat)
    requires
        u1.len() <= u2.len(),
        forall|k: int| 0 <= k < u1.len() ==> #[trigger] u2[k] == u1[k],
        applies_within(u1, m, t, depth),
    ensures
        applies_within(u2, m, t, depth),
    decreases depth,
{
    match t {
        AppView::Param(p) => {
            if let Some(b) = lookup_view(m, p) {
                lemma_applies_within_mono(u1, u2, m, b, (depth - 1) as nat);
            }
        },
        AppView::Applied(tc, args) => {
            assert(u2[tc as int] == u1[tc as int]);
            let m2 = bind_params(m, cons_type_params(u1[tc as int]), args);
            match u1[tc as int] {
                TypeCons::Function { parameters, return_type, .. } => {
                    assert forall|k: int| 0 <= k < parameters@.len() implies applies_within(u2, m2, (#[trigger] parameters@[k]).view_app(), (depth - 1) as nat) by {
                        lemma_applies_within_mono(u1, u2, m2, parameters@[k].view_app(), (depth - 1) as nat);
                    }
                    lemma_applies_within_mono(u1, u2, m2, return_type.view_app(), (depth - 1) as nat);
                },
                TypeCons::UncheckedFunction { return_type, .. } => {
                    lemma_applies_within_mono(u1, u2, m2, return_type.view_app(), (depth - 1) as nat);
                },
                TypeCons::Array { element_type, .. } => {
                    lemma_applies_within_mono(u1, u2, m2, element_type.view_app(), (depth - 1) as nat);
                },
                TypeCons::Record { fields, .. } => {
                    assert forall|k: int| 0 <= k < fields@.len() implies applies_within(u2, m2, (#[trigger] fields@[k]).1.view_app(), (depth - 1) as nat) by {
                        lemma_applies_within_mono(u1, u2, m2, fields@[k].1.view_app(), (depth - 1) as nat);
                    }
                },
                _ => {},
            }
        },
    }
}

/// A copy of an optional list of type parameters.
fn dup_params(p: &Option<Vec<u64>>) -> (r: Option<Vec<u64>>)
    ensures
        r is Some <==> p is Some,
        r matches Some(v) ==> v@ == p->0@,
{
    match p {
        Some(v) => {
            let mut out: Vec<u64> = Vec::new();
            let mut i: usize = 0;
            while i < v.len()
                invariant
                    i <= v@.len(),
                    out@ == v@.subrange(0, i as int),
                decreases v.len() - i,
            {
                out.push(v[i]);
                i = i + 1;
            }
            Some(out)
        },
        None => None,
    }
}

/// A copy of a parameter map.
fn dup_map(m: &Vec<(u64, TypeApp)>) -> (r: Vec<(u64, TypeApp)>)
    ensures
        r@.len() == m@.len(),
        forall|i: int| 0 <= i < m@.len() ==> (#[trigger] r@[i]).0 == m@[i].0 && r@[i].1.view_app() == m@[i].1.view_app(),
{
    let mut out: Vec<(u64, TypeApp)> = Vec::new();
    let mut i: usize = 0;
    while i < m.len()
        invariant
            i <= m@.len(),
            out@.len() == i,
            forall|j: int| 0 <= j < i ==> (#[trigger] out@[j]).0 == m@[j].0 && out@[j].1.view_app() == m@[j].1.view_app(),
        decreases m.len() - i,
    {
        out.push((m[i].0, m[i].1.duplicate()));
        i = i + 1;
    }
    out
}

impl TypeApp {
    /// Applies the type: every stored constructor it reaches is copied with its
    /// type parameters replaced by their arguments.
    pub fn apply(&self, universe: &mut Universe) -> (r: Result<TypeApp, TypeError>)
        requires
            old(universe).wf(),
            app_ok(old(universe).type_cons@.len() as nat, *self),
        ensures
            final(universe).wf(),
            Universe::extends(*old(universe), *final(universe)),
            r matches Ok(t) ==> app_ok(final(universe).type_cons@.len() as nat, t),
            match *self {
                TypeApp::Param(p) => r matches Ok(t) && t.view_app() == AppView::Param(p) && *final(universe) == *old(universe),
                TypeApp::Applied { type_cons, args } => {
                    let c = old(universe).type_cons@[type_cons as int];
                    &&& arity_error(c, args) matches Some(e) ==> r == Err::<TypeApp, TypeError>(TypeError::ApplicationError(e))
                    &&& arity_error(c, args) is Some ==> *final(universe) == *old(universe)
                    &&& (arity_error(c, args) is None && is_simple(c)) ==> *final(universe) == *old(universe)
                    &&& (arity_error(c, args) is None && is_simple(c)) ==> (r matches Ok(t) && t.view_app() == self.view_app())
                    &&& !is_simple(c) ==> (r matches Ok(t) ==> (t matches TypeApp::Applied { type_cons: id, args: None }
                        && old(universe).type_cons@.len() <= id < final(universe).type_cons@.len()
                        && same_shape(c, final(universe).type_cons@[id as int])))
                },
            },
            applies_within(old(universe).type_cons@, Seq::empty(), self.view_app(), u64::MAX as nat) ==> r is Ok,
    {
        let map: Vec<(u64, TypeApp)> = Vec::new();
        assert(map_view(map@) =~= Seq::<(u64, AppView)>::empty());
        proof {
            if let TypeApp::Param(p) = *self {
                assert(lookup_param(map@, p) is None);
            }
        }
        self.apply_internal(universe, &map, u64::MAX)
    }

    /// Applies the type under the bindings of `param_map`, nesting at most `depth`
    /// levels deep.
    ///
    /// An applied constructor with type parameters must get as many arguments; the
    /// parameters are then bound to the arguments for its parts. A function, array or
    /// record constructor is copied with its parts applied and stored anew; any other
    /// constructor is kept. A bound type parameter is replaced by its argument,
    /// applied in turn.
    #[verifier::loop_isolation(false)]
    #[verifier::rlimit(50)]
    pub fn apply_internal(&self, universe: &mut Universe, param_map: &Vec<(u64, TypeApp)>, depth: u64) -> (r: Result<
        TypeApp,
        TypeError,
    >)
        requires
            old(universe).wf(),
            app_ok(old(universe).type_cons@.len() as nat, *self),
            forall|i: int| 0 <= i < param_map@.len() ==> app_ok(old(universe).type_cons@.len() as nat, (#[trigger] param_map@[i]).1),
        ensures
            final(universe).wf(),
            Universe::extends(*old(universe), *final(universe)),
            r matches Ok(t) ==> app_ok(final(universe).type_cons@.len() as nat, t),
            depth == 0 ==> r == Err::<TypeApp, TypeError>(TypeError::ApplicationError(ApplicationError::RecursionLimit)),
            depth > 0 ==> match *self {
                TypeApp::Param(p) => {
                    &&& lookup_param(param_map@, p) is None ==> (r matches Ok(t) && t.view_app() == AppView::Param(p))
                    &&& lookup_param(param_map@, p) matches Some(b) ==> (depth > 1 && applies_as_is(*old(universe), param_map@, b)
                        ==> (r matches Ok(t) && t.view_app() == b.view_app()))
                },
                TypeApp::Applied { type_cons, args } => {
                    let c = old(universe).type_cons@[type_cons as int];
                    &&& arity_error(c, args) matches Some(e) ==> r == Err::<TypeApp, TypeError>(TypeError::ApplicationError(e))
                    &&& arity_error(c, args) is Some ==> *final(universe) == *old(universe)
                    &&& (arity_error(c, args) is None && is_simple(c)) ==> (r matches Ok(t) && t.view_app() == self.view_app())
                    &&& (arity_error(c, args) is None && is_simple(c)) ==> *final(universe) == *old(universe)
                    &&& !is_simple(c) ==> (r matches Ok(t) ==> (t matches TypeApp::Applied { type_cons: id, args: None }
                        && old(universe).type_cons@.len() <= id < final(universe).type_cons@.len()
                        && same_shape(c, final(universe).type_cons@[id as int])))
                    &&& !is_simple(c) ==> (r matches Ok(t) ==> (t matches TypeApp::Applied { type_cons: id, args: None }
                        && same_layout(c, final(universe).type_cons@[id as int])))
                    &&& c matches TypeCons::Array { element_type: e, .. } ==> (applies_as_is(*old(universe), param_map@, e) ==> (r matches Ok(
                        t,
                    ) ==> (t matches TypeApp::Applied { type_cons: id, .. } && final(universe).type_cons@[id as int] matches TypeCons::Array {
                        element_type: e2,
                        ..
                    } && e2.view_app() == e.view_app())))
                },
            },
            depth > 0 && (*self matches TypeApp::Param(p) && lookup_param(param_map@, p) is None) ==> *final(universe) == *old(universe),
            depth == 0 ==> *final(universe) == *old(universe),
            applies_within(old(universe).type_cons@, map_view(param_map@), self.view_app(), depth as nat) ==> r is Ok,
        decreases depth,
    {
        if depth == 0 {
            return Err(TypeError::ApplicationError(ApplicationError::RecursionLimit));
        }
        let ghost n0 = universe.type_cons@.len() as nat;
        let ghost u0 = universe.type_cons@;
        let ghost mv = map_view(param_map@);
        let ghost h = applies_within(u0, mv, self.view_app(), depth as nat);
        match self {
            TypeApp::Param(p) => match find_param(param_map, *p) {
                Some(i) => {
                    proof {
                        lemma_lookup_view(param_map@, *p);
                    }
                    param_map[i].1.apply_internal(universe, param_map, depth - 1)
                },
                None => Ok(TypeApp::Param(*p)),
            },
            TypeApp::Applied { type_cons, args } => {
                assert(self.view_app() matches AppView::Applied(t, _) && t == *type_cons);
                assert(view_ok(n0, self.view_app()));
                assert(*type_cons < universe.type_cons.len());
                let tc = *type_cons as usize;
                assert(tc == *type_cons);
                let ghost c = universe.type_cons@[tc as int];
                assert(cons_ok(n0, c));
                let ghost av: Option<Seq<AppView>> = match args {
                    Some(a) => Some(apps_view(a@)),
                    None => None,
                };
                assert(self.view_app() == AppView::Applied(*type_cons, av));
                let ghost m2 = bind_params(mv, cons_type_params(c), av);
                // Bind the constructor's type parameters to the arguments.
                let mut map = dup_map(param_map);
                assert(map_view(map@) =~= mv);
                match (universe.type_cons[tc].type_params(), args) {
                    (Some(ps), Some(a)) => {
                        proof {
                            lemma_apps_view(a@);
                        }
                        if ps.len() != a.len() {
                            return Err(TypeError::ApplicationError(ApplicationError::Arity {
                                expected: ps.len(),
                                found: a.len(),
                            }));
                        }
                        proof {
                            lemma_args_ok(n0, *a, *type_cons);
                        }
                        let mut i: usize = 0;
                        while i < ps.len()
                            invariant
                                i <= ps@.len(),
                                ps@.len() == a@.len(),
                                apps_ok(n0, a@),
                                forall|k: int| 0 <= k < map@.len() ==> app_ok(n0, (#[trigger] map@[k]).1),
                                apps_view(a@).len() == a@.len(),
                                forall|k: int| 0 <= k < a@.len() ==> #[trigger] apps_view(a@)[k] == a@[k].view_app(),
                                map_view(map@) == mv + Seq::new(i as nat, |k: int| (ps@[k], apps_view(a@)[k])),
                            decreases ps.len() - i,
                        {
                            let arg = a[i].duplicate();
                            assert(app_ok(n0, a@[i as int]));
                            let ghost before = map_view(map@);
                            map.push((ps[i], arg));
                            assert(map_view(map@) =~= before.push((ps@[i as int], apps_view(a@)[i as int])));
                            i = i + 1;
                            assert(map_view(map@) =~= mv + Seq::new(i as nat, |k: int| (ps@[k], apps_view(a@)[k])));
                        }
                        assert(map_view(map@) =~= m2);
                    },
                    (Some(ps), None) => {
                        assert(!h);
                        return Err(TypeError::ApplicationError(ApplicationError::Arity { expected: ps.len(), found: 0 }));
                    },
                    (None, Some(a)) => {
                        assert(!h);
                        return Err(TypeError::ApplicationError(ApplicationError::Arity { expected: 0, found: a.len() }));
                    },
                    (None, None) => {
                        assert(map_view(map@) =~= m2);
                    },
                }
                assert(map_view(map@) == m2);
                assert(forall|k: int| 0 <= k < map@.len() ==> app_ok(n0, (#[trigger] map@[k]).1));
                match &universe.type_cons[tc] {
                    TypeCons::Function { type_params, parameters, return_type } => {
                        let type_params = dup_params(type_params);
                        let params = duplicate_apps(parameters);
                        let ret = return_type.duplicate();
                        proof {
                            lemma_apps_view(params@);
                            lemma_apps_view(parameters@);
                            assert forall|k: int| 0 <= k < params@.len() implies app_ok(n0, #[trigger] params@[k]) by {
                                assert(apps_view(params@)[k] == apps_view(parameters@)[k]);
                                assert(app_ok(n0, parameters@[k]));
                            }
                        }
                        let mut new_params: Vec<TypeApp> = Vec::new();
                        let mut i: usize = 0;
                        while i < params.len()
                            invariant
                                i <= params@.len(),
                                universe.wf(),
                                Universe::extends(*old(universe), *universe),
                                apps_ok(n0, params@),
                                app_ok(n0, ret),
                                apps_ok(universe.type_cons@.len() as nat, new_params@),
                                forall|k: int| 0 <= k < map@.len() ==> app_ok(n0, (#[trigger] map@[k]).1),
                                new_params@.len() == i,
                            decreases params.len() - i,
                        {
                            let ghost before = universe.type_cons@.len() as nat;
                            assert(app_ok(n0, params@[i as int]));
                            proof {
                                lemma_view_ok_mono(n0, before, params@[i as int].view_app());
                                assert forall|k: int| 0 <= k < map@.len() implies app_ok(before, (#[trigger] map@[k]).1) by {
                                    lemma_view_ok_mono(n0, before, map@[k].1.view_app());
                                }
                            }
                            proof {
                                if h {
                                    assert(params@[i as int].view_app() == parameters@[i as int].view_app()) by {
                                        assert(apps_view(params@)[i as int] == apps_view(parameters@)[i as int]);
                                    }
                                    assert(applies_within(u0, m2, parameters@[i as int].view_app(), (depth - 1) as nat));
                                    lemma_applies_within_mono(u0, universe.type_cons@, m2, params@[i as int].view_app(), (depth - 1) as nat);
                                }
                            }
                            let t = params[i].apply_internal(universe, &map, depth - 1)?;
                            proof {
                                lemma_apps_ok_mono(before, universe.type_cons@.len() as nat, new_params@);
                            }
                            new_params.push(t);
                            i = i + 1;
                        }
                        let ghost before = universe.type_cons@.len() as nat;
                        proof {
                            lemma_view_ok_mono(n0, before, ret.view_app());
                            assert forall|k: int| 0 <= k < map@.len() implies app_ok(before, (#[trigger] map@[k]).1) by {
                                lemma_view_ok_mono(n0, before, map@[k].1.view_app());
                            }
                        }
                        proof {
                            if h {
                                lemma_applies_within_mono(u0, universe.type_cons@, m2, ret.view_app(), (depth - 1) as nat);
                            }
                        }
                        let new_ret = ret.apply_internal(universe, &map, depth - 1)?;
                        proof {
                            lemma_apps_ok_mono(before, universe.type_cons@.len() as nat, new_params@);
                        }
                        let id = universe.insert_type_cons(TypeCons::Function {
                            type_params,
                            parameters: new_params,
                            return_type: new_ret,
                        });
                        Ok(TypeApp::Applied { type_cons: id, args: None })
                    },
                    TypeCons::UncheckedFunction { type_params, return_type } => {
                        let type_params = dup_params(type_params);
                        let ret = return_type.duplicate();
                        proof {
                            if h {
                                lemma_applies_within_mono(u0, universe.type_cons@, m2, ret.view_app(), (depth - 1) as nat);
                            }
                        }
                        let new_ret = ret.apply_internal(universe, &map, depth - 1)?;
                        let id = universe.insert_type_cons(TypeCons::UncheckedFunction { type_params, return_type: new_ret });
                        Ok(TypeApp::Applied { type_cons: id, args: None })
                    },
                    TypeCons::Array { element_type, size } => {
                        let size = *size;
                        let element = element_type.duplicate();
                        proof {
                            if h {
                                lemma_applies_within_mono(u0, universe.type_cons@, m2, element.view_app(), (depth - 1) as nat);
                            }
                            if let TypeApp::Param(q) = element {
                                lemma_lookup_view(param_map@, q);
                                lemma_lookup_view(map@, q);
                            }
                        }
                        let new_element = element.apply_internal(universe, &map, depth - 1)?;
                        let id = universe.insert_type_cons(TypeCons::Array { element_type: new_element, size });
                        Ok(TypeApp::Applied { type_cons: id, args: None })
                    },
                    TypeCons::Record { type_id, type_params, fields, field_map } => {
                        let type_id = *type_id;
                        let type_params = dup_params(type_params);
                        let field_map = dup_field_map(field_map);
                        let mut old_fields: Vec<(u64, TypeApp)> = Vec::new();
                        let mut i: usize = 0;
                        while i < fields.len()
                            invariant
                                i <= fields@.len(),
                                forall|k: int| 0 <= k < fields@.len() ==> app_ok(n0, (#[trigger] fields@[k]).1),
                                forall|k: int| 0 <= k < old_fields@.len() ==> app_ok(n0, (#[trigger] old_fields@[k]).1),
                                old_fields@.len() == i,
                                forall|k: int| 0 <= k < old_fields@.len() ==> (#[trigger] old_fields@[k]).1.view_app() == fields@[k].1.view_app(),
                                forall|k: int| 0 <= k < old_fields@.len() ==> (#[trigger] old_fields@[k]).0 == fields@[k].0,
                            decreases fields.len() - i,
                        {
                            assert(app_ok(n0, fields@[i as int].1));
                            old_fields.push((fields[i].0, fields[i].1.duplicate()));
                            i = i + 1;
                        }
                        let mut new_fields: Vec<(u64, TypeApp)> = Vec::new();
                        let mut i: usize = 0;
                        while i < old_fields.len()
                            invariant
                                i <= old_fields@.len(),
                                universe.wf(),
                                Universe::extends(*old(universe), *universe),
                                forall|k: int| 0 <= k < old_fields@.len() ==> app_ok(n0, (#[trigger] old_fields@[k]).1),
                                forall|k: int| 0 <= k < new_fields@.len() ==> app_ok(universe.type_cons@.len() as nat, (#[trigger] new_fields@[k]).1),
                                forall|k: int| 0 <= k < map@.len() ==> app_ok(n0, (#[trigger] map@[k]).1),
                                new_fields@.len() == i,
                                forall|k: int| 0 <= k < new_fields@.len() ==> (#[trigger] new_fields@[k]).0 == old_fields@[k].0,
                            decreases old_fields.len() - i,
                        {
                            let ghost before = universe.type_cons@.len() as nat;
                            assert(app_ok(n0, old_fields@[i as int].1));
                            proof {
                                lemma_view_ok_mono(n0, before, old_fields@[i as int].1.view_app());
                                assert forall|k: int| 0 <= k < map@.len() implies app_ok(before, (#[trigger] map@[k]).1) by {
                                    lemma_view_ok_mono(n0, before, map@[k].1.view_app());
                                }
                            }
                            proof {
                                if h {
                                    assert(old_fields@[i as int].1.view_app() == fields@[i as int].1.view_app());
                                    assert(applies_within(u0, m2, fields@[i as int].1.view_app(), (depth - 1) as nat));
                                    lemma_applies_within_mono(u0, universe.type_cons@, m2, old_fields@[i as int].1.view_app(), (depth - 1) as nat);
                                }
                            }
                            let t = old_fields[i].1.apply_internal(universe, &map, depth - 1)?;
                            proof {
                                assert forall|k: int| 0 <= k < new_fields@.len() implies app_ok(universe.type_cons@.len() as nat, (#[trigger] new_fields@[k]).1) by {
                                    lemma_view_ok_mono(before, universe.type_cons@.len() as nat, new_fields@[k].1.view_app());
                                }
                            }
                            new_fields.push((old_fields[i].0, t));
                            i = i + 1;
                        }
                        let id = universe.insert_type_cons(TypeCons::Record {
                            type_id,
                            type_params,
                            fields: new_fields,
                            field_map,
                        });
                        Ok(TypeApp::Applied { type_cons: id, args: None })
                    },
                    _ => Ok(self.duplicate()),
                }
            },
        }
    }
}

/// A copy of a record's field-name map.
fn dup_field_map(m: &Vec<(Ident, u64)>) -> (r: Vec<(Ident, u64)>)
    ensures
        r@ == m@,
{
    let mut out: Vec<(Ident, u64)> = Vec::new();
    let mut i: usize = 0;
    while i < m.len()
        invariant
            i <= m@.len(),
            out@ == m@.subrange(0, i as int),
        decreases m.len() - i,
    {
        out.push((m[i].0.duplicate(), m[i].1));
        i = i + 1;
    }
    out
}


impl Universe {
    /// The built-in constructors `int`, `float`, `String`, `bool` and unit, with
    /// ids 0 to 4.
    pub fn with_builtins() -> (r: Universe)
        ensures
            r.wf(),
            r.type_cons@.len() == 5,
            r.type_cons@[0] is Int,
            r.type_cons@[1] is Float,
            r.type_cons@[2] is String,
            r.type_cons@[3] is Bool,
            r.type_cons@[4] is Unit,
            r.unit == 4,
    {
        let r = Universe {
            type_cons: vec![TypeCons::Int, TypeCons::Float, TypeCons::String, TypeCons::Bool, TypeCons::Unit],
            unit: 4,
        };
        r
    }

    /// The id of the unit type.
    pub fn unit(&self) -> (r: u64)
        ensures
            r == self.unit,
    {
        self.unit
    }
}

/// The names in scope while reading a type annotation: type parameters, and
/// type constructors by path.
pub struct TypeScope {
    pub type_params: Vec<(Ident, u64)>,
    pub types: Vec<(ModulePath, u64)>,
}

impl TypeScope {
    /// The scope of the built-in type names, for [`Universe::with_builtins`].
    pub fn with_builtins() -> (r: TypeScope)
        ensures
            r.type_params@.len() == 0,
            r.types@.len() == 4,
            forall|i: int| 0 <= i < 4 ==> (#[trigger] r.types@[i]).1 == i,
    {
        let mut types: Vec<(ModulePath, u64)> = Vec::new();
        types.push((ModulePath(vec![Ident("int".to_string())]), 0));
        types.push((ModulePath(vec![Ident("float".to_string())]), 1));
        types.push((ModulePath(vec![Ident("String".to_string())]), 2));
        types.push((ModulePath(vec![Ident("bool".to_string())]), 3));
        TypeScope { type_params: Vec::new(), types }
    }
}

/// The id of the last type parameter named `name`.
pub open spec fn lookup_type_param(s: Seq<(Ident, u64)>, name: Ident) -> Option<u64>
    decreases s.len(),
{
    if s.len() == 0 {
        None
    } else if same_name(s.last().0, name) {
        Some(s.last().1)
    } else {
        lookup_type_param(s.drop_last(), name)
    }
}

/// The id of the last type constructor bound to `path`.
pub open spec fn lookup_type_id(s: Seq<(ModulePath, u64)>, path: ModulePath) -> Option<u64>
    decreases s.len(),
{
    if s.len() == 0 {
        None
    } else if crate::type_checker::same_path(s.last().0.0@, path.0@) {
        Some(s.last().1)
    } else {
        lookup_type_id(s.drop_last(), path)
    }
}

/// What a path in a type annotation names: a type parameter when it is one name
/// that is a type parameter in scope, else a type constructor.
pub open spec fn path_app(scope: TypeScope, p: ModulePath) -> Option<AppView> {
    if p.0@.len() == 1 && lookup_type_param(scope.type_params@, p.0@[0]) is Some {
        Some(AppView::Param(lookup_type_param(scope.type_params@, p.0@[0])->0))
    } else {
        match lookup_type_id(scope.types@, p) {
            Some(tc) => Some(AppView::Applied(tc, None)),
            None => None,
        }
    }
}

/// `v` is what the annotation `ann` reads as in `scope`, with the constructors
/// it creates stored in `u`.
pub open spec fn app_denotes(u: Seq<TypeCons>, unit: u64, scope: TypeScope, ann: TypeAnnotation, v: AppView) -> bool
    decreases ann,
{
    match ann {
        TypeAnnotation::Path(p) => path_app(scope, p) == Some(v),
        TypeAnnotation::Array(elem, n) => match v {
            AppView::Applied(id, None) => id < u.len() && match u[id as int] {
                TypeCons::Array { element_type, size } => size == n && app_denotes(u, unit, scope, *elem, element_type.view_app()),
                _ => false,
            },
            _ => false,
        },
        TypeAnnotation::FnType(params, ret) => match v {
            AppView::Applied(id, None) => id < u.len() && match u[id as int] {
                TypeCons::Function { type_params: None, parameters, return_type } => {
                    &&& match params {
                        Some(ps) => parameters@.len() == ps@.len() && forall|k: int|
                            0 <= k < ps@.len() ==> app_denotes(u, unit, scope, #[trigger] ps@[k], parameters@[k].view_app()),
                        None => parameters@.len() == 0,
                    }
                    &&& match ret {
                        Some(r) => app_denotes(u, unit, scope, *r, return_type.view_app()),
                        None => return_type.view_app() == AppView::Applied(unit, None),
                    }
                },
                _ => false,
            },
            _ => false,
        },
    }
}

/// Every path in the annotation names something in scope.
pub open spec fn app_resolves(scope: TypeScope, ann: TypeAnnotation) -> bool
    decreases ann,
{
    match ann {
        TypeAnnotation::Path(p) => path_app(scope, p) is Some,
        TypeAnnotation::Array(elem, _) => app_resolves(scope, *elem),
        TypeAnnotation::FnType(params, ret) => {
            &&& match params {
                Some(ps) => forall|k: int| 0 <= k < ps@.len() ==> app_resolves(scope, #[trigger] ps@[k]),
                None => true,
            }
            &&& match ret {
                Some(r) => app_resolves(scope, *r),
                None => true,
            }
        },
    }
}

/// What an annotation reads as stays so when more constructors are stored.
proof fn lemma_app_denotes_extends(u: Seq<TypeCons>, w: Seq<TypeCons>, unit: u64, scope: TypeScope, ann: TypeAnnotation, v: AppView)
    requires
        w.len() >= u.len(),
        forall|k: int| 0 <= k < u.len() ==> #[trigger] w[k] == u[k],
        app_denotes(u, unit, scope, ann, v),
    ensures
        app_denotes(w, unit, scope, ann, v),
    decreases ann,
{
    match ann {
        TypeAnnotation::Path(p) => {},
        TypeAnnotation::Array(elem, n) => {
            if let AppView::Applied(id, None) = v {
                assert(w[id as int] == u[id as int]);
                if let TypeCons::Array { element_type, size } = u[id as int] {
                    lemma_app_denotes_extends(u, w, unit, scope, *elem, element_type.view_app());
                }
            }
        },
        TypeAnnotation::FnType(params, ret) => {
            if let AppView::Applied(id, None) = v {
                assert(w[id as int] == u[id as int]);
                if let TypeCons::Function { type_params: None, parameters, return_type } = u[id as int] {
                    if let Some(ps) = params {
                        assert forall|k: int| 0 <= k < ps@.len() implies app_denotes(w, unit, scope, #[trigger] ps@[k], parameters@[k].view_app()) by {
                            lemma_app_denotes_extends(u, w, unit, scope, ps@[k], parameters@[k].view_app());
                        }
                    }
                    if let Some(r) = ret {
                        lemma_app_denotes_extends(u, w, unit, scope, *r, return_type.view_app());
                    }
                }
            }
        },
    }
}

/// The id of the last type parameter named `name`.
fn find_type_param(s: &Vec<(Ident, u64)>, name: &Ident) -> (r: Option<u64>)
    ensures
        r == lookup_type_param(s@, *name),
{
    let mut i = s.len();
    assert(s@.subrange(0, i as int) =~= s@);
    while i > 0
        invariant
            i <= s@.len(),
            lookup_type_param(s@, *name) == lookup_type_param(s@.subrange(0, i as int), *name),
        decreases i,
    {
        assert(s@.subrange(0, i as int).drop_last() =~= s@.subrange(0, i - 1));
        if crate::type_checker::names_equal(&s[i - 1].0, name) {
            return Some(s[i - 1].1);
        }
        i = i - 1;
    }
    None
}

/// The id of the last type constructor bound to `path`.
fn find_type_id(s: &Vec<(ModulePath, u64)>, path: &ModulePath) -> (r: Option<u64>)
    ensures
        r == lookup_type_id(s@, *path),
{
    let mut i = s.len();
    assert(s@.subrange(0, i as int) =~= s@);
    while i > 0
        invariant
            i <= s@.len(),
            lookup_type_id(s@, *path) == lookup_type_id(s@.subrange(0, i as int), *path),
        decreases i,
    {
        assert(s@.subrange(0, i as int).drop_last() =~= s@.subrange(0, i - 1));
        if paths_equal(&s[i - 1].0, path) {
            return Some(s[i - 1].1);
        }
        i = i - 1;
    }
    None
}

/// Every type constructor in scope is stored.
pub open spec fn scope_ok(u: Universe, scope: TypeScope) -> bool {
    forall|i: int| 0 <= i < scope.types@.len() ==> (#[trigger] scope.types@[i]).1 < u.type_cons@.len()
}

proof fn lemma_lookup_type_id_ok(s: Seq<(ModulePath, u64)>, p: ModulePath, n: nat)
    requires
        forall|i: int| 0 <= i < s.len() ==> (#[trigger] s[i]).1 < n,
    ensures
        lookup_type_id(s, p) matches Some(tc) ==> tc < n,
    decreases s.len(),
{
    if s.len() > 0 {
        lemma_lookup_type_id_ok(s.drop_last(), p, n);
    }
}

/// The type application that a type annotation reads as: a path names a type
/// parameter in scope or a type constructor; an array or function annotation
/// stores a new array or function constructor (a function without a return
/// type returns unit).
#[verifier::loop_isolation(false)]
pub fn type_app_from_annotation(universe: &mut Universe, scope: &TypeScope, ann: &TypeAnnotation, span: Span) -> (r: Result<
    TypeApp,
    AnalysisError,
>)
    requires
        old(universe).wf(),
        old(universe).unit < old(universe).type_cons@.len(),
        scope_ok(*old(universe), *scope),
    ensures
        final(universe).wf(),
        Universe::extends(*old(universe), *final(universe)),
        r is Ok <==> app_resolves(*scope, *ann),
        r matches Ok(t) ==> app_ok(final(universe).type_cons@.len() as nat, t)
            && app_denotes(final(universe).type_cons@, final(universe).unit, *scope, *ann, t.view_app()),
        r matches Err(e) ==> e is UnknownType,
        r matches Err(AnalysisError::UnknownType(_, s)) ==> s == span,
        ann matches TypeAnnotation::Path(p) ==> (r matches Err(AnalysisError::UnknownType(q, _)) ==> q.0@ == p.0@),
        ann is Path ==> *final(universe) == *old(universe),
    decreases ann,
{
    match ann {
        TypeAnnotation::Path(p) => {
            if p.0.len() == 1 {
                if let Some(id) = find_type_param(&scope.type_params, &p.0[0]) {
                    return Ok(TypeApp::Param(id));
                }
            }
            match find_type_id(&scope.types, p) {
                Some(tc) => {
                    proof {
                        lemma_lookup_type_id_ok(scope.types@, *p, universe.type_cons@.len() as nat);
                    }
                    Ok(TypeApp::Applied { type_cons: tc, args: None })
                },
                None => Err(AnalysisError::UnknownType(p.duplicate(), span)),
            }
        },
        TypeAnnotation::Array(elem, size) => {
            let element = type_app_from_annotation(universe, scope, elem, span)?;
            let ghost u1 = universe.type_cons@;
            let id = universe.insert_type_cons(TypeCons::Array { element_type: element, size: *size });
            proof {
                lemma_app_denotes_extends(u1, universe.type_cons@, universe.unit, *scope, **elem, element.view_app());
            }
            Ok(TypeApp::Applied { type_cons: id, args: None })
        },
        TypeAnnotation::FnType(params, ret) => {
            let ghost u0 = universe.type_cons@;
            let mut parameters: Vec<TypeApp> = Vec::new();
            match params {
                Some(v) => {
                    let mut k: usize = 0;
                    while k < v.len()
                        invariant
                            k <= v@.len(),
                            universe.wf(),
                            Universe::extends(*old(universe), *universe),
                            parameters@.len() == k,
                            forall|j: int| 0 <= j < k ==> app_resolves(*scope, #[trigger] v@[j]),
                            forall|j: int| 0 <= j < k ==> app_denotes(universe.type_cons@, universe.unit, *scope, #[trigger] v@[j], parameters@[j].view_app()),
                            apps_ok(universe.type_cons@.len() as nat, parameters@),
                        decreases v.len() - k,
                    {
                        proof {
                            vstd::std_specs::vec::axiom_vec_index_decreases(*v, k as int);
                        }
                        let ghost uk = universe.type_cons@;
                        let t = match type_app_from_annotation(universe, scope, &v[k], span) {
                            Ok(t) => t,
                            Err(e) => {
                                assert(!app_resolves(*scope, v@[k as int]));
                                return Err(e);
                            },
                        };
                        proof {
                            assert forall|j: int| 0 <= j < k implies app_denotes(universe.type_cons@, universe.unit, *scope, #[trigger] v@[j], parameters@[j].view_app()) by {
                                lemma_app_denotes_extends(uk, universe.type_cons@, universe.unit, *scope, v@[j], parameters@[j].view_app());
                            }
                            lemma_apps_ok_mono(uk.len() as nat, universe.type_cons@.len() as nat, parameters@);
                        }
                        parameters.push(t);
                        k = k + 1;
                    }
                },
                None => {},
            }
            let ghost u1 = universe.type_cons@;
            let return_type = match ret {
                Some(r) => type_app_from_annotation(universe, scope, r, span)?,
                None => TypeApp::Applied { type_cons: universe.unit(), args: None },
            };
            let ghost u2 = universe.type_cons@;
            proof {
                lemma_apps_ok_mono(u1.len() as nat, u2.len() as nat, parameters@);
            }
            let id = universe.insert_type_cons(TypeCons::Function { type_params: None, parameters, return_type });
            proof {
                let u3 = universe.type_cons@;
                if let Some(v) = params {
                    assert forall|j: int| 0 <= j < v@.len() implies app_denotes(u3, universe.unit, *scope, #[trigger] v@[j], parameters@[j].view_app()) by {
                        lemma_app_denotes_extends(u1, u3, universe.unit, *scope, v@[j], parameters@[j].view_app());
                    }
                }
                if let Some(r) = ret {
                    lemma_app_denotes_extends(u2, u3, universe.unit, *scope, **r, return_type.view_app());
                }
            }
            Ok(TypeApp::Applied { type_cons: id, args: None })
        },
    }
}

} // verus!

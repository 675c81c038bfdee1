//! The generic shape of a context selector.
//!
//! A selector is a type of its own, so it redeclares only the error
//! parameters its fields mention (the projected ones, in declaration order);
//! every other field rides an `Into` parameter of its own. The impls place
//! each bound or `where` predicate where every parameter it names is in
//! scope: on the selector's own impl when it names only selector
//! parameters, otherwise on the leaf methods that declare the free ones.

use vstd::prelude::*;
use crate::chars::push_str;
use crate::generics::{names_set, vec_contains};

verus! {

#[derive(Debug, Clone, Copy, PartialEq, Eq)]
pub enum ParamKind {
    Type,
    Const,
    Lifetime,
}

/// A declared generic parameter: its kind, its name (a lifetime without its
/// `'`), and whether it carries inline bounds.
#[derive(Debug, Clone)]
pub struct ParamDecl {
    pub kind: ParamKind,
    pub name: String,
    pub has_bounds: bool,
}

/// The declared parameters that a type or a predicate mentions, by kind.
#[derive(Debug, Clone)]
pub struct ParamRefs {
    pub types: Vec<String>,
    pub consts: Vec<String>,
    pub lifetimes: Vec<String>,
}

pub open spec fn refs_of_kind(r: ParamRefs, k: ParamKind) -> Seq<String> {
    match k {
        ParamKind::Type => r.types@,
        ParamKind::Const => r.consts@,
        ParamKind::Lifetime => r.lifetimes@,
    }
}

pub open spec fn refs_empty(r: ParamRefs) -> bool {
    r.types@.len() == 0 && r.consts@.len() == 0 && r.lifetimes@.len() == 0
}

/// The names `r` mentions, whatever their kind.
pub open spec fn ref_names(r: ParamRefs) -> Set<Seq<char>> {
    names_set(r.types@) + names_set(r.consts@) + names_set(r.lifetimes@)
}

impl ParamRefs {
    /// Whether no declared parameter is mentioned.
    pub fn is_empty(&self) -> (r: bool)
        ensures
            r == refs_empty(*self),
    {
        self.types.len() == 0 && self.consts.len() == 0 && self.lifetimes.len() == 0
    }

    /// Whether `name` is mentioned as a parameter of any kind.
    pub fn mentions(&self, name: &str) -> (r: bool)
        ensures
            r == ref_names(*self).contains(name@),
    {
        vec_contains(&self.types, name) || vec_contains(&self.consts, name) || vec_contains(
            &self.lifetimes,
            name,
        )
    }
}

/// One captured field of a selector: the parameters its type mentions, and
/// whether it is cfg-gated.
#[derive(Debug, Clone)]
pub struct ShapeField {
    pub refs: ParamRefs,
    pub has_cfg: bool,
}

/// Parameter `p` is mentioned, with its kind, by some field.
pub open spec fn referenced(p: ParamDecl, fs: Seq<ShapeField>) -> bool {
    exists|j: int| 0 <= j < fs.len() && names_set(refs_of_kind(#[trigger] fs[j].refs, p.kind)).contains(p.name@)
}

/// The indices of `ps[..n]` that some field mentions, in order.
pub open spec fn projected_indices(ps: Seq<ParamDecl>, fs: Seq<ShapeField>, n: int) -> Seq<usize>
    decreases n,
{
    if n <= 0 {
        Seq::empty()
    } else if referenced(ps[n - 1], fs) {
        projected_indices(ps, fs, n - 1).push((n - 1) as usize)
    } else {
        projected_indices(ps, fs, n - 1)
    }
}

/// A selector redeclares exactly the error parameters its fields mention,
/// each once, in the error's declaration order.
pub proof fn lemma_projection_exact(ps: Seq<ParamDecl>, fs: Seq<ShapeField>, n: int)
    requires
        0 <= n <= ps.len(),
        ps.len() <= usize::MAX,
    ensures
        ({
            let pr = projected_indices(ps, fs, n);
            &&& forall|k: int| 0 <= k < pr.len() ==> (#[trigger] pr[k]) < n && referenced(ps[pr[k] as int], fs)
            &&& forall|k: int, l: int| 0 <= k < l < pr.len() ==> pr[k] < pr[l]
            &&& forall|i: int| 0 <= i < n && referenced(ps[i], fs) ==> exists|k: int| 0 <= k < pr.len() && pr[k] == i
        }),
    decreases n,
{
    if n > 0 {
        lemma_projection_exact(ps, fs, n - 1);
        let prev = projected_indices(ps, fs, n - 1);
        if referenced(ps[n - 1], fs) {
            let pr = prev.push((n - 1) as usize);
            assert(pr[prev.len() as int] == n - 1);
            assert forall|i: int| 0 <= i < n && referenced(ps[i], fs) implies exists|k: int| 0 <= k < pr.len() && pr[k] == i by {
                if i < n - 1 {
                    let k = choose|k: int| 0 <= k < prev.len() && prev[k] == i;
                    assert(pr[k] == prev[k]);
                } else {
                    assert(pr[prev.len() as int] == i);
                }
            }
        }
    }
}

/// A field rides an `Into` parameter unless it is cfg-gated or names an
/// error parameter.
pub open spec fn rides_into(f: ShapeField) -> bool {
    !f.has_cfg && refs_empty(f.refs)
}

/// The generic shape of one selector.
#[derive(Debug, Clone)]
pub struct SelectorShape {
    /// The error parameters the selector redeclares (indices into the
    /// error's parameters, in declaration order).
    pub projected: Vec<usize>,
    /// Their names.
    pub referenced_names: Vec<String>,
    /// Per field: whether it rides an `Into` parameter `__T{i}`.
    pub rides_into: Vec<bool>,
    /// Whether the selector can derive `Copy` and `Clone`: every field rides
    /// an `Into` parameter.
    pub copyable: bool,
}

fn field_mentions(f: &ShapeField, p: &ParamDecl) -> (r: bool)
    ensures
        r == names_set(refs_of_kind(f.refs, p.kind)).contains(p.name@),
{
    match p.kind {
        ParamKind::Type => vec_contains(&f.refs.types, p.name.as_str()),
        ParamKind::Const => vec_contains(&f.refs.consts, p.name.as_str()),
        ParamKind::Lifetime => vec_contains(&f.refs.lifetimes, p.name.as_str()),
    }
}

fn is_referenced(p: &ParamDecl, fields: &Vec<ShapeField>) -> (r: bool)
    ensures
        r == referenced(*p, fields@),
{
    let mut j: usize = 0;
    while j < fields.len()
        invariant
            j <= fields.len(),
            forall|k: int| 0 <= k < j ==> !names_set(refs_of_kind(#[trigger] fields@[k].refs, p.kind)).contains(p.name@),
        decreases fields.len() - j,
    {
        if field_mentions(&fields[j], p) {
            return true;
        }
        j = j + 1;
    }
    false
}

/// The shape of a selector over `fields`, for an error declaring `params`.
pub fn selector_shape(params: &Vec<ParamDecl>, fields: &Vec<ShapeField>) -> (s: SelectorShape)
    ensures
        s.rides_into@.len() == fields@.len(),
        forall|j: int| 0 <= j < fields@.len() ==> s.rides_into@[j] == rides_into(#[trigger] fields@[j]),
        s.copyable == (forall|j: int| 0 <= j < fields@.len() ==> rides_into(#[trigger] fields@[j])),
        s.projected@ == projected_indices(params@, fields@, params@.len() as int),
        s.referenced_names@.len() == s.projected@.len(),
        forall|k: int| 0 <= k < s.projected@.len() ==> (#[trigger] s.referenced_names@[k])@ == params@[s.projected@[k] as int].name@,
{
    let mut rides: Vec<bool> = Vec::new();
    let mut copyable = true;
    let mut j: usize = 0;
    while j < fields.len()
        invariant
            j <= fields.len(),
            rides@.len() == j,
            forall|k: int| 0 <= k < j ==> rides@[k] == rides_into(#[trigger] fields@[k]),
            copyable == (forall|k: int| 0 <= k < j ==> rides_into(#[trigger] fields@[k])),
        decreases fields.len() - j,
    {
        let r = !fields[j].has_cfg && fields[j].refs.is_empty();
        rides.push(r);
        if !r {
            copyable = false;
        }
        j = j + 1;
    }
    let mut projected: Vec<usize> = Vec::new();
    let mut names: Vec<String> = Vec::new();
    let mut i: usize = 0;
    while i < params.len()
        invariant
            i <= params.len(),
            projected@ == projected_indices(params@, fields@, i as int),
            names@.len() == projected@.len(),
            forall|k: int| 0 <= k < projected@.len() ==> (#[trigger] names@[k])@ == params@[projected@[k] as int].name@,
        decreases params.len() - i,
    {
        if is_referenced(&params[i], fields) {
            projected.push(i);
            names.push(params[i].name.clone());
        }
        i = i + 1;
    }
    SelectorShape { projected, referenced_names: names, rides_into: rides, copyable }
}

/// The indices of `ps[..n]` whose name is not in `names`, in order.
pub open spec fn free_indices(ps: Seq<ParamDecl>, names: Seq<String>, n: int) -> Seq<usize>
    decreases n,
{
    if n <= 0 {
        Seq::empty()
    } else if !names_set(names).contains(ps[n - 1].name@) {
        free_indices(ps, names, n - 1).push((n - 1) as usize)
    } else {
        free_indices(ps, names, n - 1)
    }
}

/// The error parameters that no field of the selector mentions (their names
/// are not among `names`): the leaf methods declare them.
pub fn free_params(params: &Vec<ParamDecl>, names: &Vec<String>) -> (r: Vec<usize>)
    ensures
        r@ == free_indices(params@, names@, params@.len() as int),
{
    let mut r: Vec<usize> = Vec::new();
    let mut i: usize = 0;
    while i < params.len()
        invariant
            i <= params.len(),
            r@ == free_indices(params@, names@, i as int),
        decreases params.len() - i,
    {
        if !vec_contains(names, params[i].name.as_str()) {
            r.push(i);
        }
        i = i + 1;
    }
    r
}

/// A predicate a leaf impl must place: the inline bounds of parameter `.0`
/// lowered to a `where` predicate, or the error's `where` predicate `.0`.
#[derive(Debug, Clone, Copy, PartialEq, Eq)]
pub enum PoolPred {
    Inline(usize),
    Where(usize),
}

/// The indices of `ps[..n]` whose inline bounds are lowered: bounded type
/// and lifetime parameters among `names`.
pub open spec fn inline_indices(ps: Seq<ParamDecl>, names: Seq<String>, n: int) -> Seq<usize>
    decreases n,
{
    if n <= 0 {
        Seq::empty()
    } else if ps[n - 1].kind != ParamKind::Const && ps[n - 1].has_bounds && names_set(names).contains(
        ps[n - 1].name@,
    ) {
        inline_indices(ps, names, n - 1).push((n - 1) as usize)
    } else {
        inline_indices(ps, names, n - 1)
    }
}

pub open spec fn spec_pool(ps: Seq<ParamDecl>, names: Seq<String>, n_where: nat) -> Seq<PoolPred> {
    inline_indices(ps, names, ps.len() as int).map_values(|i: usize| PoolPred::Inline(i)) + Seq::new(
        n_where,
        |w: int| PoolPred::Where(w as usize),
    )
}

/// The predicates the leaf impls place: the inline bounds of the projected
/// parameters (named by `names`), then the error's `n_where` `where`
/// predicates.
pub fn leaf_predicate_pool(params: &Vec<ParamDecl>, names: &Vec<String>, n_where: usize) -> (r: Vec<PoolPred>)
    ensures
        r@ == spec_pool(params@, names@, n_where as nat),
{
    let mut r: Vec<PoolPred> = Vec::new();
    let mut i: usize = 0;
    while i < params.len()
        invariant
            i <= params.len(),
            r@ == inline_indices(params@, names@, i as int).map_values(|i: usize| PoolPred::Inline(i)),
        decreases params.len() - i,
    {
        let p = &params[i];
        let lowered = match p.kind {
            ParamKind::Const => false,
            _ => p.has_bounds,
        };
        if lowered && vec_contains(names, p.name.as_str()) {
            r.push(PoolPred::Inline(i));
        }
        i = i + 1;
        assert(r@ =~= inline_indices(params@, names@, i as int).map_values(|i: usize| PoolPred::Inline(i)));
    }
    let ghost inl = r@;
    let mut w: usize = 0;
    while w < n_where
        invariant
            w <= n_where,
            r@ == inl + Seq::new(w as nat, |k: int| PoolPred::Where(k as usize)),
        decreases n_where - w,
    {
        r.push(PoolPred::Where(w));
        w = w + 1;
        assert(r@ =~= inl + Seq::new(w as nat, |k: int| PoolPred::Where(k as usize)));
    }
    r
}

/// Every name in `named` is among `names`.
pub open spec fn all_in(named: Seq<String>, names: Seq<String>) -> bool {
    forall|i: int| 0 <= i < named.len() ==> names_set(names).contains(#[trigger] named[i]@)
}

/// Some name in `named` is a parameter of `ps` that is not among `names`
/// (a free parameter).
pub open spec fn names_free(named: Seq<String>, ps: Seq<ParamDecl>, names: Seq<String>) -> bool {
    exists|i: int|
        0 <= i < named.len() && !names_set(names).contains(#[trigger] named[i]@) && exists|q: int|
            0 <= q < ps.len() && ps[q].name@ == named[i]@
}

/// The positions of `named[..n]` satisfying `all_in`.
pub open spec fn scoped_positions(named: Seq<Vec<String>>, names: Seq<String>, n: int) -> Seq<usize>
    decreases n,
{
    if n <= 0 {
        Seq::empty()
    } else if all_in(named[n - 1]@, names) {
        scoped_positions(named, names, n - 1).push((n - 1) as usize)
    } else {
        scoped_positions(named, names, n - 1)
    }
}

/// The positions of `named[..n]` satisfying `names_free`.
pub open spec fn free_positions(named: Seq<Vec<String>>, ps: Seq<ParamDecl>, names: Seq<String>, n: int) -> Seq<usize>
    decreases n,
{
    if n <= 0 {
        Seq::empty()
    } else if names_free(named[n - 1]@, ps, names) {
        free_positions(named, ps, names, n - 1).push((n - 1) as usize)
    } else {
        free_positions(named, ps, names, n - 1)
    }
}

fn is_all_in(named: &Vec<String>, names: &Vec<String>) -> (r: bool)
    ensures
        r == all_in(named@, names@),
{
    let mut i: usize = 0;
    while i < named.len()
        invariant
            i <= named.len(),
            forall|k: int| 0 <= k < i ==> names_set(names@).contains(#[trigger] named@[k]@),
        decreases named.len() - i,
    {
        if !vec_contains(names, named[i].as_str()) {
            return false;
        }
        i = i + 1;
    }
    true
}

fn is_param_name(params: &Vec<ParamDecl>, name: &str) -> (r: bool)
    ensures
        r == exists|q: int| 0 <= q < params@.len() && params@[q].name@ == name@,
{
    let mut q: usize = 0;
    while q < params.len()
        invariant
            q <= params.len(),
            forall|k: int| 0 <= k < q ==> params@[k].name@ != name@,
        decreases params.len() - q,
    {
        if crate::types::str_eq(params[q].name.as_str(), name) {
            return true;
        }
        q = q + 1;
    }
    false
}

fn is_names_free(named: &Vec<String>, params: &Vec<ParamDecl>, names: &Vec<String>) -> (r: bool)
    ensures
        r == names_free(named@, params@, names@),
{
    let mut i: usize = 0;
    while i < named.len()
        invariant
            i <= named.len(),
            forall|k: int|
                0 <= k < i ==> !(!names_set(names@).contains(#[trigger] named@[k]@) && exists|q: int|
                    0 <= q < params@.len() && params@[q].name@ == named@[k]@),
        decreases named.len() - i,
    {
        if !vec_contains(names, named[i].as_str()) && is_param_name(params, named[i].as_str()) {
            return true;
        }
        i = i + 1;
    }
    false
}

/// The predicates (given by the parameter names each one mentions) that fit
/// an impl scoped to the parameters named `names`: those naming only them.
pub fn scoped_predicates(named: &Vec<Vec<String>>, names: &Vec<String>) -> (r: Vec<usize>)
    ensures
        r@ == scoped_positions(named@, names@, named@.len() as int),
{
    let mut r: Vec<usize> = Vec::new();
    let mut p: usize = 0;
    while p < named.len()
        invariant
            p <= named.len(),
            r@ == scoped_positions(named@, names@, p as int),
        decreases named.len() - p,
    {
        if is_all_in(&named[p], names) {
            r.push(p);
        }
        p = p + 1;
    }
    r
}

/// The predicates that name a free parameter (one of `params` whose name is
/// not among `names`): the leaf methods declaring them carry these.
pub fn free_predicates(named: &Vec<Vec<String>>, params: &Vec<ParamDecl>, names: &Vec<String>) -> (r: Vec<usize>)
    ensures
        r@ == free_positions(named@, params@, names@, named@.len() as int),
{
    let mut r: Vec<usize> = Vec::new();
    let mut p: usize = 0;
    while p < named.len()
        invariant
            p <= named.len(),
            r@ == free_positions(named@, params@, names@, p as int),
        decreases named.len() - p,
    {
        if is_names_free(&named[p], params, names) {
            r.push(p);
        }
        p = p + 1;
    }
    r
}

/// A predicate that names only declared parameters lands on exactly one
/// impl: the selector's own when every parameter it names is a selector
/// parameter, else the leaf methods that declare the free ones.
pub proof fn lemma_predicate_placed_once(named: Seq<String>, ps: Seq<ParamDecl>, names: Seq<String>)
    requires
        forall|i: int| 0 <= i < named.len() ==> exists|q: int| 0 <= q < ps.len() && ps[q].name@ == (#[trigger] named[i])@,
    ensures
        all_in(named, names) != names_free(named, ps, names),
{
    if !all_in(named, names) {
        let i = choose|i: int| 0 <= i < named.len() && !names_set(names).contains(#[trigger] named[i]@);
        let q = choose|q: int| 0 <= q < ps.len() && ps[q].name@ == named[i]@;
        assert(names_free(named, ps, names));
    }
}

/// The first of `ps[i..]` that is a type or const parameter mentioned
/// neither among `names` nor by `source`, or `ps.len()`.
pub open spec fn first_unconstrained(ps: Seq<ParamDecl>, names: Seq<String>, source: ParamRefs, i: int) -> int
    decreases ps.len() - i,
{
    if i < 0 || i >= ps.len() {
        ps.len() as int
    } else if ps[i].kind != ParamKind::Lifetime && !names_set(names).contains(ps[i].name@)
        && !ref_names(source).contains(ps[i].name@) {
        i
    } else {
        first_unconstrained(ps, names, source, i + 1)
    }
}

/// The first error parameter that a sourced selector's `Contextual` impl
/// would leave unconstrained: a type or const parameter named neither by the
/// selector's fields (`names`) nor by the source type.
pub fn unconstrained_error_param(params: &Vec<ParamDecl>, names: &Vec<String>, source: &ParamRefs) -> (r: Option<usize>)
    ensures
        ({
            let k = first_unconstrained(params@, names@, *source, 0);
            if k < params@.len() {
                r == Some(k as usize)
            } else {
                r is None
            }
        }),
{
    let mut i: usize = 0;
    while i < params.len()
        invariant
            i <= params.len(),
            first_unconstrained(params@, names@, *source, 0) == first_unconstrained(params@, names@, *source, i as int),
        decreases params.len() - i,
    {
        let p = &params[i];
        let lifetime = match p.kind {
            ParamKind::Lifetime => true,
            _ => false,
        };
        if !lifetime && !vec_contains(names, p.name.as_str()) && !source.mentions(p.name.as_str()) {
            return Some(i);
        }
        i = i + 1;
    }
    None
}

pub open spec fn unconstrained_text(name: Seq<char>) -> Seq<char> {
    "a variant with a `source` field must reference every generic parameter of the error type in its source type or its other fields; parameter `"@
        + name
        + "` is used only by other variants, which would leave this selector's `Contextual` impl unconstrained — split it into its own error type or add `"@
        + name + "` to this variant"@
}

/// The message refusing a sourced variant that leaves parameter `name`
/// unconstrained.
pub fn unconstrained_message(name: &str) -> (r: String)
    ensures
        r@ == unconstrained_text(name@),
{
    let mut m = String::new();
    push_str(
        &mut m,
        "a variant with a `source` field must reference every generic parameter of the error type in its source type or its other fields; parameter `",
    );
    push_str(&mut m, name);
    push_str(
        &mut m,
        "` is used only by other variants, which would leave this selector's `Contextual` impl unconstrained — split it into its own error type or add `",
    );
    push_str(&mut m, name);
    push_str(&mut m, "` to this variant");
    assert(m@ =~= unconstrained_text(name@));
    m
}

// ─── Visibility ──────────────────────────────────────────────────────

/// A visibility: `pub`, private, or `pub(path)` / `pub(in path)`.
#[derive(Debug, Clone)]
pub enum Vis {
    Public,
    Inherited,
    Restricted { in_kw: bool, path: Vec<String> },
}

pub open spec fn seg_views(p: Seq<String>) -> Seq<Seq<char>> {
    p.map_values(|s: String| s@)
}

/// What a visibility means, with the path by its segments' text.
pub open spec fn vis_view(v: Vis) -> (int, bool, Seq<Seq<char>>) {
    match v {
        Vis::Public => (0, false, Seq::empty()),
        Vis::Inherited => (1, false, Seq::empty()),
        Vis::Restricted { in_kw, path } => (2, in_kw, seg_views(path@)),
    }
}

/// `v` as seen from a child module of the one it was written in.
pub open spec fn spec_lift(v: Vis) -> (int, bool, Seq<Seq<char>>) {
    match v {
        Vis::Public => vis_view(v),
        Vis::Inherited => (2, false, seq!["super"@]),
        Vis::Restricted { in_kw, path } => if path@.len() > 0 && path@[0]@ == "crate"@ {
            vis_view(v)
        } else if path@.len() == 1 && path@[0]@ == "self"@ {
            (2, false, seq!["super"@])
        } else {
            (2, true, seq!["super"@] + seg_views(path@))
        },
    }
}

fn copy_segments(src: &Vec<String>, out: &mut Vec<String>)
    ensures
        seg_views(final(out)@) == seg_views(old(out)@) + seg_views(src@),
{
    let ghost start = seg_views(out@);
    let mut i: usize = 0;
    while i < src.len()
        invariant
            i <= src.len(),
            seg_views(out@) == start + seg_views(src@).take(i as int),
        decreases src.len() - i,
    {
        let ghost before = out@;
        let c = src[i].clone();
        out.push(c);
        proof {
            assert(seg_views(out@) =~= seg_views(before).push(c@));
            assert(seg_views(src@).take(i + 1) =~= seg_views(src@).take(i as int).push(src@[i as int]@));
        }
        i = i + 1;
        assert(seg_views(out@) =~= start + seg_views(src@).take(i as int));
    }
    assert(seg_views(src@).take(src@.len() as int) =~= seg_views(src@));
}

fn pub_super() -> (r: Vis)
    ensures
        vis_view(r) == (2int, false, seq!["super"@]),
{
    let mut path: Vec<String> = Vec::new();
    path.push(String::from_str("super"));
    proof {
        reveal_strlit("super");
    }
    let r = Vis::Restricted { in_kw: false, path };
    assert(seg_views(path@) =~= seq!["super"@]);
    r
}

/// Re-express `vis` one module level deeper, from a generated child module:
/// `pub` and `crate`-rooted paths stay, private and `self` become
/// `pub(super)`, any other path gains a leading `super`.
pub fn lift_into_child_module(vis: &Vis) -> (r: Vis)
    ensures
        vis_view(r) == spec_lift(*vis),
{
    match vis {
        Vis::Public => Vis::Public,
        Vis::Inherited => pub_super(),
        Vis::Restricted { in_kw, path } => {
            proof {
                reveal_strlit("crate");
                reveal_strlit("self");
            }
            if path.len() > 0 && crate::types::str_eq(path[0].as_str(), "crate") {
                let mut p: Vec<String> = Vec::new();
                copy_segments(path, &mut p);
                assert(seg_views(p@) =~= seg_views(path@));
                Vis::Restricted { in_kw: *in_kw, path: p }
            } else if path.len() == 1 && crate::types::str_eq(path[0].as_str(), "self") {
                pub_super()
            } else {
                let mut p: Vec<String> = Vec::new();
                p.push(String::from_str("super"));
                proof {
                    reveal_strlit("super");
                }
                assert(seg_views(p@) =~= seq!["super"@]);
                copy_segments(path, &mut p);
                Vis::Restricted { in_kw: true, path: p }
            }
        },
    }
}

/// A selector's visibility: the explicit one, else the error's own, lifted
/// into the child module when the selectors are wrapped in one.
pub fn resolve_selector_vis(explicit: Option<&Vis>, error_vis: &Vis, wrapped_in_module: bool) -> (r: Vis)
    ensures
        ({
            let chosen = match explicit {
                Some(v) => *v,
                None => *error_vis,
            };
            vis_view(r) == if wrapped_in_module {
                spec_lift(chosen)
            } else {
                vis_view(chosen)
            }
        }),
{
    let chosen = match explicit {
        Some(v) => v,
        None => error_vis,
    };
    if wrapped_in_module {
        lift_into_child_module(chosen)
    } else {
        match chosen {
            Vis::Public => Vis::Public,
            Vis::Inherited => Vis::Inherited,
            Vis::Restricted { in_kw, path } => {
                let mut p: Vec<String> = Vec::new();
                copy_segments(path, &mut p);
                assert(seg_views(p@) =~= seg_views(path@));
                Vis::Restricted { in_kw: *in_kw, path: p }
            },
        }
    }
}

} // verus!

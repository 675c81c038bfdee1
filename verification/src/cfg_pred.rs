//! Cfg predicates as trees: the text rustc reads for one, and when it holds
//! under an assignment of the base predicates (bit `k` for base `k`) and a
//! valuation of predicates known only by their text.

use vstd::prelude::*;
use crate::cfg_gate::bit_set;
use crate::cfg_render::joined;

verus! {

/// A cfg predicate.
pub enum CfgPred {
    /// Base predicate `k`, written as its text in the base list.
    Base(nat),
    /// A predicate known by its text.
    Atom(Seq<char>),
    Not(Box<CfgPred>),
    All(Seq<CfgPred>),
    Any(Seq<CfgPred>),
}

/// The text of `p`: `not(..)`, `all(..)` and `any(..)` with `, ` between
/// arguments; base `k` is written `bases[k]`.
pub open spec fn pred_text(p: CfgPred, bases: Seq<Seq<char>>) -> Seq<char>
    decreases p, 0int,
{
    match p {
        CfgPred::Base(k) => bases[k as int],
        CfgPred::Atom(t) => t,
        CfgPred::Not(q) => "not("@ + pred_text(*q, bases) + ")"@,
        CfgPred::All(ps) => "all("@ + args_text(ps, bases, ps.len() as int) + ")"@,
        CfgPred::Any(ps) => "any("@ + args_text(ps, bases, ps.len() as int) + ")"@,
    }
}

/// The texts of `ps[..n]`, separated by `, `.
pub open spec fn args_text(ps: Seq<CfgPred>, bases: Seq<Seq<char>>, n: int) -> Seq<char>
    decreases ps, n,
{
    if 0 < n <= ps.len() {
        if n == 1 {
            pred_text(ps[0], bases)
        } else {
            args_text(ps, bases, n - 1) + ", "@ + pred_text(ps[n - 1], bases)
        }
    } else {
        Seq::empty()
    }
}

/// Whether `p` holds under assignment `x` of the bases and valuation `v` of
/// the atoms.
pub open spec fn pred_holds(p: CfgPred, x: u32, v: spec_fn(Seq<char>) -> bool) -> bool
    decreases p, 0int,
{
    match p {
        CfgPred::Base(k) => bit_set(x, k as int),
        CfgPred::Atom(t) => v(t),
        CfgPred::Not(q) => !pred_holds(*q, x, v),
        CfgPred::All(ps) => all_hold(ps, ps.len() as int, x, v),
        CfgPred::Any(ps) => any_holds(ps, ps.len() as int, x, v),
    }
}

/// Every one of `ps[..n]` holds.
pub open spec fn all_hold(ps: Seq<CfgPred>, n: int, x: u32, v: spec_fn(Seq<char>) -> bool) -> bool
    decreases ps, n,
{
    if 0 < n <= ps.len() {
        all_hold(ps, n - 1, x, v) && pred_holds(ps[n - 1], x, v)
    } else {
        true
    }
}

/// Some one of `ps[..n]` holds.
pub open spec fn any_holds(ps: Seq<CfgPred>, n: int, x: u32, v: spec_fn(Seq<char>) -> bool) -> bool
    decreases ps, n,
{
    if 0 < n <= ps.len() {
        any_holds(ps, n - 1, x, v) || pred_holds(ps[n - 1], x, v)
    } else {
        false
    }
}

pub proof fn lemma_all_hold(ps: Seq<CfgPred>, n: int, x: u32, v: spec_fn(Seq<char>) -> bool)
    requires
        0 <= n <= ps.len(),
    ensures
        all_hold(ps, n, x, v) <==> forall|i: int| 0 <= i < n ==> pred_holds(#[trigger] ps[i], x, v),
    decreases n,
{
    if n > 0 {
        lemma_all_hold(ps, n - 1, x, v);
    }
}

pub proof fn lemma_any_holds(ps: Seq<CfgPred>, n: int, x: u32, v: spec_fn(Seq<char>) -> bool)
    requires
        0 <= n <= ps.len(),
    ensures
        any_holds(ps, n, x, v) <==> exists|i: int| 0 <= i < n && pred_holds(#[trigger] ps[i], x, v),
    decreases n,
{
    if n > 0 {
        lemma_any_holds(ps, n - 1, x, v);
        if pred_holds(ps[n - 1], x, v) {
            assert(pred_holds(ps[n - 1], x, v));
        }
    }
}

/// The arguments' text is their texts joined with `, `.
pub proof fn lemma_args_text(ps: Seq<CfgPred>, bases: Seq<Seq<char>>, n: int)
    requires
        0 <= n <= ps.len(),
    ensures
        args_text(ps, bases, n) == joined(Seq::new(n as nat, |i: int| pred_text(ps[i], bases)), ", "@),
    decreases n,
{
    let t = Seq::new(n as nat, |i: int| pred_text(ps[i], bases));
    if n > 1 {
        lemma_args_text(ps, bases, n - 1);
        assert(t.drop_last() =~= Seq::new((n - 1) as nat, |i: int| pred_text(ps[i], bases)));
    } else if n == 0 {
        assert(t.len() == 0);
    }
}

} // verus!

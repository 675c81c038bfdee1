//! The predicate under which a field survives cfg-stripping, written over
//! the predicates' text: `#[cfg(P)]` gives `P`, `#[cfg_attr(Q, cfg(P))]`
//! gives `any(not(Q), P)` (the nested `cfg` only applies when `Q` holds),
//! and several are joined under `all(..)`. A `cfg_attr` that gates no
//! `cfg`, however deep, removes nothing and contributes nothing.

use vstd::prelude::*;
use crate::cfg_render::joined;
use crate::cfg_pred::{CfgPred, all_hold, any_holds, lemma_all_hold, lemma_args_text, pred_holds, pred_text};
use crate::chars::push_str;

verus! {

/// An attribute meta as the existence predicate reads it.
pub enum ExistMeta {
    /// `cfg(P)`, with `P`'s text.
    Cfg(String),
    /// `cfg_attr(Q, metas..)`, with `Q`'s text and the gated metas.
    CfgAttr(String, Vec<ExistMeta>),
    /// Anything else.
    Other,
}

/// The conjunction of `parts`: nothing, the one part, or `all(..)`.
pub open spec fn conjunction(parts: Seq<Seq<char>>) -> Option<Seq<char>> {
    if parts.len() == 0 {
        None
    } else if parts.len() == 1 {
        Some(parts[0])
    } else {
        Some("all("@ + joined(parts, ", "@) + ")"@)
    }
}

/// What one meta contributes to the existence predicate.
pub open spec fn meta_exist(m: ExistMeta) -> Option<Seq<char>>
    decreases m, 0int,
{
    match m {
        ExistMeta::Cfg(p) => Some(p@),
        ExistMeta::CfgAttr(q, inner) => match conjunction(exist_parts(inner@, 0)) {
            Some(i) => Some("any(not("@ + q@ + "), "@ + i + ")"@),
            None => None,
        },
        ExistMeta::Other => None,
    }
}

/// What `ms[i..]` contribute, in order.
pub open spec fn exist_parts(ms: Seq<ExistMeta>, i: int) -> Seq<Seq<char>>
    decreases ms, ms.len() - i,
{
    if 0 <= i < ms.len() {
        match meta_exist(ms[i]) {
            Some(p) => seq![p] + exist_parts(ms, i + 1),
            None => exist_parts(ms, i + 1),
        }
    } else {
        Seq::empty()
    }
}

proof fn lemma_joined_push(items: Seq<Seq<char>>, x: Seq<char>, sep: Seq<char>)
    ensures
        joined(items.push(x), sep) == if items.len() == 0 {
            x
        } else {
            joined(items, sep) + sep + x
        },
{
    assert(items.push(x).drop_last() =~= items);
}

/// The parts of `ms`, in order.
fn parts_of(ms: &Vec<ExistMeta>) -> (r: Vec<String>)
    ensures
        r@.map_values(|s: String| s@) == exist_parts(ms@, 0),
    decreases ms, 1int,
{
    let mut out: Vec<String> = Vec::new();
    let mut i: usize = 0;
    while i < ms.len()
        invariant
            i <= ms.len(),
            out@.map_values(|s: String| s@) + exist_parts(ms@, i as int) == exist_parts(ms@, 0),
        decreases ms.len() - i,
    {
        proof {
            assert(decreases_to!(*ms => ms@));
            assert(decreases_to!(ms@ => ms@[i as int]));
        }
        let ghost before = out@.map_values(|s: String| s@);
        let ghost tail = exist_parts(ms@, i as int + 1);
        match meta_text(&ms[i]) {
            Some(p) => {
                let ghost pv = p@;
                out.push(p);
                proof {
                    assert(out@.map_values(|s: String| s@) =~= before.push(pv));
                    assert(before.push(pv) + tail =~= before + (seq![pv] + tail));
                }
            },
            None => {},
        }
        i = i + 1;
    }
    assert(out@.map_values(|s: String| s@) + Seq::<Seq<char>>::empty() =~= out@.map_values(|s: String| s@));
    out
}

/// The text of one meta's contribution.
fn meta_text(m: &ExistMeta) -> (r: Option<String>)
    ensures
        match r {
            Some(t) => meta_exist(*m) == Some(t@),
            None => meta_exist(*m) is None,
        },
    decreases m, 0int,
{
    match m {
        ExistMeta::Cfg(p) => Some(p.clone()),
        ExistMeta::CfgAttr(q, inner) => {
            proof {
                assert(decreases_to!(*m => *inner));
            }
            let parts = parts_of(inner);
            match conjoin(&parts) {
                Some(i) => {
                    let mut s = String::new();
                    push_str(&mut s, "any(not(");
                    push_str(&mut s, q.as_str());
                    push_str(&mut s, "), ");
                    push_str(&mut s, i.as_str());
                    push_str(&mut s, ")");
                    assert(s@ =~= "any(not("@ + q@ + "), "@ + i@ + ")"@);
                    Some(s)
                },
                None => {
                    None
                },
            }
        },
        ExistMeta::Other => None,
    }
}

/// The conjunction of `parts`' texts.
fn conjoin(parts: &Vec<String>) -> (r: Option<String>)
    ensures
        match r {
            Some(t) => conjunction(parts@.map_values(|s: String| s@)) == Some(t@),
            None => conjunction(parts@.map_values(|s: String| s@)) is None,
        },
{
    let ghost v = parts@.map_values(|s: String| s@);
    if parts.len() == 0 {
        return None;
    }
    if parts.len() == 1 {
        return Some(parts[0].clone());
    }
    let mut inner = String::new();
    let mut i: usize = 0;
    while i < parts.len()
        invariant
            i <= parts.len(),
            v == parts@.map_values(|s: String| s@),
            inner@ == joined(v.take(i as int), ", "@),
        decreases parts.len() - i,
    {
        let ghost before = inner@;
        if i > 0 {
            push_str(&mut inner, ", ");
        }
        push_str(&mut inner, parts[i].as_str());
        proof {
            lemma_joined_push(v.take(i as int), v[i as int], ", "@);
            assert(v.take(i as int).push(v[i as int]) =~= v.take(i as int + 1));
            if i == 0 {
                assert(before =~= Seq::<char>::empty());
            }
        }
        i = i + 1;
    }
    assert(v.take(parts@.len() as int) =~= v);
    let mut s = String::new();
    push_str(&mut s, "all(");
    push_str(&mut s, inner.as_str());
    push_str(&mut s, ")");
    assert(s@ =~= "all("@ + joined(v, ", "@) + ")"@);
    Some(s)
}

/// The predicate under which a field carrying `attrs` (its metas, in
/// order) survives cfg-stripping, or `None` when nothing gates it.
pub fn existence_text(attrs: &Vec<ExistMeta>) -> (r: Option<String>)
    ensures
        match r {
            Some(t) => conjunction(exist_parts(attrs@, 0)) == Some(t@),
            None => conjunction(exist_parts(attrs@, 0)) is None,
        },
{
    let parts = parts_of(attrs);
    conjoin(&parts)
}


// ─── What the text means ─────────────────────────────────────────────

/// Whether meta `m` lets its field survive cfg-stripping when the
/// predicates whose text `v` accepts hold: a `cfg(P)` needs `P`; a
/// `cfg_attr(Q, metas..)` applies its metas only when `Q` holds.
pub open spec fn meta_keeps(m: ExistMeta, v: spec_fn(Seq<char>) -> bool) -> bool
    decreases m, 0int,
{
    match m {
        ExistMeta::Cfg(p) => v(p@),
        ExistMeta::CfgAttr(q, inner) => v(q@) ==> all_keep(inner@, 0, v),
        ExistMeta::Other => true,
    }
}

/// Every one of `ms[i..]` lets the field survive.
pub open spec fn all_keep(ms: Seq<ExistMeta>, i: int, v: spec_fn(Seq<char>) -> bool) -> bool
    decreases ms, ms.len() - i,
{
    if 0 <= i < ms.len() {
        meta_keeps(ms[i], v) && all_keep(ms, i + 1, v)
    } else {
        true
    }
}

spec fn conj_pred(ps: Seq<CfgPred>) -> CfgPred {
    if ps.len() == 1 {
        ps[0]
    } else {
        CfgPred::All(ps)
    }
}

/// Predicates whose texts are `parts` give, joined, the text of their
/// conjunction, which holds when all of them do.
proof fn lemma_conj(ps: Seq<CfgPred>, parts: Seq<Seq<char>>)
    requires
        ps.len() == parts.len(),
        ps.len() >= 1,
        forall|j: int| 0 <= j < ps.len() ==> #[trigger] pred_text(ps[j], Seq::empty()) == parts[j],
    ensures
        conjunction(parts) == Some(pred_text(conj_pred(ps), Seq::empty())),
        forall|x: u32, v: spec_fn(Seq<char>) -> bool|
            pred_holds(conj_pred(ps), x, v) == all_hold(ps, ps.len() as int, x, v),
{
    if ps.len() != 1 {
        lemma_args_text(ps, Seq::empty(), ps.len() as int);
        assert(Seq::new(ps.len(), |j: int| pred_text(ps[j], Seq::empty())) =~= parts);
    } else {
        assert(pred_text(ps[0], Seq::empty()) == parts[0]);
        assert forall|x: u32, v: spec_fn(Seq<char>) -> bool|
            pred_holds(conj_pred(ps), x, v) == all_hold(ps, ps.len() as int, x, v) by {
            assert(all_hold(ps, 0, x, v));
        }
    }
}

proof fn lemma_meta_pred(m: ExistMeta) -> (r: Option<CfgPred>)
    ensures
        match meta_exist(m) {
            None => r is None && forall|v: spec_fn(Seq<char>) -> bool| meta_keeps(m, v),
            Some(t) => r matches Some(p) && pred_text(p, Seq::empty()) == t && forall|
                x: u32,
                v: spec_fn(Seq<char>) -> bool,
            | pred_holds(p, x, v) == meta_keeps(m, v),
        },
    decreases m, 0int,
{
    match m {
        ExistMeta::Cfg(p) => Some(CfgPred::Atom(p@)),
        ExistMeta::CfgAttr(q, inner) => {
            assert(decreases_to!(m => inner@));
            let ps = lemma_parts_pred(inner@, 0);
            let parts = exist_parts(inner@, 0);
            if parts.len() == 0 {
                assert forall|v: spec_fn(Seq<char>) -> bool| meta_keeps(m, v) by {
                    assert(all_hold(ps, 0, 0, v));
                }
                None
            } else {
                lemma_conj(ps, parts);
                let c = conj_pred(ps);
                let nq = CfgPred::Not(Box::new(CfgPred::Atom(q@)));
                let args = seq![nq, c];
                let p = CfgPred::Any(args);
                reveal_strlit("not(");
                reveal_strlit(")");
                reveal_strlit("any(");
                reveal_strlit(", ");
                reveal_strlit("any(not(");
                reveal_strlit("), ");
                assert(pred_text(CfgPred::Atom(q@), Seq::empty()) == q@);
                assert(pred_text(nq, Seq::empty()) == "not("@ + q@ + ")"@);
                assert(pred_text(p, Seq::empty()) =~= "any(not("@ + q@ + "), "@ + pred_text(c, Seq::empty())
                    + ")"@) by {
                    assert(args[0] == nq && args[1] == c);
                    assert(crate::cfg_pred::args_text(args, Seq::empty(), 1) == pred_text(nq, Seq::empty()));
                    assert(crate::cfg_pred::args_text(args, Seq::empty(), 2) == pred_text(nq, Seq::empty())
                        + ", "@ + pred_text(c, Seq::empty()));
                }
                assert forall|x: u32, v: spec_fn(Seq<char>) -> bool| pred_holds(p, x, v) == meta_keeps(m, v) by {
                    assert(args[0] == nq && args[1] == c);
                    assert(pred_holds(CfgPred::Atom(q@), x, v) == v(q@));
                    assert(pred_holds(nq, x, v) == !v(q@));
                    assert(any_holds(args, 0, x, v) == false);
                    assert(any_holds(args, 1, x, v) == pred_holds(nq, x, v));
                    assert(any_holds(args, 2, x, v) == (pred_holds(nq, x, v) || pred_holds(c, x, v)));
                }
                Some(p)
            }
        },
        ExistMeta::Other => None,
    }
}

proof fn lemma_parts_pred(ms: Seq<ExistMeta>, i: int) -> (ps: Seq<CfgPred>)
    ensures
        ps.len() == exist_parts(ms, i).len(),
        forall|j: int| 0 <= j < ps.len() ==> #[trigger] pred_text(ps[j], Seq::empty()) == exist_parts(ms, i)[j],
        forall|x: u32, v: spec_fn(Seq<char>) -> bool|
            all_hold(ps, ps.len() as int, x, v) == all_keep(ms, i, v),
    decreases ms, ms.len() - i,
{
    if 0 <= i < ms.len() {
        let rest = lemma_parts_pred(ms, i + 1);
        let tail = exist_parts(ms, i + 1);
        let r = lemma_meta_pred(ms[i]);
        match r {
            Some(p) => {
                let ps = seq![p] + rest;
                assert forall|j: int| 0 <= j < ps.len() implies #[trigger] pred_text(ps[j], Seq::empty())
                    == exist_parts(ms, i)[j] by {
                    if j > 0 {
                        assert(ps[j] == rest[j - 1]);
                    }
                }
                assert forall|x: u32, v: spec_fn(Seq<char>) -> bool|
                    all_hold(ps, ps.len() as int, x, v) == all_keep(ms, i, v) by {
                    lemma_all_hold(ps, ps.len() as int, x, v);
                    lemma_all_hold(rest, rest.len() as int, x, v);
                    if all_hold(rest, rest.len() as int, x, v) && pred_holds(p, x, v) {
                        assert forall|j: int| 0 <= j < ps.len() implies pred_holds(#[trigger] ps[j], x, v) by {
                            if j > 0 {
                                assert(ps[j] == rest[j - 1]);
                            }
                        }
                    }
                    if all_hold(ps, ps.len() as int, x, v) {
                        assert(pred_holds(ps[0], x, v));
                        assert forall|j: int| 0 <= j < rest.len() implies pred_holds(#[trigger] rest[j], x, v) by {
                            assert(ps[j + 1] == rest[j]);
                        }
                    }
                }
                ps
            },
            None => {
                assert(exist_parts(ms, i) == tail);
                assert forall|x: u32, v: spec_fn(Seq<char>) -> bool|
                    all_hold(rest, rest.len() as int, x, v) == all_keep(ms, i, v) by {
                    assert(meta_keeps(ms[i], v));
                }
                rest
            },
        }
    } else {
        let ps = Seq::<CfgPred>::empty();
        assert forall|x: u32, v: spec_fn(Seq<char>) -> bool|
            all_hold(ps, ps.len() as int, x, v) == all_keep(ms, i, v) by {}
        ps
    }
}

/// The text of a field's existence predicate holds, under every valuation
/// of the predicates in it, exactly when the field survives cfg-stripping:
/// when every `cfg` on it holds, and every `cfg` under a `cfg_attr` whose
/// condition holds. With no such text, the field always survives.
pub proof fn lemma_existence_means_survival(attrs: Seq<ExistMeta>)
    ensures
        conjunction(exist_parts(attrs, 0)) is None ==> forall|v: spec_fn(Seq<char>) -> bool|
            all_keep(attrs, 0, v),
        conjunction(exist_parts(attrs, 0)) is Some ==> exists|p: CfgPred|
            Some(#[trigger] pred_text(p, Seq::empty())) == conjunction(exist_parts(attrs, 0)) && forall|
                v: spec_fn(Seq<char>) -> bool,
            | pred_holds(p, 0, v) == all_keep(attrs, 0, v),
{
    let ps = lemma_parts_pred(attrs, 0);
    let parts = exist_parts(attrs, 0);
    if parts.len() == 0 {
        assert forall|v: spec_fn(Seq<char>) -> bool| all_keep(attrs, 0, v) by {
            assert(all_hold(ps, 0, 0, v));
        }
    } else {
        lemma_conj(ps, parts);
        let p = conj_pred(ps);
        assert(Some(pred_text(p, Seq::empty())) == conjunction(parts));
        assert(forall|v: spec_fn(Seq<char>) -> bool| pred_holds(p, 0, v) == all_keep(attrs, 0, v));
    }
}

} // verus!

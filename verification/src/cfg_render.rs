//! A gate's cfg predicate written out over the base predicates' text: a
//! product term is its one literal or `all(..)` of its literals, a negated
//! base is `not(..)`, and several terms are joined under `any(..)`.

use vstd::prelude::*;
use crate::cfg_gate::{
    Cube, Gate, bit_set, covered_by, cube_covers, cube_literals, cube_wf, full_mask, gate_holds,
    lemma_some_bit, literals_of,
};
use crate::cfg_pred::{
    CfgPred, lemma_all_hold, lemma_any_holds, lemma_args_text, pred_holds, pred_text,
};
use crate::chars::push_str;

verus! {

/// `items` separated by `sep`.
pub open spec fn joined(items: Seq<Seq<char>>, sep: Seq<char>) -> Seq<char>
    decreases items.len(),
{
    if items.len() == 0 {
        Seq::empty()
    } else if items.len() == 1 {
        items[0]
    } else {
        joined(items.drop_last(), sep) + sep + items.last()
    }
}

pub open spec fn texts_of(bases: Seq<String>) -> Seq<Seq<char>> {
    Seq::new(bases.len(), |k: int| bases[k]@)
}

/// A literal: its base, or `not(base)`.
pub open spec fn literal_text(bases: Seq<Seq<char>>, l: (usize, bool)) -> Seq<char> {
    if l.1 {
        bases[l.0 as int]
    } else {
        "not("@ + bases[l.0 as int] + ")"@
    }
}

pub open spec fn term_text(bases: Seq<Seq<char>>, lits: Seq<(usize, bool)>) -> Seq<char> {
    let parts = Seq::new(lits.len(), |i: int| literal_text(bases, lits[i]));
    if lits.len() == 1 {
        parts[0]
    } else {
        "all("@ + joined(parts, ", "@) + ")"@
    }
}

/// The predicate of a cover: its one term, or `any(..)` of its terms.
pub open spec fn cover_text(bases: Seq<Seq<char>>, cubes: Seq<Cube>) -> Seq<char> {
    let terms = Seq::new(cubes.len(), |i: int| term_text(bases, literals_of(cubes[i], bases.len() as int)));
    if cubes.len() == 1 {
        terms[0]
    } else {
        "any("@ + joined(terms, ", "@) + ")"@
    }
}

pub open spec fn spec_gate_text(g: Gate, bases: Seq<Seq<char>>) -> Option<Seq<char>> {
    match g {
        Gate::Cfg(cubes) => Some(cover_text(bases, cubes@)),
        _ => None,
    }
}

proof fn lemma_joined_push(items: Seq<Seq<char>>, x: Seq<char>, sep: Seq<char>)
    ensures
        joined(items.push(x), sep) == if items.len() == 0 {
            x
        } else {
            joined(items, sep) + sep + x
        },
{
    assert(items.push(x).drop_last() =~= items);
}

proof fn lemma_literals_below(c: Cube, n: int)
    requires
        0 <= n <= 32,
    ensures
        forall|i: int| 0 <= i < literals_of(c, n).len() ==> (#[trigger] literals_of(c, n)[i]).0 < n,
    decreases n,
{
    if n > 0 {
        lemma_literals_below(c, n - 1);
        let prev = literals_of(c, n - 1);
        assert forall|i: int| 0 <= i < literals_of(c, n).len() implies (#[trigger] literals_of(c, n)[i]).0 < n by {
            if i < prev.len() {
                assert(literals_of(c, n)[i] == prev[i]);
            }
        }
    }
}

fn push_literal(s: &mut String, bases: &Vec<String>, l: (usize, bool))
    requires
        l.0 < bases.len(),
    ensures
        final(s)@ == old(s)@ + literal_text(texts_of(bases@), l),
{
    if l.1 {
        push_str(s, bases[l.0].as_str());
    } else {
        push_str(s, "not(");
        push_str(s, bases[l.0].as_str());
        push_str(s, ")");
    }
}

/// The text of one product term over `bases`.
fn term(bases: &Vec<String>, c: Cube) -> (r: String)
    requires
        bases.len() <= 32,
    ensures
        r@ == term_text(texts_of(bases@), literals_of(c, bases.len() as int)),
{
    let lits = cube_literals(c, bases.len());
    proof {
        lemma_literals_below(c, bases.len() as int);
    }
    let ghost b = texts_of(bases@);
    let ghost parts = Seq::new(lits@.len(), |i: int| literal_text(b, lits@[i]));
    if lits.len() == 1 {
        let mut s = String::new();
        push_literal(&mut s, bases, lits[0]);
        assert(s@ =~= parts[0]);
        return s;
    }
    let mut inner = String::new();
    let mut i: usize = 0;
    while i < lits.len()
        invariant
            i <= lits.len(),
            lits@ == literals_of(c, bases.len() as int),
            b == texts_of(bases@),
            parts == Seq::new(lits@.len(), |i: int| literal_text(b, lits@[i])),
            forall|k: int| 0 <= k < lits@.len() ==> (#[trigger] lits@[k]).0 < bases.len(),
            inner@ == joined(parts.take(i as int), ", "@),
        decreases lits.len() - i,
    {
        let ghost before = inner@;
        if i > 0 {
            push_str(&mut inner, ", ");
        }
        push_literal(&mut inner, bases, lits[i]);
        proof {
            lemma_joined_push(parts.take(i as int), parts[i as int], ", "@);
            assert(parts.take(i as int).push(parts[i as int]) =~= parts.take(i as int + 1));
            if i == 0 {
                assert(before =~= Seq::<char>::empty());
            }
        }
        i = i + 1;
    }
    assert(parts.take(lits@.len() as int) =~= parts);
    let mut s = String::new();
    push_str(&mut s, "all(");
    push_str(&mut s, inner.as_str());
    push_str(&mut s, ")");
    assert(s@ =~= "all("@ + joined(parts, ", "@) + ")"@);
    s
}

/// The cfg predicate under which a gated piece is present, written over
/// the base predicates' text; `None` for a gate that is on or off
/// unconditionally.
pub fn gate_text(g: &Gate, bases: &Vec<String>) -> (r: Option<String>)
    requires
        bases.len() <= 32,
    ensures
        match r {
            Some(t) => spec_gate_text(*g, texts_of(bases@)) == Some(t@),
            None => spec_gate_text(*g, texts_of(bases@)) is None,
        },
{
    let cubes = match g {
        Gate::Cfg(cubes) => cubes,
        _ => return None,
    };
    let ghost b = texts_of(bases@);
    let ghost terms = Seq::new(
        cubes@.len(),
        |i: int| term_text(b, literals_of(cubes@[i], bases.len() as int)),
    );
    if cubes.len() == 1 {
        let t = term(bases, cubes[0]);
        assert(t@ == terms[0]);
        return Some(t);
    }
    let mut inner = String::new();
    let mut i: usize = 0;
    while i < cubes.len()
        invariant
            i <= cubes.len(),
            bases.len() <= 32,
            b == texts_of(bases@),
            terms == Seq::new(cubes@.len(), |i: int| term_text(b, literals_of(cubes@[i], bases.len() as int))),
            inner@ == joined(terms.take(i as int), ", "@),
        decreases cubes.len() - i,
    {
        let ghost before = inner@;
        if i > 0 {
            push_str(&mut inner, ", ");
        }
        let t = term(bases, cubes[i]);
        push_str(&mut inner, t.as_str());
        proof {
            lemma_joined_push(terms.take(i as int), terms[i as int], ", "@);
            assert(terms.take(i as int).push(terms[i as int]) =~= terms.take(i as int + 1));
            if i == 0 {
                assert(before =~= Seq::<char>::empty());
            }
        }
        i = i + 1;
    }
    assert(terms.take(cubes@.len() as int) =~= terms);
    let mut s = String::new();
    push_str(&mut s, "any(");
    push_str(&mut s, inner.as_str());
    push_str(&mut s, ")");
    assert(s@ =~= "any("@ + joined(terms, ", "@) + ")"@);
    Some(s)
}


// ─── What the text means ─────────────────────────────────────────────

spec fn lit_pred(l: (usize, bool)) -> CfgPred {
    if l.1 {
        CfgPred::Base(l.0 as nat)
    } else {
        CfgPred::Not(Box::new(CfgPred::Base(l.0 as nat)))
    }
}

spec fn term_pred(lits: Seq<(usize, bool)>) -> CfgPred {
    if lits.len() == 1 {
        lit_pred(lits[0])
    } else {
        CfgPred::All(Seq::new(lits.len(), |i: int| lit_pred(lits[i])))
    }
}

spec fn cover_pred(cubes: Seq<Cube>, n: int) -> CfgPred {
    if cubes.len() == 1 {
        term_pred(literals_of(cubes[0], n))
    } else {
        CfgPred::Any(Seq::new(cubes.len(), |i: int| term_pred(literals_of(cubes[i], n))))
    }
}

proof fn lemma_lit(l: (usize, bool), bases: Seq<Seq<char>>, x: u32, v: spec_fn(Seq<char>) -> bool)
    ensures
        pred_text(lit_pred(l), bases) == literal_text(bases, l),
        pred_holds(lit_pred(l), x, v) == (bit_set(x, l.0 as int) == l.1),
{
    let b = CfgPred::Base(l.0 as nat);
    assert(pred_text(b, bases) == bases[l.0 as int]);
    assert(pred_holds(b, x, v) == bit_set(x, l.0 as int));
    if !l.1 {
        let nb = CfgPred::Not(Box::new(b));
        assert(pred_text(nb, bases) == "not("@ + pred_text(b, bases) + ")"@);
        assert(pred_holds(nb, x, v) == !pred_holds(b, x, v));
    }
}

proof fn lemma_term_text(bases: Seq<Seq<char>>, lits: Seq<(usize, bool)>)
    ensures
        pred_text(term_pred(lits), bases) == term_text(bases, lits),
{
    let parts = Seq::new(lits.len(), |i: int| literal_text(bases, lits[i]));
    let ps = Seq::new(lits.len(), |i: int| lit_pred(lits[i]));
    assert forall|i: int| 0 <= i < lits.len() implies #[trigger] pred_text(ps[i], bases) == parts[i] by {
        lemma_lit(lits[i], bases, 0, |t: Seq<char>| true);
    }
    if lits.len() != 1 {
        lemma_args_text(ps, bases, ps.len() as int);
        assert(Seq::new(ps.len(), |i: int| pred_text(ps[i], bases)) =~= parts);
        assert(pred_text(CfgPred::All(ps), bases) == "all("@ + joined(parts, ", "@) + ")"@);
    } else {
        assert(pred_text(ps[0], bases) == parts[0]);
    }
}

/// The literals of `c` below `n` all hold under `x` exactly when `x` agrees
/// with `c`'s value on every cared-for bit below `n`.
proof fn lemma_literals_meaning(c: Cube, n: int, x: u32)
    requires
        0 <= n <= 32,
    ensures
        (forall|i: int|
            0 <= i < literals_of(c, n).len() ==> bit_set(x, (#[trigger] literals_of(c, n)[i]).0 as int)
                == literals_of(c, n)[i].1) <==> (forall|k: int|
            0 <= k < n && #[trigger] bit_set(c.care, k) ==> bit_set(x, k) == bit_set(c.value, k)),
    decreases n,
{
    if n > 0 {
        lemma_literals_meaning(c, n - 1, x);
        let prev = literals_of(c, n - 1);
        let cur = literals_of(c, n);
        let last_ok = bit_set(x, n - 1) == bit_set(c.value, n - 1);
        let a_prev = forall|i: int| 0 <= i < prev.len() ==> bit_set(x, (#[trigger] prev[i]).0 as int) == prev[i].1;
        let a_cur = forall|i: int| 0 <= i < cur.len() ==> bit_set(x, (#[trigger] cur[i]).0 as int) == cur[i].1;
        let b_prev = forall|k: int| 0 <= k < n - 1 && #[trigger] bit_set(c.care, k) ==> bit_set(x, k) == bit_set(c.value, k);
        let b_cur = forall|k: int| 0 <= k < n && #[trigger] bit_set(c.care, k) ==> bit_set(x, k) == bit_set(c.value, k);
        if bit_set(c.care, n - 1) {
            assert(cur == prev.push(((n - 1) as usize, bit_set(c.value, n - 1))));
            assert(cur[prev.len() as int] == ((n - 1) as usize, bit_set(c.value, n - 1)));
            assert(a_cur <==> (a_prev && last_ok)) by {
                if a_cur {
                    assert forall|i: int| 0 <= i < prev.len() implies bit_set(x, (#[trigger] prev[i]).0 as int) == prev[i].1 by {
                        assert(cur[i] == prev[i]);
                    }
                    assert(bit_set(x, cur[prev.len() as int].0 as int) == cur[prev.len() as int].1);
                }
                if a_prev && last_ok {
                    assert forall|i: int| 0 <= i < cur.len() implies bit_set(x, (#[trigger] cur[i]).0 as int) == cur[i].1 by {
                        if i < prev.len() {
                            assert(cur[i] == prev[i]);
                        }
                    }
                }
            }
            assert(b_cur <==> (b_prev && last_ok)) by {
                if b_cur {
                    assert(bit_set(c.care, n - 1));
                }
            }
        } else {
            assert(cur == prev);
            assert(b_cur <==> b_prev) by {
                if b_prev {
                    assert forall|k: int| 0 <= k < n && #[trigger] bit_set(c.care, k) implies bit_set(x, k) == bit_set(c.value, k) by {
                        if k == n - 1 {
                            assert(!bit_set(c.care, n - 1));
                        }
                    }
                }
            }
        }
    }
}

/// A well-formed cube over `n` bases covers `x` exactly when `x` agrees with
/// its value on every cared-for bit below `n`.
proof fn lemma_covers_bits(c: Cube, x: u32, n: usize)
    requires
        n < 32,
        cube_wf(c, full_mask(n)),
    ensures
        cube_covers(c, x) <==> (forall|k: int|
            0 <= k < n && #[trigger] bit_set(c.care, k) ==> bit_set(x, k) == bit_set(c.value, k)),
{
    let (care, value) = (c.care, c.value);
    if cube_covers(c, x) {
        assert forall|k: int| 0 <= k < n && #[trigger] bit_set(care, k) implies bit_set(x, k) == bit_set(
            value,
            k,
        ) by {
            let kk = k as u32;
            assert(kk < 32 && (x & care) == value && (care & (1u32 << kk)) != 0 ==> ((x & (1u32
                << kk)) != 0) == ((value & (1u32 << kk)) != 0)) by (bit_vector);
        }
    } else {
        let d = (x & care) ^ value;
        assert((x & care) != value ==> ((x & care) ^ value) != 0) by (bit_vector);
        let b = lemma_some_bit(d);
        assert(b < 32 && (((x & care) ^ value) & (1u32 << b)) != 0 && (value & !care) == 0 ==> (care
            & (1u32 << b)) != 0 && ((x & (1u32 << b)) != 0) != ((value & (1u32 << b)) != 0))
            by (bit_vector);
        assert(n < 32 && b < 32 && (care & !(((1u32 << n) - 1) as u32)) == 0 && (care & (1u32 << b))
            != 0 ==> (b as usize) < n) by (bit_vector);
        assert(bit_set(care, b as int));
        assert(!(bit_set(x, b as int) == bit_set(value, b as int)));
    }
}

proof fn lemma_term_meaning(c: Cube, n: usize, x: u32, v: spec_fn(Seq<char>) -> bool)
    requires
        n < 32,
        cube_wf(c, full_mask(n)),
    ensures
        pred_holds(term_pred(literals_of(c, n as int)), x, v) <==> cube_covers(c, x),
{
    let lits = literals_of(c, n as int);
    lemma_literals_meaning(c, n as int, x);
    lemma_covers_bits(c, x, n);
    if lits.len() == 1 {
        lemma_lit(lits[0], Seq::empty(), x, v);
        assert(forall|i: int| 0 <= i < lits.len() ==> #[trigger] lits[i] == lits[0]);
    } else {
        let ps = Seq::new(lits.len(), |i: int| lit_pred(lits[i]));
        lemma_all_hold(ps, ps.len() as int, x, v);
        assert forall|i: int| 0 <= i < lits.len() implies pred_holds(#[trigger] ps[i], x, v) == (bit_set(
            x,
            lits[i].0 as int,
        ) == lits[i].1) by {
            lemma_lit(lits[i], Seq::empty(), x, v);
        }
        assert(pred_holds(CfgPred::All(ps), x, v) == crate::cfg_pred::all_hold(ps, ps.len() as int, x, v));
        let a = forall|i: int| 0 <= i < lits.len() ==> bit_set(x, (#[trigger] lits[i]).0 as int) == lits[i].1;
        assert(crate::cfg_pred::all_hold(ps, ps.len() as int, x, v) <==> a) by {
            if a {
                assert forall|i: int| 0 <= i < ps.len() implies pred_holds(#[trigger] ps[i], x, v) by {
                    assert(bit_set(x, lits[i].0 as int) == lits[i].1);
                }
            }
            if crate::cfg_pred::all_hold(ps, ps.len() as int, x, v) {
                assert forall|i: int| 0 <= i < lits.len() implies bit_set(x, (#[trigger] lits[i]).0 as int) == lits[i].1 by {
                    assert(pred_holds(ps[i], x, v));
                }
            }
        }
    }
}

/// The text written for a `Cfg` gate is a predicate that holds, under every
/// assignment of its bases, exactly where its cubes cover that assignment:
/// every cube is an alternative of it, and nothing else is.
pub proof fn lemma_gate_text_means_gate(g: Gate, bases: Seq<Seq<char>>)
    requires
        bases.len() < 32,
        match g {
            Gate::Cfg(cubes) => forall|i: int|
                0 <= i < cubes@.len() ==> cube_wf(#[trigger] cubes@[i], full_mask(bases.len() as usize)),
            _ => false,
        },
    ensures
        spec_gate_text(g, bases) is Some,
        exists|p: CfgPred|
            Some(#[trigger] pred_text(p, bases)) == spec_gate_text(g, bases) && forall|x: u32, v: spec_fn(Seq<char>) -> bool|
                pred_holds(p, x, v) == gate_holds(g, x),
{
    let cubes = match g {
        Gate::Cfg(c) => c@,
        _ => Seq::empty(),
    };
    let n = bases.len() as usize;
    let p = cover_pred(cubes, n as int);
    let ts = Seq::new(cubes.len(), |i: int| term_pred(literals_of(cubes[i], n as int)));
    let terms = Seq::new(cubes.len(), |i: int| term_text(bases, literals_of(cubes[i], n as int)));
    assert forall|i: int| 0 <= i < cubes.len() implies #[trigger] pred_text(ts[i], bases) == terms[i] by {
        lemma_term_text(bases, literals_of(cubes[i], n as int));
    }
    assert(n as int == bases.len());
    if cubes.len() == 1 {
        assert(p == ts[0]);
        assert(pred_text(ts[0], bases) == terms[0]);
    } else {
        lemma_args_text(ts, bases, ts.len() as int);
        assert(Seq::new(ts.len(), |i: int| pred_text(ts[i], bases)) =~= terms);
    }
    assert(Some(pred_text(p, bases)) == spec_gate_text(g, bases));
    assert forall|x: u32, v: spec_fn(Seq<char>) -> bool| pred_holds(p, x, v) == gate_holds(g, x) by {
        assert forall|i: int| 0 <= i < cubes.len() implies #[trigger] pred_holds(ts[i], x, v) == cube_covers(
            cubes[i],
            x,
        ) by {
            lemma_term_meaning(cubes[i], n, x, v);
        }
        if cubes.len() == 1 {
            assert(pred_holds(p, x, v) == pred_holds(ts[0], x, v));
            if covered_by(cubes, x) {
                let k = choose|k: int| 0 <= k < cubes.len() && #[trigger] cube_covers(cubes[k], x);
                assert(k == 0);
            }
            if cube_covers(cubes[0], x) {
                assert(covered_by(cubes, x));
            }
        } else {
            lemma_any_holds(ts, ts.len() as int, x, v);
            if covered_by(cubes, x) {
                let k = choose|k: int| 0 <= k < cubes.len() && #[trigger] cube_covers(cubes[k], x);
                assert(pred_holds(ts[k], x, v));
            }
            if pred_holds(p, x, v) {
                let k = choose|k: int| 0 <= k < ts.len() && #[trigger] pred_holds(ts[k], x, v);
                assert(cube_covers(cubes[k], x));
            }
        }
    }
}

} // verus!

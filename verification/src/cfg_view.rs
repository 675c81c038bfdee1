//! A cfg-aware view of an item's attributes.
//!
//! The attribute macro runs before `#[cfg]`/`#[cfg_attr]` are evaluated, yet
//! an injection decision may read a helper that sits inside
//! `cfg_attr(pred, oopsie(...))`, or depend on a `#[cfg]`-gated trace field.
//! Each predicate that matters is collected as an atom; under one truth
//! assignment of the bases an item's attributes are read as rustc would leave
//! them.

use vstd::prelude::*;
use crate::cfg_atoms::{CfgAtoms, MAX_BASES, Pred, atom_keys, collected, index_in, known};
use crate::cfg_gate::{bases_below, spec_eval};
use crate::fields::{TraceRole, spec_role_of_type};
use crate::types::TypeTree;

verus! {

/// One attribute meta, as far as cfg resolution reads it; each carries the
/// index by which the caller finds the meta again.
pub enum AttrMeta {
    /// `cfg_attr(pred, metas..)` whose arguments parse: the predicate's token
    /// text and parsed form, and the gated metas.
    CfgAttr(usize, String, Option<Pred>, Vec<AttrMeta>),
    /// An `oopsie(...)` helper.
    Oopsie(usize),
    /// Any other meta.
    Other(usize),
}

// ─── Collecting the predicates that matter ───────────────────────────

/// Whether `m` is or gates an `oopsie` helper, and the predicates to record
/// for it, innermost first: a `cfg_attr` is recorded when it gates one.
pub open spec fn gathered(m: AttrMeta) -> (bool, Seq<(String, Option<Pred>)>)
    decreases m, 0int,
{
    match m {
        AttrMeta::Oopsie(_) => (true, Seq::empty()),
        AttrMeta::Other(_) => (false, Seq::empty()),
        AttrMeta::CfgAttr(_, key, parsed, inner) => {
            let g = gathered_list(inner@, 0);
            if g.0 {
                (true, g.1.push((key, parsed)))
            } else {
                (false, g.1)
            }
        },
    }
}

pub open spec fn gathered_list(ms: Seq<AttrMeta>, i: int) -> (bool, Seq<(String, Option<Pred>)>)
    decreases ms, ms.len() - i,
{
    if 0 <= i < ms.len() {
        let a = gathered(ms[i]);
        let b = gathered_list(ms, i + 1);
        (a.0 || b.0, a.1 + b.1)
    } else {
        (false, Seq::empty())
    }
}

fn gather(m: AttrMeta, out: &mut Vec<(String, Option<Pred>)>) -> (g: bool)
    ensures
        g == gathered(m).0,
        final(out)@ == old(out)@ + gathered(m).1,
    decreases m, 0int,
{
    let ghost m0 = m;
    match m {
        AttrMeta::Oopsie(_) => {
            assert(old(out)@ + Seq::<(String, Option<Pred>)>::empty() =~= old(out)@);
            true
        },
        AttrMeta::Other(_) => {
            assert(old(out)@ + Seq::<(String, Option<Pred>)>::empty() =~= old(out)@);
            false
        },
        AttrMeta::CfgAttr(_, key, parsed, inner) => {
            proof {
                assert(decreases_to!(m0 => inner));
            }
            let g = gather_list(inner, out);
            if g {
                let ghost before = out@;
                out.push((key, parsed));
                assert(out@ =~= before.push((key, parsed)));
            }
            g
        },
    }
}

fn gather_list(ms: Vec<AttrMeta>, out: &mut Vec<(String, Option<Pred>)>) -> (g: bool)
    ensures
        g == gathered_list(ms@, 0).0,
        final(out)@ == old(out)@ + gathered_list(ms@, 0).1,
    decreases ms, 1int,
{
    let ghost all = ms@;
    let ghost ms0 = ms;
    let ghost start = out@;
    let n = ms.len();
    let mut rest = ms;
    let mut g = false;
    let mut i: usize = 0;
    while i < n
        invariant
            ms0 == ms,
            all == ms0@,
            n == all.len(),
            i <= n,
            rest@ == all.subrange(i as int, n as int),
            start + gathered_list(all, 0).1 == out@ + gathered_list(all, i as int).1,
            gathered_list(all, 0).0 == (g || gathered_list(all, i as int).0),
        decreases n - i,
    {
        let x = rest.remove(0);
        proof {
            assert(x == all[i as int]);
            assert(decreases_to!(ms0 => ms0@));
            assert(decreases_to!(ms0@ => ms0@[i as int]));
        }
        let ghost before = out@;
        let gi = gather(x, out);
        proof {
            assert(before + gathered(all[i as int]).1 + gathered_list(all, i + 1).1 =~= before
                + gathered_list(all, i as int).1);
        }
        g = g || gi;
        i = i + 1;
        assert(rest@ =~= all.subrange(i as int, n as int));
    }
    assert(out@ + Seq::<(String, Option<Pred>)>::empty() =~= out@);
    g
}

/// A field, as far as collection reads it: its attribute metas, its type,
/// and the predicate (token text and parsed form) under which it survives
/// cfg-stripping, if one gates it.
pub struct FieldCfg {
    pub attrs: Vec<AttrMeta>,
    pub ty: TypeTree,
    pub existence: Option<(String, Option<Pred>)>,
}

pub open spec fn role_any(r: TraceRole) -> bool {
    r.backtrace || r.spantrace || r.traces || r.location || r.timestamp
}

/// Whether a field's presence can change what is injected: it carries an
/// `oopsie` helper (perhaps cfg-gated), or its type fills an injectable
/// role.
pub open spec fn injection_relevant(f: FieldCfg, timestamp_type: TypeTree) -> bool {
    gathered_list(f.attrs@, 0).0 || role_any(spec_role_of_type(f.ty, timestamp_type))
}

/// The predicates a field contributes, in order: those its attributes gate
/// helpers under, then its existence predicate when it is relevant.
pub open spec fn field_preds(f: FieldCfg, timestamp_type: TypeTree) -> Seq<(String, Option<Pred>)> {
    gathered_list(f.attrs@, 0).1 + if injection_relevant(f, timestamp_type) && f.existence is Some {
        seq![f.existence->0]
    } else {
        Seq::empty()
    }
}

pub open spec fn fields_preds(fs: Seq<FieldCfg>, i: int, timestamp_type: TypeTree) -> Seq<(String, Option<Pred>)>
    decreases fs.len() - i,
{
    if 0 <= i < fs.len() {
        field_preds(fs[i], timestamp_type) + fields_preds(fs, i + 1, timestamp_type)
    } else {
        Seq::empty()
    }
}

/// The predicates an item's injection decisions depend on, in the order
/// they are recorded: the item's attributes, then each field's.
pub open spec fn item_preds(attrs: Seq<AttrMeta>, fs: Seq<FieldCfg>, timestamp_type: TypeTree) -> Seq<
    (String, Option<Pred>),
> {
    gathered_list(attrs, 0).1 + fields_preds(fs, 0, timestamp_type)
}

/// Collect the atoms of an item from its attribute metas (every list of
/// the item's own, in order) and its fields.
pub fn collect_item(attrs: Vec<AttrMeta>, fields: Vec<FieldCfg>, timestamp_type: &TypeTree) -> (r: Result<
    CfgAtoms,
    String,
>)
    ensures
        collected(r, item_preds(attrs@, fields@, *timestamp_type)),
{
    let ghost ts = *timestamp_type;
    let ghost fs = fields@;
    let mut preds: Vec<(String, Option<Pred>)> = Vec::new();
    let ghost a0 = attrs@;
    gather_list(attrs, &mut preds);
    assert(preds@ =~= gathered_list(a0, 0).1);
    let n = fields.len();
    let mut rest = fields;
    let mut i: usize = 0;
    while i < n
        invariant
            n == fs.len(),
            ts == *timestamp_type,
            i <= n,
            rest@ == fs.subrange(i as int, n as int),
            preds@ + fields_preds(fs, i as int, ts) == item_preds(a0, fs, ts),
        decreases n - i,
    {
        let f = rest.remove(0);
        assert(f == fs[i as int]);
        let ghost before = preds@;
        let by_type = TraceRole::of_type(&f.ty, timestamp_type);
        let FieldCfg { attrs: fattrs, ty: _, existence } = f;
        let ghost fa = fattrs@;
        let mentions = gather_list(fattrs, &mut preds);
        if mentions || by_type.any() {
            match existence {
                Some(e) => {
                    let ghost mid = preds@;
                    preds.push(e);
                    assert(preds@ =~= mid.push(e));
                },
                None => {},
            }
        }
        proof {
            assert(preds@ =~= before + field_preds(fs[i as int], ts));
            assert(before + field_preds(fs[i as int], ts) + fields_preds(fs, i + 1, ts) =~= before
                + fields_preds(fs, i as int, ts));
        }
        i = i + 1;
        assert(rest@ =~= fs.subrange(i as int, n as int));
    }
    assert(preds@ + Seq::<(String, Option<Pred>)>::empty() =~= preds@);
    CfgAtoms::collect(preds)
}

// ─── Reading attributes under an assignment ─────────────────────────

/// The atoms are fit to be evaluated: few enough bases, and every atom
/// mentions only them.
pub open spec fn atoms_wf(c: CfgAtoms) -> bool {
    &&& c.bases@.len() <= MAX_BASES
    &&& forall|j: int| 0 <= j < c.atoms@.len() ==> bases_below(#[trigger] c.atoms@[j].1, c.bases@.len() as int)
}

/// The value of atom `key` under assignment `bits`, if it is an atom.
pub open spec fn spec_holds(c: CfgAtoms, key: Seq<char>, bits: u32) -> Option<bool> {
    if known(atom_keys(c.atoms@), key) {
        Some(spec_eval(c.atoms@[index_in(atom_keys(c.atoms@), key, 0)].1, bits))
    } else {
        None
    }
}

/// The metas rustc leaves of `m` under `bits`: a `cfg_attr` whose predicate
/// is an atom is expanded (into what its gated metas leave) or dropped;
/// anything else stays.
pub open spec fn kept_metas(c: CfgAtoms, m: AttrMeta, bits: u32) -> Seq<usize>
    decreases m, 0int,
{
    match m {
        AttrMeta::CfgAttr(id, key, _, inner) => match spec_holds(c, key@, bits) {
            Some(true) => kept_list(c, inner@, 0, bits),
            Some(false) => Seq::empty(),
            None => seq![id],
        },
        AttrMeta::Oopsie(id) => seq![id],
        AttrMeta::Other(id) => seq![id],
    }
}

pub open spec fn kept_list(c: CfgAtoms, ms: Seq<AttrMeta>, i: int, bits: u32) -> Seq<usize>
    decreases ms, ms.len() - i,
{
    if 0 <= i < ms.len() {
        kept_metas(c, ms[i], bits) + kept_list(c, ms, i + 1, bits)
    } else {
        Seq::empty()
    }
}

fn resolve_into(c: &CfgAtoms, m: &AttrMeta, bits: u32, out: &mut Vec<usize>)
    requires
        atoms_wf(*c),
    ensures
        final(out)@ == old(out)@ + kept_metas(*c, *m, bits),
    decreases m, 0int,
{
    match m {
        AttrMeta::CfgAttr(id, key, _, inner) => {
            match c.holds(key.as_str(), bits) {
                Some(true) => {
                    proof {
                        assert(decreases_to!(*m => *inner));
                    }
                    resolve_list(c, inner, bits, out);
                },
                Some(false) => {
                    assert(old(out)@ + Seq::<usize>::empty() =~= old(out)@);
                },
                None => {
                    let ghost before = out@;
                    out.push(*id);
                    assert(out@ =~= before + seq![*id]);
                },
            }
        },
        AttrMeta::Oopsie(id) => {
            let ghost before = out@;
            out.push(*id);
            assert(out@ =~= before + seq![*id]);
        },
        AttrMeta::Other(id) => {
            let ghost before = out@;
            out.push(*id);
            assert(out@ =~= before + seq![*id]);
        },
    }
}

fn resolve_list(c: &CfgAtoms, ms: &Vec<AttrMeta>, bits: u32, out: &mut Vec<usize>)
    requires
        atoms_wf(*c),
    ensures
        final(out)@ == old(out)@ + kept_list(*c, ms@, 0, bits),
    decreases ms, 1int,
{
    let ghost start = out@;
    let mut i: usize = 0;
    while i < ms.len()
        invariant
            atoms_wf(*c),
            i <= ms.len(),
            start + kept_list(*c, ms@, 0, bits) == out@ + kept_list(*c, ms@, i as int, bits),
        decreases ms.len() - i,
    {
        proof {
            assert(decreases_to!(*ms => ms@));
            assert(decreases_to!(ms@ => ms@[i as int]));
        }
        let ghost before = out@;
        resolve_into(c, &ms[i], bits, out);
        proof {
            assert(before + kept_metas(*c, ms@[i as int], bits) + kept_list(*c, ms@, i + 1, bits) =~= before
                + kept_list(*c, ms@, i as int, bits));
        }
        i = i + 1;
    }
    assert(out@ + Seq::<usize>::empty() =~= out@);
}

/// The indices of the metas of `attrs` that rustc leaves under assignment
/// `bits`, in order.
pub fn resolve_attrs(c: &CfgAtoms, attrs: &Vec<AttrMeta>, bits: u32) -> (r: Vec<usize>)
    requires
        atoms_wf(*c),
    ensures
        r@ == kept_list(*c, attrs@, 0, bits),
{
    let mut out: Vec<usize> = Vec::new();
    resolve_list(c, attrs, bits, &mut out);
    assert(out@ =~= kept_list(*c, attrs@, 0, bits));
    out
}

/// Whether a field survives cfg-stripping under `bits`: one whose existence
/// predicate is a recorded atom goes by its value, any other stays.
pub fn keeps_field(c: &CfgAtoms, existence: &Option<String>, bits: u32) -> (r: bool)
    requires
        atoms_wf(*c),
    ensures
        r == match existence {
            Some(k) => match spec_holds(*c, k@, bits) {
                Some(v) => v,
                None => true,
            },
            None => true,
        },
{
    match existence {
        Some(k) => match c.holds(k.as_str(), bits) {
            Some(v) => v,
            None => true,
        },
        None => true,
    }
}

/// Collected atoms are fit to be evaluated.
pub proof fn lemma_collected_wf(c: CfgAtoms, preds: Seq<(String, Option<Pred>)>)
    requires
        collected(Ok::<CfgAtoms, String>(c), preds),
    ensures
        atoms_wf(c),
{
    crate::cfg_atoms::lemma_collected_within(c, preds);
}

} // verus!

//! The cfg predicates an item's injection decisions depend on, lowered to
//! expressions over base predicates (`feature = "x"`, `unix`, ...) so that
//! correlated predicates such as `a` and `not(a)` never take contradictory
//! values. Predicates and bases are known by their token text.

use vstd::prelude::*;
use crate::cfg_gate::{Expr, bases_below, bases_below_all, bit_set, eval_all, eval_any, spec_eval};
use crate::chars::push_str;
use crate::types::str_eq;

verus! {

/// Above this many base predicates the assignment space is too large to
/// enumerate at expansion time.
pub const MAX_BASES: usize = 8;

/// A cfg predicate as parsed: its token text and its shape.
pub struct Pred {
    pub text: String,
    pub kind: PredKind,
}

pub enum PredKind {
    /// A path; the identifier when it is a single one.
    Word(Option<String>),
    /// `path(args)`: the path's identifier when it is a single one, and the
    /// arguments when they parse as comma-separated predicates.
    List(Option<String>, Option<Vec<Pred>>),
    /// `name = value`.
    NameValue,
}

/// The first index of `t` in `b` from `i`, or `b.len()`.
pub open spec fn index_in(b: Seq<Seq<char>>, t: Seq<char>, i: int) -> int
    decreases b.len() - i,
{
    if i < 0 || i >= b.len() {
        b.len() as int
    } else if b[i] == t {
        i
    } else {
        index_in(b, t, i + 1)
    }
}

/// `b` with `t` appended unless already there.
pub open spec fn add_base(b: Seq<Seq<char>>, t: Seq<char>) -> Seq<Seq<char>> {
    if index_in(b, t, 0) < b.len() {
        b
    } else {
        b.push(t)
    }
}

pub open spec fn ident_is(id: Option<String>, name: Seq<char>) -> bool {
    match id {
        Some(s) => s@ == name,
        None => false,
    }
}

/// Whether `p` is `all(..)`, `any(..)` or `not(..)` with parsed arguments.
pub open spec fn is_op(p: Pred) -> bool {
    match p.kind {
        PredKind::List(id, Some(_)) => ident_is(id, "all"@) || ident_is(id, "any"@) || ident_is(
            id,
            "not"@,
        ),
        _ => false,
    }
}

pub open spec fn is_const(p: Pred) -> bool {
    match p.kind {
        PredKind::Word(id) => ident_is(id, "true"@) || ident_is(id, "false"@),
        _ => false,
    }
}

/// The bases after lowering `p` onto bases `b`.
pub open spec fn bases_after(b: Seq<Seq<char>>, p: Pred) -> Seq<Seq<char>>
    decreases p, 0int,
{
    match p.kind {
        PredKind::List(id, Some(args)) => if is_op(p) {
            let b2 = bases_after_list(b, args@, 0);
            if ident_is(id, "not"@) && args@.len() != 1 {
                add_base(b2, p.text@)
            } else {
                b2
            }
        } else {
            add_base(b, p.text@)
        },
        _ => if is_const(p) {
            b
        } else {
            add_base(b, p.text@)
        },
    }
}

/// The bases after lowering `args[i..]` in order.
pub open spec fn bases_after_list(b: Seq<Seq<char>>, args: Seq<Pred>, i: int) -> Seq<Seq<char>>
    decreases args, args.len() - i,
{
    if 0 <= i < args.len() {
        bases_after_list(bases_after(b, args[i]), args, i + 1)
    } else {
        b
    }
}

/// `e` is `p` lowered onto bases `b`: constants stay constants, `all`,
/// `any` and single-argument `not` become connectives over their lowered
/// arguments, anything else is the base with `p`'s text.
pub open spec fn lowers(e: Expr, p: Pred, b: Seq<Seq<char>>) -> bool
    decreases p, 0int,
{
    match p.kind {
        PredKind::List(id, Some(args)) => if is_op(p) {
            if ident_is(id, "all"@) {
                e matches Expr::All(es) && lowers_list(es@, args@, 0, b)
            } else if ident_is(id, "any"@) {
                e matches Expr::Any(es) && lowers_list(es@, args@, 0, b)
            } else if args@.len() == 1 {
                e matches Expr::Not(inner) && lowers(*inner, args@[0], b)
            } else {
                let b2 = bases_after(b, p);
                e matches Expr::Base(k) && k == index_in(b2, p.text@, 0)
            }
        } else {
            e matches Expr::Base(k) && k == index_in(add_base(b, p.text@), p.text@, 0)
        },
        _ => if ident_is(p.kind->Word_0, "true"@) && p.kind is Word {
            e == Expr::Const(true)
        } else if ident_is(p.kind->Word_0, "false"@) && p.kind is Word {
            e == Expr::Const(false)
        } else {
            e matches Expr::Base(k) && k == index_in(add_base(b, p.text@), p.text@, 0)
        },
    }
}

/// `es` are `args[i..]` lowered in order, starting from bases `b`.
pub open spec fn lowers_list(es: Seq<Expr>, args: Seq<Pred>, i: int, b: Seq<Seq<char>>) -> bool
    decreases args, args.len() - i,
{
    es.len() == args.len() && if 0 <= i < args.len() {
        lowers(es[i], args[i], b) && lowers_list(es, args, i + 1, bases_after(b, args[i]))
    } else {
        true
    }
}

/// The predicates an item's decisions depend on, with the bases they are
/// built from: each atom is its key text and its lowered expression.
pub struct CfgAtoms {
    pub bases: Vec<String>,
    pub atoms: Vec<(String, Expr)>,
}

pub open spec fn texts(v: Seq<String>) -> Seq<Seq<char>> {
    Seq::new(v.len(), |i: int| v[i]@)
}

impl CfgAtoms {
    pub fn new() -> (r: Self)
        ensures
            r.bases@.len() == 0,
            r.atoms@.len() == 0,
    {
        CfgAtoms { bases: Vec::new(), atoms: Vec::new() }
    }

    /// The index of base `text`, added if new.
    pub fn base(&mut self, text: &String) -> (r: Expr)
        ensures
            texts(final(self).bases@) == add_base(texts(old(self).bases@), text@),
            r matches Expr::Base(k) && k == index_in(texts(final(self).bases@), text@, 0),
            final(self).atoms == old(self).atoms,
    {
        let ghost b = texts(self.bases@);
        let mut k: usize = 0;
        while k < self.bases.len()
            invariant
                k <= self.bases.len(),
                b == texts(self.bases@),
                index_in(b, text@, 0) == index_in(b, text@, k as int),
            decreases self.bases.len() - k,
        {
            if str_eq(self.bases[k].as_str(), text.as_str()) {
                return Expr::Base(k);
            }
            k = k + 1;
        }
        self.bases.push(text.clone());
        assert(texts(self.bases@) =~= b.push(text@));
        proof {
            lemma_index_in_push(b, text@, 0);
        }
        Expr::Base(k)
    }
}

/// The bases after lowering the first `j` of `args`.
pub open spec fn bases_prefix(b: Seq<Seq<char>>, args: Seq<Pred>, j: int) -> Seq<Seq<char>>
    decreases j,
{
    if j <= 0 {
        b
    } else {
        bases_after(bases_prefix(b, args, j - 1), args[j - 1])
    }
}

proof fn lemma_bases_list_prefix(b: Seq<Seq<char>>, args: Seq<Pred>, i: int)
    requires
        0 <= i <= args.len(),
    ensures
        bases_after_list(bases_prefix(b, args, i), args, i) == bases_after_list(b, args, 0),
    decreases i,
{
    if i > 0 {
        lemma_bases_list_prefix(b, args, i - 1);
    }
}

proof fn lemma_lowers_list_prefix(es: Seq<Expr>, b: Seq<Seq<char>>, args: Seq<Pred>, i: int)
    requires
        0 <= i <= args.len(),
        es.len() == args.len(),
        forall|j: int| i <= j < args.len() ==> lowers(#[trigger] es[j], args[j], bases_prefix(b, args, j)),
    ensures
        lowers_list(es, args, i, bases_prefix(b, args, i)),
    decreases args.len() - i,
{
    if i < args.len() {
        lemma_lowers_list_prefix(es, b, args, i + 1);
    }
}

fn ident_eq(id: &Option<String>, name: &str) -> (r: bool)
    ensures
        r == ident_is(*id, name@),
{
    match id {
        Some(s) => str_eq(s.as_str(), name),
        None => false,
    }
}

impl CfgAtoms {
    /// Lowers predicate `p` onto the bases, adding the ones it needs.
    pub fn lower(&mut self, p: &Pred) -> (r: Expr)
        ensures
            texts(final(self).bases@) == bases_after(texts(old(self).bases@), *p),
            lowers(r, *p, texts(old(self).bases@)),
            final(self).atoms == old(self).atoms,
        decreases p, 0int,
    {
        let ghost b0 = texts(self.bases@);
        proof {
            reveal_strlit("all");
            reveal_strlit("any");
            reveal_strlit("not");
            assert("all"@[0] == 'a' && "any"@[0] == 'a' && "not"@[0] == 'n');
            assert("all"@ != "not"@ && "any"@ != "not"@);
        }
        match &p.kind {
            PredKind::List(id, Some(args)) => {
                let is_all = ident_eq(id, "all");
                let is_any = ident_eq(id, "any");
                let is_not = ident_eq(id, "not");
                if is_all || is_any || is_not {
                    let es = self.lower_list(args);
                    if is_all {
                        Expr::All(es)
                    } else if is_any {
                        Expr::Any(es)
                    } else if es.len() == 1 {
                        let mut es = es;
                        let e = es.pop().unwrap();
                        Expr::Not(Box::new(e))
                    } else {
                        self.base(&p.text)
                    }
                } else {
                    self.base(&p.text)
                }
            },
            PredKind::Word(id) => {
                if ident_eq(id, "true") {
                    Expr::Const(true)
                } else if ident_eq(id, "false") {
                    Expr::Const(false)
                } else {
                    self.base(&p.text)
                }
            },
            _ => {
                self.base(&p.text)
            },
        }
    }

    /// Lowers `args` in order.
    fn lower_list(&mut self, args: &Vec<Pred>) -> (es: Vec<Expr>)
        ensures
            texts(final(self).bases@) == bases_after_list(texts(old(self).bases@), args@, 0),
            lowers_list(es@, args@, 0, texts(old(self).bases@)),
            final(self).atoms == old(self).atoms,
        decreases args, 1int,
    {
        let ghost b0 = texts(self.bases@);
        let ghost atoms0 = self.atoms;
        let mut es: Vec<Expr> = Vec::new();
        let mut i: usize = 0;
        while i < args.len()
            invariant
                i <= args.len(),
                es@.len() == i,
                texts(self.bases@) == bases_prefix(b0, args@, i as int),
                forall|j: int| 0 <= j < i ==> lowers(#[trigger] es@[j], args@[j], bases_prefix(b0, args@, j)),
                self.atoms == atoms0,
            decreases args.len() - i,
        {
            proof {
                assert(decreases_to!(*args => args@));
                assert(decreases_to!(args@ => args@[i as int]));
            }
            let e = self.lower(&args[i]);
            es.push(e);
            i = i + 1;
        }
        proof {
            lemma_bases_list_prefix(b0, args@, i as int);
            lemma_lowers_list_prefix(es@, b0, args@, 0);
        }
        es
    }
}

/// A text not in `b` is found at the end of `b.push(t)`.
proof fn lemma_index_in_push(b: Seq<Seq<char>>, t: Seq<char>, i: int)
    requires
        0 <= i <= b.len(),
        index_in(b, t, i) == b.len(),
    ensures
        index_in(b.push(t), t, i) == b.len(),
    decreases b.len() - i,
{
    if i < b.len() {
        lemma_index_in_push(b, t, i + 1);
    }
}

// ─── Lowered expressions stay within the bases ───────────────────────

proof fn lemma_below_mono(e: Expr, m: int, m2: int)
    requires
        bases_below(e, m),
        m <= m2,
    ensures
        bases_below(e, m2),
    decreases e, 0int,
{
    match e {
        Expr::All(es) => {
            assert(decreases_to!(e => e->All_0));
            lemma_below_all_mono(es@, 0, m, m2);
        },
        Expr::Any(es) => {
            assert(decreases_to!(e => e->Any_0));
            lemma_below_all_mono(es@, 0, m, m2);
        },
        Expr::Not(inner) => lemma_below_mono(*inner, m, m2),
        _ => {},
    }
}

proof fn lemma_below_all_mono(es: Seq<Expr>, i: int, m: int, m2: int)
    requires
        bases_below_all(es, i, m),
        m <= m2,
    ensures
        bases_below_all(es, i, m2),
    decreases es, es.len() - i,
{
    if 0 <= i < es.len() {
        lemma_below_mono(es[i], m, m2);
        lemma_below_all_mono(es, i + 1, m, m2);
    }
}

proof fn lemma_add_base_index(b: Seq<Seq<char>>, t: Seq<char>)
    ensures
        index_in(add_base(b, t), t, 0) < add_base(b, t).len(),
        add_base(b, t).len() >= b.len(),
{
    if index_in(b, t, 0) >= b.len() {
        lemma_index_in_bound(b, t, 0);
        lemma_index_in_push(b, t, 0);
    }
}

proof fn lemma_index_in_bound(b: Seq<Seq<char>>, t: Seq<char>, i: int)
    requires
        0 <= i <= b.len(),
    ensures
        i <= index_in(b, t, i) <= b.len(),
    decreases b.len() - i,
{
    if i < b.len() {
        lemma_index_in_bound(b, t, i + 1);
    }
}

proof fn lemma_bases_grow(b: Seq<Seq<char>>, p: Pred)
    ensures
        bases_after(b, p).len() >= b.len(),
    decreases p, 0int,
{
    match p.kind {
        PredKind::List(id, Some(args)) => {
            if is_op(p) {
                lemma_bases_list_grow(b, args@, 0);
                lemma_add_base_index(bases_after_list(b, args@, 0), p.text@);
            } else {
                lemma_add_base_index(b, p.text@);
            }
        },
        _ => {
            lemma_add_base_index(b, p.text@);
        },
    }
}

proof fn lemma_bases_list_grow(b: Seq<Seq<char>>, args: Seq<Pred>, i: int)
    ensures
        bases_after_list(b, args, i).len() >= b.len(),
    decreases args, args.len() - i,
{
    if 0 <= i < args.len() {
        lemma_bases_grow(b, args[i]);
        lemma_bases_list_grow(bases_after(b, args[i]), args, i + 1);
    }
}

/// A lowered predicate mentions only the bases in place after lowering it.
pub proof fn lemma_lowers_within(e: Expr, p: Pred, b: Seq<Seq<char>>)
    requires
        lowers(e, p, b),
    ensures
        bases_below(e, bases_after(b, p).len() as int),
    decreases p, 0int,
{
    reveal_strlit("all");
    reveal_strlit("any");
    reveal_strlit("not");
    assert("all"@[0] == 'a' && "any"@[0] == 'a' && "not"@[0] == 'n');
    match p.kind {
        PredKind::List(id, Some(args)) => {
            if is_op(p) {
                if ident_is(id, "all"@) || ident_is(id, "any"@) {
                    assert(decreases_to!(p => p.kind));
                    assert(decreases_to!(p.kind => p.kind->List_1));
                    assert(decreases_to!(p.kind->List_1 => args));
                    assert(decreases_to!(args => args@));
                    let es = if ident_is(id, "all"@) {
                        e->All_0@
                    } else {
                        e->Any_0@
                    };
                    assert(lowers_list(es, args@, 0, b));
                    lemma_lowers_each_within(es, args@, 0, b);
                    assert(!ident_is(id, "not"@));
                    assert(bases_after(b, p) == bases_after_list(b, args@, 0));
                } else if args@.len() == 1 {
                    let inner = *(e->Not_0);
                    assert(bases_after(b, p) == bases_after_list(b, args@, 0));
                    assert(bases_after_list(b, args@, 0) == bases_after_list(bases_after(b, args@[0]), args@, 1));
                    lemma_lowers_within(inner, args@[0], b);
                    lemma_bases_list_grow(bases_after(b, args@[0]), args@, 1);
                    lemma_below_mono(inner, bases_after(b, args@[0]).len() as int, bases_after(b, p).len() as int);
                } else {
                    lemma_add_base_index(bases_after_list(b, args@, 0), p.text@);
                }
            } else {
                lemma_add_base_index(b, p.text@);
            }
        },
        _ => {
            lemma_add_base_index(b, p.text@);
        },
    }
}

proof fn lemma_lowers_each_within(es: Seq<Expr>, args: Seq<Pred>, i: int, b: Seq<Seq<char>>)
    requires
        0 <= i <= args.len(),
        lowers_list(es, args, i, b),
    ensures
        bases_below_all(es, i, bases_after_list(b, args, i).len() as int),
    decreases args, args.len() - i,
{
    if i < args.len() {
        lemma_lowers_within(es[i], args[i], b);
        let b1 = bases_after(b, args[i]);
        lemma_lowers_each_within(es, args, i + 1, b1);
        lemma_bases_list_grow(b1, args, i + 1);
        lemma_below_mono(es[i], b1.len() as int, bases_after_list(b1, args, i + 1).len() as int);
    }
}

// ─── Interning predicates ────────────────────────────────────────────

pub open spec fn atom_keys(a: Seq<(String, Expr)>) -> Seq<Seq<char>> {
    Seq::new(a.len(), |i: int| a[i].0@)
}

/// The bases after interning a new predicate with key `key` and parsed
/// form `parsed` (a predicate that does not parse is one base).
pub open spec fn bases_after_intern(b: Seq<Seq<char>>, key: Seq<char>, parsed: Option<Pred>) -> Seq<Seq<char>> {
    match parsed {
        Some(p) => bases_after(b, p),
        None => add_base(b, key),
    }
}

/// `e` is the lowering of a predicate interned onto bases `b`.
pub open spec fn lowered_atom(e: Expr, key: Seq<char>, parsed: Option<Pred>, b: Seq<Seq<char>>) -> bool {
    match parsed {
        Some(p) => lowers(e, p, b),
        None => e matches Expr::Base(k) && k == index_in(add_base(b, key), key, 0),
    }
}

pub open spec fn known(keys: Seq<Seq<char>>, key: Seq<char>) -> bool {
    index_in(keys, key, 0) < keys.len()
}

/// The atom keys after interning `preds[..n]` in order.
pub open spec fn fold_keys(preds: Seq<(String, Option<Pred>)>, n: int) -> Seq<Seq<char>>
    decreases n,
{
    if n <= 0 {
        Seq::empty()
    } else {
        let k = fold_keys(preds, n - 1);
        if known(k, preds[n - 1].0@) {
            k
        } else {
            k.push(preds[n - 1].0@)
        }
    }
}

/// The bases after interning `preds[..n]` in order.
pub open spec fn fold_bases(preds: Seq<(String, Option<Pred>)>, n: int) -> Seq<Seq<char>>
    decreases n,
{
    if n <= 0 {
        Seq::empty()
    } else {
        let b = fold_bases(preds, n - 1);
        if known(fold_keys(preds, n - 1), preds[n - 1].0@) {
            b
        } else {
            bases_after_intern(b, preds[n - 1].0@, preds[n - 1].1)
        }
    }
}

/// Every atom is the lowering of the first predicate with its key, onto
/// the bases in place when it came.
pub open spec fn atoms_lowered(atoms: Seq<(String, Expr)>, preds: Seq<(String, Option<Pred>)>, n: int) -> bool {
    forall|j: int|
        0 <= j < atoms.len() ==> exists|i: int|
            0 <= i < n && #[trigger] atoms[j].0@ == preds[i].0@ && !known(fold_keys(preds, i), preds[i].0@)
                && lowered_atom(atoms[j].1, preds[i].0@, preds[i].1, fold_bases(preds, i))
}

/// The message for too many bases.
pub open spec fn too_many_bases_message(bases: Seq<Seq<char>>) -> Seq<char> {
    "too many distinct `cfg` predicates affect trace injection here (at most 8, found "@
        + crate::chars::decimal(bases.len()) + ": "@ + quoted_list(bases, 0)
        + "); move some `oopsie(...)` helpers out of `cfg_attr` or use `#[derive(Oopsie)]` with explicit trace fields"@
}

/// `b[i..]`, each in backticks, comma-separated.
pub open spec fn quoted_list(b: Seq<Seq<char>>, i: int) -> Seq<char>
    decreases b.len() - i,
{
    if 0 <= i < b.len() {
        (if i > 0 {
            ", "@
        } else {
            Seq::empty()
        }) + "`"@ + b[i] + "`"@ + quoted_list(b, i + 1)
    } else {
        Seq::empty()
    }
}

/// `r` is the outcome of collecting `preds`.
pub open spec fn collected(r: Result<CfgAtoms, String>, preds: Seq<(String, Option<Pred>)>) -> bool {
    let b = fold_bases(preds, preds.len() as int);
    match r {
        Err(m) => b.len() > MAX_BASES && m@ == too_many_bases_message(b),
        Ok(c) => {
            &&& b.len() <= MAX_BASES
            &&& texts(c.bases@) == b
            &&& atom_keys(c.atoms@) == fold_keys(preds, preds.len() as int)
            &&& atoms_lowered(c.atoms@, preds, preds.len() as int)
        },
    }
}

impl CfgAtoms {
    /// Records predicate `key` (parsed as `parsed` when it parses) unless
    /// already recorded.
    pub fn intern(&mut self, key: String, parsed: &Option<Pred>)
        ensures
            known(atom_keys(old(self).atoms@), key@) ==> *final(self) == *old(self),
            !known(atom_keys(old(self).atoms@), key@) ==> {
                &&& texts(final(self).bases@) == bases_after_intern(texts(old(self).bases@), key@, *parsed)
                &&& final(self).atoms@.len() == old(self).atoms@.len() + 1
                &&& final(self).atoms@.take(old(self).atoms@.len() as int) == old(self).atoms@
                &&& final(self).atoms@.last().0@ == key@
                &&& lowered_atom(final(self).atoms@.last().1, key@, *parsed, texts(old(self).bases@))
            },
    {
        let ghost keys = atom_keys(self.atoms@);
        let mut k: usize = 0;
        while k < self.atoms.len()
            invariant
                k <= self.atoms.len(),
                keys == atom_keys(self.atoms@),
                index_in(keys, key@, 0) == index_in(keys, key@, k as int),
            decreases self.atoms.len() - k,
        {
            if str_eq(self.atoms[k].0.as_str(), key.as_str()) {
                return;
            }
            k = k + 1;
        }
        let e = match parsed {
            Some(p) => self.lower(p),
            None => self.base(&key),
        };
        self.atoms.push((key, e));
    }

    /// Interns `preds` in order, then refuses more than [`MAX_BASES`]
    /// bases, listing them.
    pub fn collect(preds: Vec<(String, Option<Pred>)>) -> (r: Result<CfgAtoms, String>)
        ensures
            collected(r, preds@),
    {
        let mut atoms = CfgAtoms::new();
        let ghost ps = preds@;
        let mut rest = preds;
        let n = rest.len();
        let mut i: usize = 0;
        assert(texts(atoms.bases@) =~= Seq::<Seq<char>>::empty());
        assert(atom_keys(atoms.atoms@) =~= Seq::<Seq<char>>::empty());
        while i < n
            invariant
                n == ps.len(),
                i <= n,
                rest@ == ps.subrange(i as int, n as int),
                texts(atoms.bases@) == fold_bases(ps, i as int),
                atom_keys(atoms.atoms@) == fold_keys(ps, i as int),
                atoms_lowered(atoms.atoms@, ps, i as int),
            decreases n - i,
        {
            let (key, parsed) = rest.remove(0);
            assert((key, parsed) == ps[i as int]);
            let ghost before = atoms;
            atoms.intern(key, &parsed);
            proof {
                if !known(atom_keys(before.atoms@), ps[i as int].0@) {
                    assert(atom_keys(atoms.atoms@) =~= atom_keys(before.atoms@).push(ps[i as int].0@));
                    assert forall|j: int| 0 <= j < atoms.atoms@.len() implies exists|q: int|
                        0 <= q < i + 1 && #[trigger] atoms.atoms@[j].0@ == ps[q].0@ && !known(fold_keys(ps, q), ps[q].0@)
                            && lowered_atom(atoms.atoms@[j].1, ps[q].0@, ps[q].1, fold_bases(ps, q)) by {
                        if j < before.atoms@.len() {
                            assert(atoms.atoms@[j] == before.atoms@[j]);
                        } else {
                            assert(atoms.atoms@[j].0@ == ps[i as int].0@);
                        }
                    }
                }
            }
            i = i + 1;
            assert(rest@ =~= ps.subrange(i as int, n as int));
        }
        if atoms.bases.len() > MAX_BASES {
            let mut m = String::new();
            push_str(&mut m, "too many distinct `cfg` predicates affect trace injection here (at most 8, found ");
            crate::chars::push_decimal(&mut m, atoms.bases.len());
            push_str(&mut m, ": ");
            let ghost b = texts(atoms.bases@);
            let mut k: usize = 0;
            let ghost head = m@;
            while k < atoms.bases.len()
                invariant
                    k <= atoms.bases.len(),
                    b == texts(atoms.bases@),
                    m@ + quoted_list(b, k as int) == head + quoted_list(b, 0),
                decreases atoms.bases.len() - k,
            {
                let ghost before = m@;
                if k > 0 {
                    push_str(&mut m, ", ");
                }
                push_str(&mut m, "`");
                push_str(&mut m, atoms.bases[k].as_str());
                push_str(&mut m, "`");
                k = k + 1;
                assert(m@ + quoted_list(b, k as int) =~= head + quoted_list(b, 0));
            }
            push_str(&mut m, "); move some `oopsie(...)` helpers out of `cfg_attr` or use `#[derive(Oopsie)]` with explicit trace fields");
            assert(m@ =~= too_many_bases_message(b));
            return Err(m);
        }
        Ok(atoms)
    }

    /// The value of predicate `key` under assignment `bits`, if it is an
    /// atom.
    pub fn holds(&self, key: &str, bits: u32) -> (r: Option<bool>)
        requires
            self.bases@.len() <= MAX_BASES,
            forall|j: int| 0 <= j < self.atoms@.len() ==> bases_below(#[trigger] self.atoms@[j].1, self.bases@.len() as int),
        ensures
            match r {
                Some(v) => known(atom_keys(self.atoms@), key@) && v == spec_eval(
                    self.atoms@[index_in(atom_keys(self.atoms@), key@, 0)].1,
                    bits,
                ),
                None => !known(atom_keys(self.atoms@), key@),
            },
    {
        let ghost keys = atom_keys(self.atoms@);
        let mut k: usize = 0;
        while k < self.atoms.len()
            invariant
                k <= self.atoms.len(),
                keys == atom_keys(self.atoms@),
                index_in(keys, key@, 0) == index_in(keys, key@, k as int),
                self.bases@.len() <= MAX_BASES,
                forall|j: int| 0 <= j < self.atoms@.len() ==> bases_below(#[trigger] self.atoms@[j].1, self.bases@.len() as int),
            decreases self.atoms.len() - k,
        {
            if str_eq(self.atoms[k].0.as_str(), key) {
                let e = &self.atoms[k].1;
                assert(bases_below(*e, self.bases@.len() as int));
                proof {
                    lemma_below_mono(*e, self.bases@.len() as int, 32);
                }
                return Some(e.eval(bits));
            }
            k = k + 1;
        }
        None
    }
}

proof fn lemma_intern_grows(b: Seq<Seq<char>>, key: Seq<char>, parsed: Option<Pred>)
    ensures
        bases_after_intern(b, key, parsed).len() >= b.len(),
{
    match parsed {
        Some(p) => lemma_bases_grow(b, p),
        None => lemma_add_base_index(b, key),
    }
}

proof fn lemma_fold_bases_grow(preds: Seq<(String, Option<Pred>)>, i: int, n: int)
    requires
        0 <= i <= n <= preds.len(),
    ensures
        fold_bases(preds, i).len() <= fold_bases(preds, n).len(),
    decreases n - i,
{
    if i < n {
        lemma_fold_bases_grow(preds, i, n - 1);
        lemma_intern_grows(fold_bases(preds, n - 1), preds[n - 1].0@, preds[n - 1].1);
    }
}

/// A collected atom mentions only collected bases, so it can be evaluated
/// under any assignment of them.
pub proof fn lemma_collected_within(c: CfgAtoms, preds: Seq<(String, Option<Pred>)>)
    requires
        collected(Ok::<CfgAtoms, String>(c), preds),
    ensures
        c.bases@.len() <= MAX_BASES,
        forall|j: int| 0 <= j < c.atoms@.len() ==> bases_below(#[trigger] c.atoms@[j].1, c.bases@.len() as int),
{
    let n = preds.len() as int;
    assert(texts(c.bases@).len() == c.bases@.len());
    assert forall|j: int| 0 <= j < c.atoms@.len() implies bases_below(#[trigger] c.atoms@[j].1, c.bases@.len() as int) by {
        let i = choose|i: int|
            0 <= i < n && #[trigger] c.atoms@[j].0@ == preds[i].0@ && !known(fold_keys(preds, i), preds[i].0@)
                && lowered_atom(c.atoms@[j].1, preds[i].0@, preds[i].1, fold_bases(preds, i));
        let b = fold_bases(preds, i);
        let e = c.atoms@[j].1;
        match preds[i].1 {
            Some(p) => lemma_lowers_within(e, p, b),
            None => lemma_add_base_index(b, preds[i].0@),
        }
        assert(fold_bases(preds, i + 1) == bases_after_intern(b, preds[i].0@, preds[i].1));
        lemma_fold_bases_grow(preds, i + 1, n);
        lemma_below_mono(e, fold_bases(preds, i + 1).len() as int, c.bases@.len() as int);
    }
}

// ─── What a lowered predicate means ──────────────────────────────────

/// What predicate `p` means when base `k` of `b` takes bit `k` of `bits`:
/// constants are themselves, `all`/`any`/single-argument `not` combine
/// their arguments, anything else is the base with its text.
pub open spec fn pred_value(p: Pred, b: Seq<Seq<char>>, bits: u32) -> bool
    decreases p, 0int,
{
    let own = bit_set(bits, index_in(b, p.text@, 0));
    match p.kind {
        PredKind::List(id, Some(args)) => if is_op(p) {
            if ident_is(id, "all"@) {
                all_value(args@, 0, b, bits)
            } else if ident_is(id, "any"@) {
                any_value(args@, 0, b, bits)
            } else if args@.len() == 1 {
                !pred_value(args@[0], b, bits)
            } else {
                own
            }
        } else {
            own
        },
        _ => if ident_is(p.kind->Word_0, "true"@) && p.kind is Word {
            true
        } else if ident_is(p.kind->Word_0, "false"@) && p.kind is Word {
            false
        } else {
            own
        },
    }
}

pub open spec fn all_value(args: Seq<Pred>, i: int, b: Seq<Seq<char>>, bits: u32) -> bool
    decreases args, args.len() - i,
{
    if 0 <= i < args.len() {
        pred_value(args[i], b, bits) && all_value(args, i + 1, b, bits)
    } else {
        true
    }
}

pub open spec fn any_value(args: Seq<Pred>, i: int, b: Seq<Seq<char>>, bits: u32) -> bool
    decreases args, args.len() - i,
{
    if 0 <= i < args.len() {
        pred_value(args[i], b, bits) || any_value(args, i + 1, b, bits)
    } else {
        false
    }
}

/// `big` extends `b`.
pub open spec fn extends(b: Seq<Seq<char>>, big: Seq<Seq<char>>) -> bool {
    b.len() <= big.len() && big.take(b.len() as int) == b
}

proof fn lemma_extends_trans(a: Seq<Seq<char>>, b: Seq<Seq<char>>, c: Seq<Seq<char>>)
    requires
        extends(a, b),
        extends(b, c),
    ensures
        extends(a, c),
{
    assert(c.take(a.len() as int) =~= b.take(a.len() as int));
}

proof fn lemma_index_stable(b: Seq<Seq<char>>, big: Seq<Seq<char>>, t: Seq<char>, i: int)
    requires
        extends(b, big),
        0 <= i <= index_in(b, t, 0),
        index_in(b, t, 0) < b.len(),
        index_in(b, t, i) == index_in(b, t, 0),
    ensures
        index_in(big, t, i) == index_in(b, t, 0),
    decreases b.len() - i,
{
    assert(big[i] == b[i]) by {
        assert(big.take(b.len() as int)[i] == big[i]);
    }
    if b[i] != t {
        lemma_index_in_bound(b, t, i + 1);
        lemma_index_stable(b, big, t, i + 1);
    }
}

proof fn lemma_index_in_found(b: Seq<Seq<char>>, t: Seq<char>, i: int)
    requires
        0 <= i <= b.len(),
        index_in(b, t, i) < b.len(),
    ensures
        b[index_in(b, t, i)] == t,
    decreases b.len() - i,
{
    if i < b.len() && b[i] != t {
        lemma_index_in_found(b, t, i + 1);
    }
}

proof fn lemma_add_base_extends(b: Seq<Seq<char>>, t: Seq<char>)
    ensures
        extends(b, add_base(b, t)),
{
    assert(add_base(b, t).take(b.len() as int) =~= b);
}

proof fn lemma_bases_after_extends(b: Seq<Seq<char>>, p: Pred)
    ensures
        extends(b, bases_after(b, p)),
    decreases p, 0int,
{
    match p.kind {
        PredKind::List(id, Some(args)) => {
            if is_op(p) {
                lemma_bases_list_extends(b, args@, 0);
                lemma_add_base_extends(bases_after_list(b, args@, 0), p.text@);
                lemma_extends_trans(b, bases_after_list(b, args@, 0), add_base(bases_after_list(b, args@, 0), p.text@));
            } else {
                lemma_add_base_extends(b, p.text@);
            }
        },
        _ => {
            lemma_add_base_extends(b, p.text@);
            assert(b.take(b.len() as int) =~= b);
        },
    }
}

proof fn lemma_bases_list_extends(b: Seq<Seq<char>>, args: Seq<Pred>, i: int)
    ensures
        extends(b, bases_after_list(b, args, i)),
    decreases args, args.len() - i,
{
    if 0 <= i < args.len() {
        lemma_bases_after_extends(b, args[i]);
        lemma_bases_list_extends(bases_after(b, args[i]), args, i + 1);
        lemma_extends_trans(b, bases_after(b, args[i]), bases_after_list(bases_after(b, args[i]), args, i + 1));
    } else {
        assert(b.take(b.len() as int) =~= b);
    }
}

/// The base with text `t`, just added or found, is read at the same index
/// in any extension.
proof fn lemma_base_read(b: Seq<Seq<char>>, t: Seq<char>, big: Seq<Seq<char>>)
    requires
        extends(add_base(b, t), big),
    ensures
        index_in(big, t, 0) == index_in(add_base(b, t), t, 0),
{
    lemma_add_base_index(b, t);
    lemma_index_in_bound(add_base(b, t), t, 0);
    lemma_index_stable(add_base(b, t), big, t, 0);
}

/// The central property of lowering: a lowered predicate evaluates, under
/// any assignment of the bases, to what the predicate means there — so two
/// predicates over the same base (`a`, `not(a)`) never take contradictory
/// values.
pub proof fn lemma_lowering_means(e: Expr, p: Pred, b: Seq<Seq<char>>, big: Seq<Seq<char>>, bits: u32)
    requires
        lowers(e, p, b),
        extends(bases_after(b, p), big),
    ensures
        spec_eval(e, bits) == pred_value(p, big, bits),
    decreases p, 0int,
{
    reveal_strlit("all");
    reveal_strlit("any");
    reveal_strlit("not");
    assert("all"@[0] == 'a' && "any"@[0] == 'a' && "not"@[0] == 'n');
    assert("all"@[1] == 'l' && "any"@[1] == 'n');
    match p.kind {
        PredKind::List(id, Some(args)) => {
            if is_op(p) {
                if ident_is(id, "all"@) || ident_is(id, "any"@) {
                    assert(decreases_to!(p => p.kind));
                    assert(decreases_to!(p.kind => p.kind->List_1));
                    assert(decreases_to!(p.kind->List_1 => args));
                    assert(decreases_to!(args => args@));
                    let es = if ident_is(id, "all"@) {
                        e->All_0@
                    } else {
                        e->Any_0@
                    };
                    assert(bases_after(b, p) == bases_after_list(b, args@, 0));
                    lemma_lowering_list_means(es, args@, 0, b, big, bits);
                } else if args@.len() == 1 {
                    let inner = *(e->Not_0);
                    assert(bases_after(b, p) == bases_after_list(b, args@, 0));
                    assert(bases_after_list(b, args@, 0) == bases_after_list(bases_after(b, args@[0]), args@, 1));
                    lemma_bases_list_extends(bases_after(b, args@[0]), args@, 1);
                    lemma_extends_trans(bases_after(b, args@[0]), bases_after(b, p), big);
                    lemma_lowering_means(inner, args@[0], b, big, bits);
                } else {
                    lemma_base_read(bases_after_list(b, args@, 0), p.text@, big);
                }
            } else {
                lemma_base_read(b, p.text@, big);
            }
        },
        _ => {
            if !is_const(p) {
                lemma_base_read(b, p.text@, big);
            }
        },
    }
}

proof fn lemma_lowering_list_means(
    es: Seq<Expr>,
    args: Seq<Pred>,
    i: int,
    b: Seq<Seq<char>>,
    big: Seq<Seq<char>>,
    bits: u32,
)
    requires
        0 <= i <= args.len(),
        lowers_list(es, args, i, b),
        extends(bases_after_list(b, args, i), big),
    ensures
        eval_all(es, i, bits) == all_value(args, i, big, bits),
        eval_any(es, i, bits) == any_value(args, i, big, bits),
    decreases args, args.len() - i,
{
    if i < args.len() {
        let b1 = bases_after(b, args[i]);
        assert(bases_after_list(b, args, i) == bases_after_list(b1, args, i + 1));
        lemma_bases_list_extends(b1, args, i + 1);
        lemma_extends_trans(b1, bases_after_list(b1, args, i + 1), big);
        lemma_lowering_means(es[i], args[i], b, big, bits);
        lemma_lowering_list_means(es, args, i + 1, b1, big, bits);
    }
}

} // verus!

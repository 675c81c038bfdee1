//! Fresh names for the bindings the generated code introduces (the
//! formatter of `Display::fmt`, the request and lifetime of
//! `Error::provide`): the first of `base`, `base_0`, `base_1`, ... that no
//! name in scope already takes.

use vstd::prelude::*;
use vstd::seq_lib::seq_to_set_is_finite;
use vstd::set_lib::lemma_len_subset;
use crate::chars::{decimal, digit_char, push_decimal, push_str};
use crate::types::str_eq;

verus! {

/// The `k`-th candidate: `base`, then `base_0`, `base_1`, ...
pub open spec fn candidate(base: Seq<char>, k: nat) -> Seq<char> {
    if k == 0 {
        base
    } else {
        base + "_"@ + decimal((k - 1) as nat)
    }
}

pub open spec fn views(taken: Seq<String>) -> Seq<Seq<char>> {
    taken.map_values(|s: String| s@)
}

pub open spec fn is_taken(taken: Seq<String>, s: Seq<char>) -> bool {
    views(taken).contains(s)
}

proof fn lemma_decimal_len(n: nat)
    ensures
        decimal(n).len() >= 1,
        (n < 10) == (decimal(n).len() == 1),
    decreases n,
{
    if n >= 10 {
        lemma_decimal_len(n / 10);
    }
}

/// Distinct numbers have distinct decimal representations.
proof fn lemma_decimal_injective(a: nat, b: nat)
    requires
        decimal(a) == decimal(b),
    ensures
        a == b,
    decreases a,
{
    lemma_decimal_len(a);
    lemma_decimal_len(b);
    if a < 10 && b < 10 {
        assert(decimal(a)[0] == digit_char(a as int));
        assert(decimal(b)[0] == digit_char(b as int));
    } else if a >= 10 && b >= 10 {
        let (da, db) = (decimal(a), decimal(b));
        assert(da.last() == digit_char((a % 10) as int));
        assert(db.last() == digit_char((b % 10) as int));
        assert(da.drop_last() =~= decimal(a / 10));
        assert(db.drop_last() =~= decimal(b / 10));
        lemma_decimal_injective(a / 10, b / 10);
    }
}

proof fn lemma_candidates_distinct(base: Seq<char>, a: nat, b: nat)
    requires
        candidate(base, a) == candidate(base, b),
    ensures
        a == b,
{
    reveal_strlit("_");
    if a > 0 && b > 0 {
        let (ca, cb) = (candidate(base, a), candidate(base, b));
        let start = base.len() + 1;
        assert(ca.subrange(start as int, ca.len() as int) =~= decimal((a - 1) as nat));
        assert(cb.subrange(start as int, cb.len() as int) =~= decimal((b - 1) as nat));
        lemma_decimal_injective((a - 1) as nat, (b - 1) as nat);
    } else if a > 0 {
        lemma_decimal_len((a - 1) as nat);
        assert(candidate(base, a).len() > base.len());
    } else if b > 0 {
        lemma_decimal_len((b - 1) as nat);
        assert(candidate(base, b).len() > base.len());
    }
}

/// Names cannot take more than `taken.len()` distinct candidates.
proof fn lemma_pigeonhole(base: Seq<char>, taken: Seq<String>, k: nat)
    requires
        forall|j: nat| j <= k ==> is_taken(taken, #[trigger] candidate(base, j)),
    ensures
        k + 1 <= taken.len(),
{
    let cs = Seq::new((k + 1) as nat, |j: int| candidate(base, j as nat));
    assert(cs.no_duplicates()) by {
        assert forall|i: int, j: int| 0 <= i < cs.len() && 0 <= j < cs.len() && i != j implies cs[i] != cs[j] by {
            if cs[i] == cs[j] {
                lemma_candidates_distinct(base, i as nat, j as nat);
            }
        }
    }
    cs.unique_seq_to_set();
    let t = views(taken);
    t.lemma_cardinality_of_set();
    seq_to_set_is_finite(t);
    assert(cs.to_set().subset_of(t.to_set())) by {
        assert forall|s: Seq<char>| cs.to_set().contains(s) implies t.to_set().contains(s) by {
            let j = choose|j: int| 0 <= j < cs.len() && cs[j] == s;
            assert(is_taken(taken, candidate(base, j as nat)));
        }
    }
    lemma_len_subset(cs.to_set(), t.to_set());
}

fn is_taken_exec(taken: &Vec<String>, s: &str) -> (r: bool)
    ensures
        r == is_taken(taken@, s@),
{
    let mut i: usize = 0;
    while i < taken.len()
        invariant
            i <= taken.len(),
            forall|j: int| 0 <= j < i ==> taken@[j]@ != s@,
        decreases taken.len() - i,
    {
        if str_eq(taken[i].as_str(), s) {
            assert(views(taken@)[i as int] == s@);
            return true;
        }
        i = i + 1;
    }
    assert(!views(taken@).contains(s@)) by {
        if views(taken@).contains(s@) {
            let j = choose|j: int| 0 <= j < views(taken@).len() && views(taken@)[j] == s@;
            assert(taken@[j]@ == s@);
        }
    }
    false
}

/// The first candidate from `base` that no name of `taken` takes.
pub fn fresh_name(base: &str, taken: &Vec<String>) -> (r: String)
    ensures
        !is_taken(taken@, r@),
        exists|k: nat|
            r@ == candidate(base@, k) && forall|j: nat| j < k ==> is_taken(taken@, #[trigger] candidate(base@, j)),
{
    let mut cand = String::new();
    push_str(&mut cand, base);
    assert(cand@ =~= candidate(base@, 0));
    let mut k: usize = 0;
    while is_taken_exec(taken, cand.as_str())
        invariant
            k <= taken.len(),
            cand@ == candidate(base@, k as nat),
            forall|j: nat| j < k ==> is_taken(taken@, #[trigger] candidate(base@, j)),
        decreases taken.len() - k,
    {
        proof {
            assert forall|j: nat| j <= k implies is_taken(taken@, #[trigger] candidate(base@, j)) by {}
            lemma_pigeonhole(base@, taken@, k as nat);
        }
        let mut next = String::new();
        push_str(&mut next, base);
        push_str(&mut next, "_");
        push_decimal(&mut next, k);
        k = k + 1;
        assert(next@ =~= candidate(base@, k as nat));
        cand = next;
    }
    cand
}

} // verus!

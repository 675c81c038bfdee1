//! Cfg gates for injected pieces.
//!
//! A piece may be wanted under some truth assignments of the base cfg
//! predicates and not under others. It is then gated by a small sum of
//! products covering exactly the assignments where it is wanted: the prime
//! implicants (Quine–McCluskey), then a greedy cover.
use vstd::prelude::*;

verus! {

/// A product term: the assignments whose `care` bits equal `value`.
#[derive(Clone, Copy, Debug, PartialEq, Eq)]
pub struct Cube {
    pub care: u32,
    pub value: u32,
}

pub open spec fn cube_covers(c: Cube, bits: u32) -> bool {
    bits & c.care == c.value
}

impl Cube {
    pub fn covers(self, bits: u32) -> (r: bool)
        ensures
            r == cube_covers(self, bits),
    {
        bits & self.care == self.value
    }
}

/// The mask of the low `n` bits.
pub open spec fn full_mask(n: usize) -> u32 {
    ((1u32 << n) - 1) as u32
}

/// Assignment `x` is one where the piece is wanted.
pub open spec fn on_set(outcomes: Seq<bool>, x: u32) -> bool {
    (x as int) < outcomes.len() && outcomes[x as int]
}

/// `c` only names the low bits, and fixes only bits it cares about.
pub open spec fn cube_wf(c: Cube, full: u32) -> bool {
    c.value & !c.care == 0 && c.care & !full == 0
}

/// `c` covers only wanted assignments.
pub open spec fn implicant(c: Cube, outcomes: Seq<bool>, full: u32) -> bool {
    forall|x: u32| x <= full && #[trigger] cube_covers(c, x) ==> on_set(outcomes, x)
}

pub open spec fn good_cube(c: Cube, outcomes: Seq<bool>, full: u32) -> bool {
    cube_wf(c, full) && implicant(c, outcomes, full)
}

pub open spec fn covered_by(cs: Seq<Cube>, x: u32) -> bool {
    exists|i: int| 0 <= i < cs.len() && #[trigger] cube_covers(cs[i], x)
}

/// Every cube `c` that `a` makes redundant: `c` covers all that `a` covers.
pub open spec fn subsumes(c: Cube, a: Cube) -> bool {
    c.care & !a.care == 0 && a.value & c.care == c.value
}

proof fn lemma_subsumes_covers(c: Cube, a: Cube, x: u32)
    requires
        subsumes(c, a),
        cube_covers(a, x),
    ensures
        cube_covers(c, x),
{
    let (cc, ac, av, cv) = (c.care, a.care, a.value, c.value);
    assert((cc & !ac) == 0 && (av & cc) == cv && (x & ac) == av ==> (x & cc) == cv)
        by (bit_vector);
}

pub open spec fn is_single_bit(d: u32) -> bool {
    d != 0 && d & ((d - 1) as u32) == 0
}

pub open spec fn merge(a: Cube, b: Cube) -> Cube {
    let d = a.value ^ b.value;
    Cube { care: a.care & !d, value: a.value & !d }
}

/// Merging two cubes with the same cares whose values differ in one bit.
proof fn lemma_merge(a: Cube, b: Cube, full: u32)
    requires
        cube_wf(a, full),
        cube_wf(b, full),
        a.care == b.care,
        is_single_bit(a.value ^ b.value),
    ensures
        cube_wf(merge(a, b), full),
        merge(a, b).care < a.care,
        subsumes(merge(a, b), a),
        subsumes(merge(a, b), b),
        forall|x: u32| #[trigger]
            cube_covers(merge(a, b), x) ==> cube_covers(a, x) || cube_covers(b, x),
{
    let (care, va, vb) = (a.care, a.value, b.value);
    let d = va ^ vb;
    assert((va & !care) == 0 && (vb & !care) == 0 && (care & !full) == 0 && d == va ^ vb && d
        != 0 && (d & ((d - 1) as u32)) == 0 ==> {
        &&& ((va & !d) & !(care & !d)) == 0
        &&& ((care & !d) & !full) == 0
        &&& (care & !d) < care
        &&& ((care & !d) & !care) == 0
        &&& (va & (care & !d)) == (va & !d)
        &&& (vb & (care & !d)) == (va & !d)
    }) by (bit_vector);
    assert forall|x: u32| #[trigger] cube_covers(merge(a, b), x) implies cube_covers(a, x)
        || cube_covers(b, x) by {
        assert((va & !care) == 0 && (vb & !care) == 0 && d == va ^ vb && d != 0 && (d & ((d
            - 1) as u32)) == 0 && (x & (care & !d)) == (va & !d) ==> (x & care) == va || (x
            & care) == vb) by (bit_vector);
    }
}

proof fn lemma_merge_implicant(a: Cube, b: Cube, outcomes: Seq<bool>, full: u32)
    requires
        good_cube(a, outcomes, full),
        good_cube(b, outcomes, full),
        a.care == b.care,
        is_single_bit(a.value ^ b.value),
    ensures
        good_cube(merge(a, b), outcomes, full),
        merge(a, b).care < a.care,
        subsumes(merge(a, b), a),
        subsumes(merge(a, b), b),
{
    lemma_merge(a, b, full);
    assert forall|x: u32| x <= full && #[trigger] cube_covers(merge(a, b), x) implies on_set(
        outcomes,
        x,
    ) by {
        assert(cube_covers(a, x) || cube_covers(b, x));
    }
}

fn is_single_bit_exec(d: u32) -> (r: bool)
    ensures
        r == is_single_bit(d),
{
    d != 0 && d & (d - 1) == 0
}

fn contains_cube(v: &Vec<Cube>, c: Cube) -> (r: bool)
    ensures
        r == v@.contains(c),
{
    let mut i: usize = 0;
    while i < v.len()
        invariant
            i <= v.len(),
            forall|k: int| 0 <= k < i ==> v@[k] != c,
        decreases v.len() - i,
    {
        if v[i].care == c.care && v[i].value == c.value {
            assert(v@[i as int] == c);
            return true;
        }
        i = i + 1;
    }
    false
}

/// The number of `xs` that `c` covers.
pub open spec fn count_covered(c: Cube, xs: Seq<u32>) -> nat
    decreases xs.len(),
{
    if xs.len() == 0 {
        0
    } else {
        count_covered(c, xs.drop_last()) + if cube_covers(c, xs.last()) {
            1nat
        } else {
            0nat
        }
    }
}

proof fn lemma_count_positive(c: Cube, xs: Seq<u32>)
    ensures
        count_covered(c, xs) > 0 <==> exists|k: int| 0 <= k < xs.len() && #[trigger] cube_covers(
            c,
            xs[k],
        ),
        count_covered(c, xs) <= xs.len(),
    decreases xs.len(),
{
    if xs.len() > 0 {
        lemma_count_positive(c, xs.drop_last());
        if count_covered(c, xs.drop_last()) > 0 {
            let k = choose|k: int| 0 <= k < xs.drop_last().len() && #[trigger] cube_covers(
                c,
                xs.drop_last()[k],
            );
            assert(cube_covers(c, xs[k]));
        }
        if exists|k: int| 0 <= k < xs.len() && #[trigger] cube_covers(c, xs[k]) {
            let k = choose|k: int| 0 <= k < xs.len() && #[trigger] cube_covers(c, xs[k]);
            if k < xs.len() - 1 {
                assert(cube_covers(c, xs.drop_last()[k]));
            }
        }
    }
}

fn count_covered_exec(c: Cube, xs: &Vec<u32>) -> (r: usize)
    ensures
        r == count_covered(c, xs@),
{
    let mut i: usize = 0;
    let mut n: usize = 0;
    while i < xs.len()
        invariant
            i <= xs.len(),
            n == count_covered(c, xs@.take(i as int)),
            n <= i,
        decreases xs.len() - i,
    {
        assert(xs@.take(i + 1).drop_last() =~= xs@.take(i as int));
        if c.covers(xs[i]) {
            n = n + 1;
        }
        i = i + 1;
    }
    assert(xs@.take(xs.len() as int) =~= xs@);
    n
}

/// `full` is a mask of low bits (`2^k - 1`).
pub open spec fn low_mask(full: u32) -> bool {
    full & ((full + 1) as u32) == 0
}

proof fn lemma_full_mask(n: usize)
    requires
        n < 32,
    ensures
        low_mask(full_mask(n)),
        (1u32 << n) >= 1,
{
    let k = n as u32;
    assert(k < 32 ==> (1u32 << k) >= 1 && ((((1u32 << k) - 1) as u32) & ((((1u32 << k) - 1) as u32
        + 1) as u32)) == 0) by (bit_vector);
    assert((1u32 << n) == (1u32 << k));
}

proof fn lemma_below_mask(x: u32, full: u32)
    requires
        low_mask(full),
        x <= full,
    ensures
        x & full == x,
        x & !full == 0,
{
    assert((full & ((full + 1) as u32)) == 0 && x <= full ==> (x & full) == x && (x & !full) == 0)
        by (bit_vector);
}

proof fn lemma_contains_push<T>(s: Seq<T>, v: T, x: T)
    ensures
        s.push(v).contains(x) <==> (s.contains(x) || v == x),
{
    if s.push(v).contains(x) {
        let k = choose|k: int| 0 <= k < s.push(v).len() && s.push(v)[k] == x;
        if k < s.len() {
            assert(s[k] == x);
        }
    }
    if s.contains(x) {
        let k = choose|k: int| 0 <= k < s.len() && s[k] == x;
        assert(s.push(v)[k] == x);
    }
    if v == x {
        assert(s.push(v)[s.len() as int] == x);
    }
}

proof fn lemma_take_succ_contains<T>(s: Seq<T>, k: int, x: T)
    requires
        0 <= k < s.len(),
    ensures
        s.take(k + 1).contains(x) <==> (s.take(k).contains(x) || s[k] == x),
{
    assert(s.take(k + 1) =~= s.take(k).push(s[k]));
    lemma_contains_push(s.take(k), s[k], x);
}

proof fn lemma_covered_push(cs: Seq<Cube>, c: Cube, x: u32)
    ensures
        covered_by(cs.push(c), x) <==> (covered_by(cs, x) || cube_covers(c, x)),
{
    if covered_by(cs.push(c), x) {
        let k = choose|k: int| 0 <= k < cs.push(c).len() && #[trigger] cube_covers(cs.push(c)[k], x);
        if k < cs.len() {
            assert(cube_covers(cs[k], x));
        }
    }
    if covered_by(cs, x) {
        let k = choose|k: int| 0 <= k < cs.len() && #[trigger] cube_covers(cs[k], x);
        assert(cube_covers(cs.push(c)[k], x));
    }
    if cube_covers(c, x) {
        assert(cube_covers(cs.push(c)[cs.len() as int], x));
    }
}

// ─── Free positions and primality ────────────────────────────────────

/// Position `j` is one of the base bits (`full`) that `care` leaves free.
pub open spec fn free_bit(care: u32, full: u32, j: u32) -> bool {
    full & (1u32 << j) != 0 && care & (1u32 << j) == 0
}

/// The number of free positions of `care` below `k`.
pub open spec fn free_below(care: u32, full: u32, k: u32) -> nat
    decreases k,
{
    if k == 0 {
        0
    } else {
        free_below(care, full, (k - 1) as u32) + if free_bit(care, full, (k - 1) as u32) {
            1nat
        } else {
            0nat
        }
    }
}

/// The number of base bits a cube with these cares leaves free.
pub open spec fn free_count(care: u32, full: u32) -> nat {
    free_below(care, full, 32)
}

/// `c` is a prime implicant: a good cube that no other good cube contains.
pub open spec fn prime_implicant(c: Cube, outcomes: Seq<bool>, full: u32) -> bool {
    &&& good_cube(c, outcomes, full)
    &&& forall|e: Cube| #[trigger] subsumes(e, c) && good_cube(e, outcomes, full) ==> e == c
}

proof fn lemma_some_bit_from(x: u32, k: u32) -> (b: u32)
    requires
        k < 32,
        x >> k != 0,
    ensures
        k <= b < 32,
        x & (1u32 << b) != 0,
    decreases 32 - k,
{
    if x & (1u32 << k) != 0 {
        k
    } else {
        assert(k < 32 && (x >> k) != 0 && (x & (1u32 << k)) == 0 ==> k < 31 && (x >> ((k + 1)
            as u32)) != 0) by (bit_vector);
        lemma_some_bit_from(x, (k + 1) as u32)
    }
}

/// A nonzero word has a set bit.
pub(crate) proof fn lemma_some_bit(x: u32) -> (b: u32)
    requires
        x != 0,
    ensures
        b < 32,
        x & (1u32 << b) != 0,
{
    assert(x >> 0u32 == x) by (bit_vector);
    lemma_some_bit_from(x, 0)
}

/// A single-bit word is `1 << b` for its set bit `b`.
proof fn lemma_single_bit(d: u32) -> (b: u32)
    requires
        is_single_bit(d),
    ensures
        b < 32,
        d == 1u32 << b,
{
    let b = lemma_some_bit(d);
    assert(b < 32 && d != 0 && (d & ((d - 1) as u32)) == 0 && (d & (1u32 << b)) != 0 ==> d == (1u32
        << b)) by (bit_vector);
    b
}

proof fn lemma_free_full(full: u32, k: u32)
    ensures
        free_below(full, full, k) == 0,
    decreases k,
{
    if k > 0 {
        lemma_free_full(full, (k - 1) as u32);
    }
}

/// Clearing a care bit that is a base bit frees one more position.
proof fn lemma_free_clear(care: u32, full: u32, b: u32, k: u32)
    requires
        b < 32,
        k <= 32,
        care & (1u32 << b) != 0,
        full & (1u32 << b) != 0,
    ensures
        free_below(care & !(1u32 << b), full, k) == free_below(care, full, k) + if b < k {
            1nat
        } else {
            0nat
        },
    decreases k,
{
    if k > 0 {
        lemma_free_clear(care, full, b, (k - 1) as u32);
        let j = (k - 1) as u32;
        assert(j < 32 && b < 32 && (care & (1u32 << b)) != 0 ==> (((care & !(1u32 << b)) & (1u32
            << j)) == 0) == ((care & (1u32 << j)) == 0 || j == b)) by (bit_vector);
    }
}

proof fn lemma_free_witness(care: u32, full: u32, k: u32) -> (b: u32)
    requires
        free_below(care, full, k) > 0,
    ensures
        b < k,
        free_bit(care, full, b),
    decreases k,
{
    if free_below(care, full, (k - 1) as u32) > 0 {
        lemma_free_witness(care, full, (k - 1) as u32)
    } else {
        (k - 1) as u32
    }
}

proof fn lemma_free_positive(care: u32, full: u32, b: u32, k: u32)
    requires
        b < k,
        free_bit(care, full, b),
    ensures
        free_below(care, full, k) >= 1,
    decreases k,
{
    if b < k - 1 {
        lemma_free_positive(care, full, b, (k - 1) as u32);
    }
}

/// A cube that leaves no base bit free cares about all of them.
proof fn lemma_free_zero(care: u32, full: u32)
    requires
        care & !full == 0,
        free_count(care, full) == 0,
    ensures
        care == full,
{
    let x = full & !care;
    if x != 0 {
        let b = lemma_some_bit(x);
        assert(b < 32 && ((full & !care) & (1u32 << b)) != 0 ==> (full & (1u32 << b)) != 0 && (care
            & (1u32 << b)) == 0) by (bit_vector);
        lemma_free_positive(care, full, b, 32);
    }
    assert((care & !full) == 0 && (full & !care) == 0 ==> care == full) by (bit_vector);
}

/// A small sum of products covering exactly the assignments (of `n` base
/// predicates) where `outcomes` holds: the prime implicants, then a greedy
/// cover. Every cube of the cover is a prime implicant (no other cube that
/// covers only wanted assignments contains it), covers some wanted assignment
/// that the cubes before it do not, and covers at least as many of the wanted
/// assignments those cubes leave as any prime implicant does. There are no
/// more cubes than wanted assignments; with nothing wanted, the cover is empty.
pub fn minimal_cover(n: usize, outcomes: &[bool]) -> (cover: Vec<Cube>)
    requires
        n < 32,
        outcomes.len() <= full_mask(n) + 1,
    ensures
        forall|x: u32| x <= full_mask(n) ==> (covered_by(cover@, x) <==> on_set(outcomes@, x)),
        forall|i: int| 0 <= i < cover@.len() ==> #[trigger] covers_new(cover@, i, outcomes@),
        forall|i: int| 0 <= i < cover@.len() ==> cube_wf(#[trigger] cover@[i], full_mask(n)),
        forall|i: int|
            0 <= i < cover@.len() ==> prime_implicant(#[trigger] cover@[i], outcomes@, full_mask(n)),
        none_on(outcomes@) ==> cover@.len() == 0,
        cover@.len() <= count_on(outcomes@),
        forall|i: int, p: Cube|
            #![trigger greedy_choice(cover@, i, minterms_of(outcomes@), p)]
            0 <= i < cover@.len() && prime_implicant(p, outcomes@, full_mask(n)) ==> greedy_choice(
                cover@,
                i,
                minterms_of(outcomes@),
                p,
            ),
{
    proof {
        lemma_full_mask(n);
    }
    let full: u32 = ((1u32 << n) - 1) as u32;
    let minterms = collect_minterms(outcomes, full);
    let primes = prime_implicants(&minterms, outcomes, full);
    let cover = greedy_cover(&primes, &minterms, outcomes, full);
    proof {
        assert forall|i: int| 0 <= i < cover@.len() implies cube_wf(#[trigger] cover@[i], full_mask(n)) by {
            assert(prime_implicant(cover@[i], outcomes@, full));
        }
        if none_on(outcomes@) && cover@.len() > 0 {
            assert(covers_new(cover@, 0, outcomes@));
        }
    }
    cover
}

/// Cube `i` of `cs` covers a wanted assignment that no cube before it covers.
pub open spec fn covers_new(cs: Seq<Cube>, i: int, outcomes: Seq<bool>) -> bool {
    exists|x: u32| on_set(outcomes, x) && #[trigger] cube_covers(cs[i], x) && !covered_by(cs.take(i), x)
}

/// The minterms: the assignments where `outcomes` holds.
pub open spec fn is_minterm_list(ms: Seq<u32>, outcomes: Seq<bool>) -> bool {
    &&& forall|k: int| 0 <= k < ms.len() ==> on_set(outcomes, #[trigger] ms[k])
    &&& forall|x: u32| #[trigger] on_set(outcomes, x) ==> ms.contains(x)
}

/// The number of wanted assignments.
pub open spec fn count_on(outcomes: Seq<bool>) -> nat
    decreases outcomes.len(),
{
    if outcomes.len() == 0 {
        0
    } else {
        count_on(outcomes.drop_last()) + if outcomes.last() {
            1nat
        } else {
            0nat
        }
    }
}

fn collect_minterms(outcomes: &[bool], full: u32) -> (ms: Vec<u32>)
    requires
        outcomes.len() <= full + 1,
    ensures
        is_minterm_list(ms@, outcomes@),
        ms.len() == count_on(outcomes@),
        ms@ == minterms_of(outcomes@),
{
    let mut ms: Vec<u32> = Vec::new();
    let mut i: usize = 0;
    while i < outcomes.len()
        invariant
            i <= outcomes.len() <= full + 1,
            ms.len() == count_on(outcomes@.take(i as int)),
            ms@ == minterms_of(outcomes@.take(i as int)),
            forall|k: int| 0 <= k < ms.len() ==> on_set(outcomes@, #[trigger] ms@[k]),
            forall|x: u32| x < i && #[trigger] on_set(outcomes@, x) ==> ms@.contains(x),
        decreases outcomes.len() - i,
    {
        assert(outcomes@.take(i + 1).drop_last() =~= outcomes@.take(i as int));
        if outcomes[i] {
            let ghost before = ms@;
            ms.push(i as u32);
            proof {
                assert forall|x: u32| x < i + 1 && #[trigger] on_set(outcomes@, x) implies ms@.contains(x) by {
                    lemma_contains_push(before, i as u32, x);
                }
            }
        }
        i = i + 1;
    }
    assert(outcomes@.take(outcomes.len() as int) =~= outcomes@);
    ms
}

/// All cubes of `cs` are good.
pub open spec fn all_good(cs: Seq<Cube>, outcomes: Seq<bool>, full: u32) -> bool {
    forall|k: int| 0 <= k < cs.len() ==> good_cube(#[trigger] cs[k], outcomes, full)
}

/// Cubes `p` and `q` of `cs` have the same cares and values differing in one bit.
pub open spec fn mergeable(cs: Seq<Cube>, p: int, q: int) -> bool {
    cs[p].care == cs[q].care && is_single_bit(cs[p].value ^ cs[q].value)
}

/// `c` is the merge of two mergeable cubes of `cs`.
pub open spec fn merge_of(c: Cube, cs: Seq<Cube>) -> bool {
    exists|p: int, q: int| 0 <= p < q < cs.len() && #[trigger] mergeable(cs, p, q) && c == merge(cs[p], cs[q])
}

/// `c` cares about fewer bits than some cube of `cs`.
pub open spec fn care_below(c: Cube, cs: Seq<Cube>) -> bool {
    exists|j: int| 0 <= j < cs.len() && c.care < #[trigger] cs[j].care
}

/// Every cube of `cs` leaves `r` base bits free.
#[verifier::opaque]
pub open spec fn at_level(cs: Seq<Cube>, full: u32, r: nat) -> bool {
    forall|k: int| 0 <= k < cs.len() ==> free_count(#[trigger] cs[k].care, full) == r
}

/// Every good cube leaving `r` base bits free is in `cs`.
#[verifier::opaque]
pub open spec fn level_complete(cs: Seq<Cube>, outcomes: Seq<bool>, full: u32, r: nat) -> bool {
    forall|d: Cube| #[trigger]
        good_cube(d, outcomes, full) && free_count(d.care, full) == r ==> cs.contains(d)
}

/// Every two mergeable cubes of `cs` are marked in `merged`, and their merge is in `next`.
#[verifier::opaque]
pub open spec fn pairs_merged(cs: Seq<Cube>, merged: Seq<bool>, next: Seq<Cube>) -> bool {
    forall|p: int, q: int|
        0 <= p < q < cs.len() && #[trigger] mergeable(cs, p, q) ==> merged[p] && merged[q]
            && next.contains(merge(cs[p], cs[q]))
}

/// `c` is a cube of `cs` that took part in no merge.
pub open spec fn kept_from(c: Cube, cs: Seq<Cube>, merged: Seq<bool>) -> bool {
    exists|j: int| 0 <= j < cs.len() && !merged[j] && #[trigger] cs[j] == c
}

/// The first level: one cube per minterm, caring about every base bit.
proof fn lemma_first_level(current: Seq<Cube>, minterms: Seq<u32>, outcomes: Seq<bool>, full: u32)
    requires
        low_mask(full),
        is_minterm_list(minterms, outcomes),
        current.len() == minterms.len(),
        forall|k: int| 0 <= k < current.len() ==> #[trigger] current[k] == (Cube { care: full, value: minterms[k] }),
    ensures
        at_level(current, full, 0),
        level_complete(current, outcomes, full, 0),
{
    reveal(at_level);
    reveal(level_complete);
    assert forall|k: int| 0 <= k < current.len() implies free_count(#[trigger] current[k].care, full) == 0 by {
        lemma_free_full(full, 32);
    }
    assert forall|d: Cube| #[trigger]
        good_cube(d, outcomes, full) && free_count(d.care, full) == 0 implies current.contains(d) by {
        lemma_free_zero(d.care, full);
        let v = d.value;
        assert((full & ((full + 1) as u32)) == 0 && (v & !full) == 0 ==> v <= full && (v & full) == v)
            by (bit_vector);
        assert(cube_covers(d, v));
        assert(on_set(outcomes, v));
        let k = choose|k: int| 0 <= k < minterms.len() && minterms[k] == v;
        assert(current[k] == d);
    }
}

/// Merging raises the level by one.
proof fn lemma_next_level(current: Seq<Cube>, next: Seq<Cube>, outcomes: Seq<bool>, full: u32, r: nat)
    requires
        all_good(current, outcomes, full),
        at_level(current, full, r),
        forall|k: int| 0 <= k < next.len() ==> merge_of(#[trigger] next[k], current),
    ensures
        at_level(next, full, r + 1),
{
    reveal(at_level);
    assert forall|k: int| 0 <= k < next.len() implies free_count(#[trigger] next[k].care, full) == r + 1 by {
        assert(merge_of(next[k], current));
        let (p, q) = choose|p: int, q: int|
            0 <= p < q < current.len() && #[trigger] mergeable(current, p, q) && next[k] == merge(
                current[p],
                current[q],
            );
        let a = current[p];
        let c = current[q];
        assert(good_cube(a, outcomes, full));
        assert(good_cube(c, outcomes, full));
        let d = a.value ^ c.value;
        let b = lemma_single_bit(d);
        let care = a.care;
        let (va, vc) = (a.value, c.value);
        assert(b < 32 && d == (1u32 << b) && d == va ^ vc && d != 0 && (va & !care) == 0 && (vc
            & !care) == 0 && (care & !full) == 0 ==> (care & (1u32 << b)) != 0 && (full & (1u32
            << b)) != 0) by (bit_vector);
        lemma_free_clear(care, full, b, 32);
        assert(free_count(current[p].care, full) == r);
    }
}

/// When every good cube of level `r` is in `current` and every mergeable
/// pair was merged into `next`, every good cube of level `r + 1` is in `next`.
proof fn lemma_next_complete(
    current: Seq<Cube>,
    merged: Seq<bool>,
    next: Seq<Cube>,
    outcomes: Seq<bool>,
    full: u32,
    r: nat,
)
    requires
        level_complete(current, outcomes, full, r),
        pairs_merged(current, merged, next),
    ensures
        level_complete(next, outcomes, full, r + 1),
{
    reveal(level_complete);
    reveal(pairs_merged);
    assert forall|d: Cube| #[trigger]
        good_cube(d, outcomes, full) && free_count(d.care, full) == r + 1 implies next.contains(d) by {
        let b = lemma_free_witness(d.care, full, 32);
        let bit = 1u32 << b;
        let (care, v) = (d.care, d.value);
        let d0 = Cube { care: care | bit, value: v };
        let d1 = Cube { care: care | bit, value: v | bit };
        assert(b < 32 && bit == (1u32 << b) && (full & bit) != 0 && (care & bit) == 0 && (v & !care)
            == 0 && (care & !full) == 0 ==> {
            &&& (v & !(care | bit)) == 0
            &&& ((v | bit) & !(care | bit)) == 0
            &&& ((care | bit) & !full) == 0
            &&& ((care | bit) & !bit) == care
            &&& ((care | bit) & bit) != 0
            &&& (v ^ (v | bit)) == bit
            &&& ((v | bit) ^ v) == bit
            &&& bit != 0
            &&& (bit & ((bit - 1) as u32)) == 0
            &&& (v & !bit) == v
            &&& ((v | bit) & !bit) == v
            &&& v != (v | bit)
        }) by (bit_vector);
        lemma_free_clear(care | bit, full, b, 32);
        assert forall|y: u32| y <= full && #[trigger] cube_covers(d0, y) implies on_set(outcomes, y) by {
            assert((y & (care | bit)) == v && (v & !care) == 0 ==> (y & care) == v) by (bit_vector);
            assert(cube_covers(d, y));
        }
        assert forall|y: u32| y <= full && #[trigger] cube_covers(d1, y) implies on_set(outcomes, y) by {
            assert((y & (care | bit)) == (v | bit) && (v & !care) == 0 && (care & bit) == 0 ==> (y
                & care) == v) by (bit_vector);
            assert(cube_covers(d, y));
        }
        assert(good_cube(d0, outcomes, full));
        assert(good_cube(d1, outcomes, full));
        assert(current.contains(d0));
        assert(current.contains(d1));
        let p0 = choose|p: int| 0 <= p < current.len() && current[p] == d0;
        let p1 = choose|p: int| 0 <= p < current.len() && current[p] == d1;
        assert(merge(d0, d1) == d);
        assert(merge(d1, d0) == d);
        if p0 < p1 {
            assert(mergeable(current, p0, p1));
        } else {
            assert(p0 != p1);
            assert(mergeable(current, p1, p0));
        }
    }
}

/// A cube of a complete level that took part in no merge is a prime implicant.
proof fn lemma_kept_prime(
    current: Seq<Cube>,
    merged: Seq<bool>,
    next: Seq<Cube>,
    outcomes: Seq<bool>,
    full: u32,
    r: nat,
    k: int,
)
    requires
        all_good(current, outcomes, full),
        level_complete(current, outcomes, full, r),
        at_level(current, full, r),
        pairs_merged(current, merged, next),
        0 <= k < current.len(),
        !merged[k],
    ensures
        prime_implicant(current[k], outcomes, full),
{
    reveal(at_level);
    reveal(level_complete);
    reveal(pairs_merged);
    let c = current[k];
    assert(good_cube(c, outcomes, full));
    assert forall|e: Cube| #[trigger] subsumes(e, c) && good_cube(e, outcomes, full) implies e == c by {
        let (cc, cv, ec, ev) = (c.care, c.value, e.care, e.value);
        if ec == cc {
            assert((cv & !cc) == 0 && (cv & ec) == ev && ec == cc ==> ev == cv) by (bit_vector);
        } else {
            assert((ec & !cc) == 0 && ec != cc ==> (cc & !ec) != 0) by (bit_vector);
            let b = lemma_some_bit(cc & !ec);
            let bit = 1u32 << b;
            let f = Cube { care: cc, value: cv ^ bit };
            assert(b < 32 && bit == (1u32 << b) && ((cc & !ec) & bit) != 0 && (cv & !cc) == 0 ==> {
                &&& ((cv ^ bit) & !cc) == 0
                &&& (cv ^ (cv ^ bit)) == bit
                &&& ((cv ^ bit) ^ cv) == bit
                &&& bit != 0
                &&& (bit & ((bit - 1) as u32)) == 0
                &&& (bit & ec) == 0
                &&& (cv ^ bit) != cv
            }) by (bit_vector);
            assert forall|y: u32| y <= full && #[trigger] cube_covers(f, y) implies on_set(outcomes, y) by {
                assert((y & cc) == (cv ^ bit) && (ec & !cc) == 0 && (cv & ec) == ev && (bit & ec) == 0
                    ==> (y & ec) == ev) by (bit_vector);
                assert(cube_covers(e, y));
            }
            assert(good_cube(f, outcomes, full));
            assert(free_count(f.care, full) == r);
            assert(current.contains(f));
            let j = choose|j: int| 0 <= j < current.len() && current[j] == f;
            if j < k {
                assert(mergeable(current, j, k));
            } else {
                assert(j != k);
                assert(mergeable(current, k, j));
            }
        }
    }
}

/// The prime implicants, by repeatedly merging cubes that differ in one bit.
/// Every minterm is covered by one of them, and each covers only minterms.
fn prime_implicants(minterms: &Vec<u32>, outcomes: &[bool], full: u32) -> (primes: Vec<Cube>)
    requires
        is_minterm_list(minterms@, outcomes@),
        low_mask(full),
        outcomes.len() <= full + 1,
    ensures
        all_good(primes@, outcomes@, full),
        forall|x: u32| #[trigger] on_set(outcomes@, x) ==> covered_by(primes@, x),
        forall|k: int| 0 <= k < primes.len() ==> prime_implicant(#[trigger] primes@[k], outcomes@, full),
        forall|c: Cube| #[trigger] prime_implicant(c, outcomes@, full) ==> primes@.contains(c),
{
    let mut current: Vec<Cube> = Vec::new();
    let mut i: usize = 0;
    while i < minterms.len()
        invariant
            i <= minterms.len(),
            current.len() == i,
            forall|k: int|
                0 <= k < i ==> #[trigger] current@[k] == (Cube { care: full, value: minterms@[k] }),
        decreases minterms.len() - i,
    {
        current.push(Cube { care: full, value: minterms[i] });
        i = i + 1;
    }
    assert forall|k: int| 0 <= k < current.len() implies good_cube(
        #[trigger] current@[k],
        outcomes@,
        full,
    ) by {
        let m = minterms@[k];
        assert(on_set(outcomes@, m));
        assert(m <= full);
        lemma_below_mask(m, full);
        assert((full & !full) == 0) by (bit_vector);
        assert forall|x: u32| x <= full && #[trigger] cube_covers(current@[k], x) implies on_set(
            outcomes@,
            x,
        ) by {
            lemma_below_mask(x, full);
        }
    }
    assert forall|x: u32| #[trigger] on_set(outcomes@, x) implies covered_by(current@, x) by {
        let k = choose|k: int| 0 <= k < minterms@.len() && minterms@[k] == x;
        lemma_below_mask(x, full);
        assert(cube_covers(current@[k], x));
    }
    proof {
        lemma_first_level(current@, minterms@, outcomes@, full);
    }
    let mut primes: Vec<Cube> = Vec::new();
    let ghost mut bound: int = full as int;
    let ghost mut level: nat = 0;
    while current.len() > 0
        invariant
            all_good(current@, outcomes@, full),
            all_good(primes@, outcomes@, full),
            forall|k: int| 0 <= k < current.len() ==> #[trigger] current@[k].care <= bound,
            current.len() > 0 ==> bound >= 0,
            bound >= -1,
            forall|x: u32| #[trigger]
                on_set(outcomes@, x) ==> covered_by(current@, x) || covered_by(primes@, x),
            at_level(current@, full, level),
            level_complete(current@, outcomes@, full, level),
            forall|k: int| 0 <= k < primes.len() ==> prime_implicant(#[trigger] primes@[k], outcomes@, full),
            primes_below(primes@, outcomes@, full, level),
        decreases bound + 1,
    {
        let (next, merged, witness) = merge_round(&current, outcomes, full);
        let ghost old_primes = primes@;
        let pidx_g = keep_unmerged(&current, &merged, &mut primes);
        let ghost pidx = pidx_g@;
        proof {
            lemma_round_covers(current@, next@, merged@, witness@, old_primes, primes@, pidx, outcomes@);
            assert forall|k: int| 0 <= k < next.len() implies #[trigger] next@[k].care <= bound - 1 by {
                assert(care_below(next@[k], current@));
                let j = choose|j: int| 0 <= j < current.len() && next@[k].care < #[trigger] current@[j].care;
                assert(current@[j].care <= bound);
            }
            if next.len() > 0 {
                assert(next@[0].care <= bound - 1);
            }
            lemma_round_primes(current@, merged@, next@, old_primes, primes@, outcomes@, full, level);
            lemma_next_level(current@, next@, outcomes@, full, level);
            lemma_next_complete(current@, merged@, next@, outcomes@, full, level);
            lemma_round_collects_primes(
                current@,
                merged@,
                witness@,
                next@,
                old_primes,
                primes@,
                pidx,
                outcomes@,
                full,
                level,
            );
        }
        current = next;
        proof {
            bound = bound - 1;
            level = level + 1;
        }
    }
    proof {
        assert forall|c: Cube| #[trigger] prime_implicant(c, outcomes@, full) implies primes@.contains(c) by {
            lemma_empty_level(current@, outcomes@, full, level, c);
        }
    }
    primes
}

/// Every prime implicant leaving fewer than `r` base bits free is in `primes`.
pub open spec fn primes_below(primes: Seq<Cube>, outcomes: Seq<bool>, full: u32, r: nat) -> bool {
    forall|c: Cube| #[trigger]
        prime_implicant(c, outcomes, full) && free_count(c.care, full) < r ==> primes.contains(c)
}

/// From a good cube, a good cube inside it leaving exactly `target` base bits
/// free (fixing free bits to 0 one at a time).
proof fn lemma_good_at_level(d: Cube, outcomes: Seq<bool>, full: u32, target: nat) -> (e: Cube)
    requires
        good_cube(d, outcomes, full),
        target <= free_count(d.care, full),
    ensures
        good_cube(e, outcomes, full),
        free_count(e.care, full) == target,
    decreases free_count(d.care, full) - target,
{
    if free_count(d.care, full) == target {
        d
    } else {
        let b = lemma_free_witness(d.care, full, 32);
        let bit = 1u32 << b;
        let (care, v) = (d.care, d.value);
        let d0 = Cube { care: care | bit, value: v };
        assert(b < 32 && bit == (1u32 << b) && (full & bit) != 0 && (care & bit) == 0 && (v & !care)
            == 0 && (care & !full) == 0 ==> {
            &&& (v & !(care | bit)) == 0
            &&& ((care | bit) & !full) == 0
            &&& ((care | bit) & !bit) == care
            &&& ((care | bit) & bit) != 0
        }) by (bit_vector);
        lemma_free_clear(care | bit, full, b, 32);
        assert forall|y: u32| y <= full && #[trigger] cube_covers(d0, y) implies on_set(outcomes, y) by {
            assert((y & (care | bit)) == v && (v & !care) == 0 ==> (y & care) == v) by (bit_vector);
            assert(cube_covers(d, y));
        }
        lemma_good_at_level(d0, outcomes, full, target)
    }
}

/// After a round, every prime implicant of the finished level is among the primes.
proof fn lemma_round_collects_primes(
    current: Seq<Cube>,
    merged: Seq<bool>,
    witness: Seq<int>,
    next: Seq<Cube>,
    old_primes: Seq<Cube>,
    primes: Seq<Cube>,
    pidx: Seq<int>,
    outcomes: Seq<bool>,
    full: u32,
    level: nat,
)
    requires
        primes_below(old_primes, outcomes, full, level),
        level_complete(current, outcomes, full, level),
        at_level(next, full, level + 1),
        all_good(next, outcomes, full),
        primes.len() >= old_primes.len(),
        forall|k: int| 0 <= k < old_primes.len() ==> primes[k] == old_primes[k],
        merged.len() == current.len(),
        witness.len() == current.len(),
        forall|k: int|
            0 <= k < current.len() && #[trigger] merged[k] ==> 0 <= witness[k] < next.len() && subsumes(
                next[witness[k]],
                current[k],
            ),
        pidx.len() == current.len(),
        forall|j: int|
            0 <= j < current.len() && !#[trigger] merged[j] ==> 0 <= pidx[j] < primes.len()
                && primes[pidx[j]] == current[j],
    ensures
        primes_below(primes, outcomes, full, level + 1),
{
    reveal(level_complete);
    reveal(at_level);
    assert forall|c: Cube| #[trigger]
        prime_implicant(c, outcomes, full) && free_count(c.care, full) < level + 1 implies primes.contains(c) by {
        if free_count(c.care, full) < level {
            assert(old_primes.contains(c));
            let k = choose|k: int| 0 <= k < old_primes.len() && old_primes[k] == c;
            assert(primes[k] == c);
        } else {
            assert(current.contains(c));
            let j = choose|j: int| 0 <= j < current.len() && current[j] == c;
            if merged[j] {
                let e = next[witness[j]];
                assert(good_cube(e, outcomes, full));
                assert(subsumes(e, c));
                assert(free_count(e.care, full) == level + 1);
            }
            assert(primes[pidx[j]] == c);
        }
    }
}

/// When a level has no good cube, every good cube leaves fewer base bits free.
proof fn lemma_empty_level(current: Seq<Cube>, outcomes: Seq<bool>, full: u32, level: nat, d: Cube)
    requires
        current.len() == 0,
        level_complete(current, outcomes, full, level),
        good_cube(d, outcomes, full),
    ensures
        free_count(d.care, full) < level,
{
    reveal(level_complete);
    if free_count(d.care, full) >= level {
        let e = lemma_good_at_level(d, outcomes, full, level);
        assert(current.contains(e));
    }
}

/// After a round, the primes found so far are all prime implicants.
proof fn lemma_round_primes(
    current: Seq<Cube>,
    merged: Seq<bool>,
    next: Seq<Cube>,
    old_primes: Seq<Cube>,
    primes: Seq<Cube>,
    outcomes: Seq<bool>,
    full: u32,
    level: nat,
)
    requires
        all_good(current, outcomes, full),
        level_complete(current, outcomes, full, level),
        at_level(current, full, level),
        pairs_merged(current, merged, next),
        primes.len() >= old_primes.len(),
        forall|k: int| 0 <= k < old_primes.len() ==> primes[k] == old_primes[k],
        forall|k: int| 0 <= k < old_primes.len() ==> prime_implicant(#[trigger] old_primes[k], outcomes, full),
        forall|k: int| old_primes.len() <= k < primes.len() ==> kept_from(#[trigger] primes[k], current, merged),
    ensures
        forall|k: int| 0 <= k < primes.len() ==> prime_implicant(#[trigger] primes[k], outcomes, full),
        all_good(primes, outcomes, full),
{
    assert forall|k: int| 0 <= k < primes.len() implies prime_implicant(#[trigger] primes[k], outcomes, full) by {
        if k >= old_primes.len() {
            assert(kept_from(primes[k], current, merged));
            let j = choose|j: int| 0 <= j < current.len() && !merged[j] && #[trigger] current[j] == primes[k];
            lemma_kept_prime(current, merged, next, outcomes, full, level, j);
        } else {
            assert(primes[k] == old_primes[k]);
        }
    }
    assert forall|k: int| 0 <= k < primes.len() implies good_cube(#[trigger] primes[k], outcomes, full) by {
        assert(prime_implicant(primes[k], outcomes, full));
    }
}

/// After a round, every minterm is still covered by the next level or the primes.
proof fn lemma_round_covers(
    current: Seq<Cube>,
    next: Seq<Cube>,
    merged: Seq<bool>,
    witness: Seq<int>,
    old_primes: Seq<Cube>,
    primes: Seq<Cube>,
    pidx: Seq<int>,
    outcomes: Seq<bool>,
)
    requires
        forall|x: u32| #[trigger]
            on_set(outcomes, x) ==> covered_by(current, x) || covered_by(old_primes, x),
        primes.len() >= old_primes.len(),
        forall|k: int| 0 <= k < old_primes.len() ==> primes[k] == old_primes[k],
        merged.len() == current.len(),
        witness.len() == current.len(),
        forall|k: int|
            0 <= k < current.len() && #[trigger] merged[k] ==> 0 <= witness[k] < next.len() && subsumes(
                next[witness[k]],
                current[k],
            ),
        pidx.len() == current.len(),
        forall|j: int|
            0 <= j < current.len() && !#[trigger] merged[j] ==> 0 <= pidx[j] < primes.len()
                && primes[pidx[j]] == current[j],
    ensures
        forall|x: u32| #[trigger] on_set(outcomes, x) ==> covered_by(next, x) || covered_by(primes, x),
{
    assert forall|x: u32| #[trigger] on_set(outcomes, x) implies covered_by(next, x)
        || covered_by(primes, x) by {
        if covered_by(old_primes, x) {
            let k = choose|k: int| 0 <= k < old_primes.len() && #[trigger] cube_covers(
                old_primes[k],
                x,
            );
            assert(primes[k] == old_primes[k]);
            assert(cube_covers(primes[k], x));
        } else {
            let k = choose|k: int| 0 <= k < current.len() && #[trigger] cube_covers(
                current[k],
                x,
            );
            if merged[k] {
                lemma_subsumes_covers(next[witness[k]], current[k], x);
                assert(cube_covers(next[witness[k]], x));
            } else {
                assert(primes[pidx[k]] == current[k]);
                assert(cube_covers(primes[pidx[k]], x));
            }
        }
    }
}

/// One merging round: `next` holds every merge of two cubes of `current` with
/// equal cares whose values differ in one bit (once each); `merged[k]` tells
/// whether `current[k]` took part, and `witness[k]` the merge that subsumes it.
fn merge_round(current: &Vec<Cube>, outcomes: &[bool], full: u32) -> (r: (
    Vec<Cube>,
    Vec<bool>,
    Ghost<Seq<int>>,
))
    requires
        all_good(current@, outcomes@, full),
    ensures
        all_good(r.0@, outcomes@, full),
        r.1.len() == current.len(),
        r.2@.len() == current.len(),
        forall|k: int|
            0 <= k < current.len() && #[trigger] r.1@[k] ==> 0 <= r.2@[k] < r.0.len() && subsumes(
                r.0@[r.2@[k]],
                current@[k],
            ),
        forall|k: int| 0 <= k < r.0.len() ==> care_below(#[trigger] r.0@[k], current@),
        forall|k: int| 0 <= k < r.0.len() ==> merge_of(#[trigger] r.0@[k], current@),
        pairs_merged(current@, r.1@, r.0@),
{
    proof {
        reveal(pairs_merged);
    }
    let len = current.len();
    let mut merged: Vec<bool> = Vec::new();
    let mut k: usize = 0;
    while k < len
        invariant
            k <= len == current.len(),
            merged.len() == k,
            forall|j: int| 0 <= j < k ==> !merged@[j],
        decreases len - k,
    {
        merged.push(false);
        k = k + 1;
    }
    let mut next: Vec<Cube> = Vec::new();
    let ghost mut witness: Seq<int> = Seq::new(len as nat, |j: int| 0int);
    let mut i: usize = 0;
    while i < len
        invariant
            i <= len == current.len(),
            all_good(current@, outcomes@, full),
            all_good(next@, outcomes@, full),
            merged.len() == len,
            witness.len() == len,
            forall|q: int|
                0 <= q < len && #[trigger] merged@[q] ==> 0 <= witness[q] < next.len() && subsumes(
                    next@[witness[q]],
                    current@[q],
                ),
            forall|q: int| 0 <= q < next.len() ==> care_below(#[trigger] next@[q], current@),
            forall|q: int| 0 <= q < next.len() ==> merge_of(#[trigger] next@[q], current@),
            forall|p: int, q: int|
                0 <= p < q < len && p < i && #[trigger] mergeable(current@, p, q) ==> merged@[p]
                    && merged@[q] && next@.contains(merge(current@[p], current@[q])),
        decreases len - i,
    {
        let mut j: usize = i + 1;
        while j < len
            invariant
                i < len == current.len(),
                i + 1 <= j <= len,
                all_good(current@, outcomes@, full),
                all_good(next@, outcomes@, full),
                merged.len() == len,
                witness.len() == len,
                forall|q: int|
                    0 <= q < len && #[trigger] merged@[q] ==> 0 <= witness[q] < next.len()
                        && subsumes(next@[witness[q]], current@[q]),
                forall|q: int| 0 <= q < next.len() ==> care_below(#[trigger] next@[q], current@),
                forall|q: int| 0 <= q < next.len() ==> merge_of(#[trigger] next@[q], current@),
                forall|p: int, q: int|
                    0 <= p < q < len && (p < i || (p == i && q < j)) && #[trigger] mergeable(
                        current@,
                        p,
                        q,
                    ) ==> merged@[p] && merged@[q] && next@.contains(merge(current@[p], current@[q])),
            decreases len - j,
        {
            let a = current[i];
            let b = current[j];
            let diff = a.value ^ b.value;
            let ghost old_next = next@;
            let ghost old_merged = merged@;
            if a.care == b.care && is_single_bit_exec(diff) {
                let cube = Cube { care: a.care & !diff, value: a.value & !diff };
                proof {
                    lemma_merge_implicant(a, b, outcomes@, full);
                    assert(cube == merge(a, b));
                    assert(care_below(cube, current@));
                    assert(mergeable(current@, i as int, j as int));
                    assert(merge_of(cube, current@));
                }
                let ghost widx: int;
                if !contains_cube(&next, cube) {
                    next.push(cube);
                    proof {
                        widx = next.len() - 1;
                    }
                } else {
                    proof {
                        widx = choose|q: int| 0 <= q < next.len() && next@[q] == cube;
                    }
                }
                merged.set(i, true);
                merged.set(j, true);
                proof {
                    witness = witness.update(i as int, widx).update(j as int, widx);
                    assert(next@.contains(cube)) by {
                        assert(next@[widx] == cube);
                    }
                }
            }
            proof {
                assert forall|x: Cube| old_next.contains(x) implies next@.contains(x) by {
                    let q = choose|q: int| 0 <= q < old_next.len() && old_next[q] == x;
                    assert(next@[q] == x);
                }
                assert forall|p: int| 0 <= p < len && old_merged[p] implies merged@[p] by {}
            }
            j = j + 1;
        }
        i = i + 1;
    }
    (next, merged, Ghost(witness))
}

/// Appends the cubes of `current` that took part in no merge to `primes`;
/// returns where each such cube went.
fn keep_unmerged(current: &Vec<Cube>, merged: &Vec<bool>, primes: &mut Vec<Cube>) -> (pidx: Ghost<
    Seq<int>,
>)
    requires
        merged.len() == current.len(),
    ensures
        final(primes)@.len() >= old(primes)@.len(),
        forall|k: int| 0 <= k < old(primes)@.len() ==> final(primes)@[k] == old(primes)@[k],
        forall|k: int|
            old(primes)@.len() <= k < final(primes)@.len() ==> current@.contains(
                #[trigger] final(primes)@[k],
            ),
        forall|k: int|
            old(primes)@.len() <= k < final(primes)@.len() ==> kept_from(
                #[trigger] final(primes)@[k],
                current@,
                merged@,
            ),
        pidx@.len() == current.len(),
        forall|j: int|
            0 <= j < current.len() && !#[trigger] merged@[j] ==> 0 <= pidx@[j] < final(primes)@.len()
                && final(primes)@[pidx@[j]] == current@[j],
{
    let ghost mut pidx: Seq<int> = Seq::new(current.len() as nat, |j: int| 0int);
    let ghost start = primes@;
    let mut k: usize = 0;
    while k < current.len()
        invariant
            k <= current.len() == merged.len(),
            pidx.len() == current.len(),
            primes@.len() >= start.len(),
            forall|q: int| 0 <= q < start.len() ==> primes@[q] == start[q],
            forall|q: int| start.len() <= q < primes@.len() ==> current@.contains(#[trigger] primes@[q]),
            forall|q: int|
                start.len() <= q < primes@.len() ==> kept_from(#[trigger] primes@[q], current@, merged@),
            forall|j: int|
                0 <= j < k && !#[trigger] merged@[j] ==> 0 <= pidx[j] < primes@.len()
                    && primes@[pidx[j]] == current@[j],
        decreases current.len() - k,
    {
        if !merged[k] {
            primes.push(current[k]);
            proof {
                pidx = pidx.update(k as int, primes@.len() - 1);
                assert(current@[k as int] == primes@[primes@.len() - 1]);
                assert(kept_from(primes@[primes@.len() - 1], current@, merged@));
            }
        }
        k = k + 1;
    }
    Ghost(pidx)
}

/// Some element of `xs` is covered by `c`.
pub open spec fn any_covered(c: Cube, xs: Seq<u32>) -> bool {
    exists|q: int| 0 <= q < xs.len() && #[trigger] cube_covers(c, xs[q])
}

/// The wanted assignments in increasing order.
pub open spec fn minterms_of(outcomes: Seq<bool>) -> Seq<u32>
    decreases outcomes.len(),
{
    if outcomes.len() == 0 {
        Seq::empty()
    } else if outcomes.last() {
        minterms_of(outcomes.drop_last()).push((outcomes.len() - 1) as u32)
    } else {
        minterms_of(outcomes.drop_last())
    }
}

/// The elements of `xs` that `c` does not cover, in order.
pub open spec fn keep_uncovered(xs: Seq<u32>, c: Cube) -> Seq<u32>
    decreases xs.len(),
{
    if xs.len() == 0 {
        Seq::empty()
    } else if cube_covers(c, xs.last()) {
        keep_uncovered(xs.drop_last(), c)
    } else {
        keep_uncovered(xs.drop_last(), c).push(xs.last())
    }
}

/// The elements of `ms` that no cube of `cs` covers, in order.
pub open spec fn remaining_of(ms: Seq<u32>, cs: Seq<Cube>) -> Seq<u32>
    decreases ms.len(),
{
    if ms.len() == 0 {
        Seq::empty()
    } else if covered_by(cs, ms.last()) {
        remaining_of(ms.drop_last(), cs)
    } else {
        remaining_of(ms.drop_last(), cs).push(ms.last())
    }
}

/// Cube `i` of a greedy cover covers at least as many of the wanted
/// assignments left by the cubes before it as `p` does.
pub open spec fn greedy_choice(cover: Seq<Cube>, i: int, minterms: Seq<u32>, p: Cube) -> bool {
    count_covered(p, remaining_of(minterms, cover.take(i))) <= count_covered(
        cover[i],
        remaining_of(minterms, cover.take(i)),
    )
}

proof fn lemma_remaining_none(ms: Seq<u32>)
    ensures
        remaining_of(ms, Seq::empty()) == ms,
    decreases ms.len(),
{
    if ms.len() > 0 {
        lemma_remaining_none(ms.drop_last());
        assert(!covered_by(Seq::<Cube>::empty(), ms.last()));
        assert(ms.drop_last().push(ms.last()) =~= ms);
    }
}

proof fn lemma_remaining_push(ms: Seq<u32>, cs: Seq<Cube>, c: Cube)
    ensures
        remaining_of(ms, cs.push(c)) == keep_uncovered(remaining_of(ms, cs), c),
    decreases ms.len(),
{
    if ms.len() > 0 {
        let x = ms.last();
        let r = remaining_of(ms.drop_last(), cs);
        lemma_remaining_push(ms.drop_last(), cs, c);
        lemma_covered_push(cs, c, x);
        if !covered_by(cs, x) {
            assert(r.push(x).drop_last() =~= r);
            assert(r.push(x).last() == x);
        }
    }
}

/// The elements of `xs` that `c` does not cover.
fn uncovered_by(c: Cube, xs: &Vec<u32>) -> (rest: Vec<u32>)
    ensures
        forall|x: u32| #[trigger] rest@.contains(x) <==> (xs@.contains(x) && !cube_covers(c, x)),
        rest.len() <= xs.len(),
        any_covered(c, xs@) ==> rest.len() < xs.len(),
        rest@ == keep_uncovered(xs@, c),
{
    let mut rest: Vec<u32> = Vec::new();
    let mut k: usize = 0;
    while k < xs.len()
        invariant
            k <= xs.len(),
            rest@ == keep_uncovered(xs@.take(k as int), c),
            rest.len() <= k,
            forall|x: u32| #[trigger] rest@.contains(x) <==> (xs@.take(k as int).contains(x) && !cube_covers(c, x)),
            any_covered(c, xs@.take(k as int)) ==> rest.len() < k,
        decreases xs.len() - k,
    {
        let m = xs[k];
        let ghost before = rest@;
        assert(forall|x: u32| #[trigger] before.contains(x) <==> (xs@.take(k as int).contains(x) && !cube_covers(c, x)));
        assert(xs@.take(k + 1).drop_last() =~= xs@.take(k as int));
        assert(xs@.take(k + 1).last() == m);
        if !c.covers(m) {
            rest.push(m);
        }
        proof {
            assert forall|x: u32| #[trigger] rest@.contains(x) <==> (xs@.take(k + 1).contains(x) && !cube_covers(c, x)) by {
                lemma_take_succ_contains(xs@, k as int, x);
                lemma_contains_push(before, m, x);
                assert(before.contains(x) <==> (xs@.take(k as int).contains(x) && !cube_covers(c, x)));
                assert(xs@[k as int] == m);
            }
            if any_covered(c, xs@.take(k + 1)) {
                let q = choose|q: int| 0 <= q < xs@.take(k + 1).len() && #[trigger] cube_covers(c, xs@.take(k + 1)[q]);
                if q < k {
                    assert(cube_covers(c, xs@.take(k as int)[q]));
                }
            }
        }
        k = k + 1;
    }
    assert(xs@.take(xs.len() as int) =~= xs@);
    rest
}

/// Greedy cover: while some minterm is uncovered, take the prime covering the
/// most uncovered minterms (the last such).
fn greedy_cover(primes: &Vec<Cube>, minterms: &Vec<u32>, outcomes: &[bool], full: u32) -> (cover: Vec<
    Cube,
>)
    requires
        all_good(primes@, outcomes@, full),
        forall|x: u32| #[trigger] on_set(outcomes@, x) ==> covered_by(primes@, x),
        is_minterm_list(minterms@, outcomes@),
        forall|k: int| 0 <= k < primes.len() ==> prime_implicant(#[trigger] primes@[k], outcomes@, full),
        forall|c: Cube| #[trigger] prime_implicant(c, outcomes@, full) ==> primes@.contains(c),
    ensures
        forall|i: int, p: Cube|
            #![trigger greedy_choice(cover@, i, minterms@, p)]
            0 <= i < cover@.len() && prime_implicant(p, outcomes@, full) ==> greedy_choice(
                cover@,
                i,
                minterms@,
                p,
            ),
        forall|x: u32| x <= full ==> (covered_by(cover@, x) <==> on_set(outcomes@, x)),
        forall|i: int| 0 <= i < cover@.len() ==> #[trigger] covers_new(cover@, i, outcomes@),
        forall|i: int| 0 <= i < cover@.len() ==> prime_implicant(#[trigger] cover@[i], outcomes@, full),
        cover.len() <= minterms.len(),
{
    let mut uncovered: Vec<u32> = minterms.clone();
    let mut cover: Vec<Cube> = Vec::new();
    proof {
        lemma_remaining_none(minterms@);
    }
    assert forall|x: u32| #[trigger] on_set(outcomes@, x) implies (uncovered@.contains(x) <==> !covered_by(cover@, x)) by {}
    loop
        invariant
            all_good(primes@, outcomes@, full),
            forall|x: u32| #[trigger] on_set(outcomes@, x) ==> covered_by(primes@, x),
            all_good(cover@, outcomes@, full),
            forall|x: u32| uncovered@.contains(x) ==> #[trigger] on_set(outcomes@, x),
            forall|x: u32|
                #[trigger] on_set(outcomes@, x) ==> (uncovered@.contains(x) <==> !covered_by(cover@, x)),
            forall|i: int| 0 <= i < cover@.len() ==> #[trigger] covers_new(cover@, i, outcomes@),
            forall|k: int| 0 <= k < primes.len() ==> prime_implicant(#[trigger] primes@[k], outcomes@, full),
            forall|i: int| 0 <= i < cover@.len() ==> prime_implicant(#[trigger] cover@[i], outcomes@, full),
            cover.len() + uncovered.len() <= minterms.len(),
            forall|c: Cube| #[trigger] prime_implicant(c, outcomes@, full) ==> primes@.contains(c),
            uncovered@ == remaining_of(minterms@, cover@),
            forall|i: int, p: Cube|
                #![trigger greedy_choice(cover@, i, minterms@, p)]
                0 <= i < cover@.len() && prime_implicant(p, outcomes@, full) ==> greedy_choice(
                    cover@,
                    i,
                    minterms@,
                    p,
                ),
        decreases uncovered.len(),
    {
        let mut best: usize = 0;
        let mut best_count: usize = 0;
        let mut found = false;
        let mut p: usize = 0;
        while p < primes.len()
            invariant
                p <= primes.len(),
                found ==> best < primes.len() && best_count == count_covered(primes@[best as int], uncovered@),
                !found ==> p == 0,
                forall|q: int| 0 <= q < p ==> count_covered(#[trigger] primes@[q], uncovered@) <= best_count,
            decreases primes.len() - p,
        {
            let cnt = count_covered_exec(primes[p], &uncovered);
            if !found || cnt >= best_count {
                best = p;
                best_count = cnt;
                found = true;
            }
            p = p + 1;
        }
        if !found || best_count == 0 {
            proof {
                assert forall|x: u32| x <= full implies (covered_by(cover@, x) <==> on_set(
                    outcomes@,
                    x,
                )) by {
                    if covered_by(cover@, x) {
                        let k = choose|k: int| 0 <= k < cover@.len() && #[trigger] cube_covers(
                            cover@[k],
                            x,
                        );
                        assert(good_cube(cover@[k], outcomes@, full));
                    }
                    if on_set(outcomes@, x) && !covered_by(cover@, x) {
                        assert(uncovered@.contains(x));
                        let m = choose|m: int| 0 <= m < uncovered@.len() && uncovered@[m] == x;
                        assert(covered_by(primes@, x));
                        let q = choose|q: int| 0 <= q < primes@.len() && #[trigger] cube_covers(
                            primes@[q],
                            x,
                        );
                        lemma_count_positive(primes@[q], uncovered@);
                        assert(cube_covers(primes@[q], uncovered@[m]));
                        assert(count_covered(primes@[q], uncovered@) > 0);
                    }
                }
            }
            return cover;
        }
        let chosen = primes[best];
        proof {
            lemma_count_positive(chosen, uncovered@);
        }
        let ghost old_uncovered = uncovered@;
        let ghost old_cover = cover@;
        let rest = uncovered_by(chosen, &uncovered);
        assert(any_covered(chosen, old_uncovered));
        cover.push(chosen);
        proof {
            assert(good_cube(chosen, outcomes@, full));
            assert(prime_implicant(primes@[best as int], outcomes@, full));
            assert forall|k: int| 0 <= k < cover@.len() implies good_cube(#[trigger] cover@[k], outcomes@, full)
                && prime_implicant(cover@[k], outcomes@, full) by {
                if k < old_cover.len() {
                    assert(cover@[k] == old_cover[k]);
                }
            }
            assert forall|x: u32| rest@.contains(x) implies #[trigger] on_set(outcomes@, x) by {
                assert(old_uncovered.contains(x));
            }
            assert forall|x: u32| #[trigger] on_set(outcomes@, x) implies (rest@.contains(x) <==> !covered_by(
                cover@,
                x,
            )) by {
                lemma_covered_push(old_cover, chosen, x);
                assert(rest@.contains(x) <==> (old_uncovered.contains(x) && !cube_covers(chosen, x)));
                assert(old_uncovered.contains(x) <==> !covered_by(old_cover, x));
                assert(cover@ == old_cover.push(chosen));
            }
            assert forall|i: int| 0 <= i < cover@.len() implies #[trigger] covers_new(cover@, i, outcomes@) by {
                if i < old_cover.len() {
                    assert(cover@.take(i) =~= old_cover.take(i));
                    assert(cover@[i] == old_cover[i]);
                    assert(covers_new(old_cover, i, outcomes@));
                } else {
                    let q = choose|q: int|
                        0 <= q < old_uncovered.len() && #[trigger] cube_covers(
                            chosen,
                            old_uncovered[q],
                        );
                    let x = old_uncovered[q];
                    assert(old_uncovered.contains(x));
                    assert(on_set(outcomes@, x));
                    assert(cover@.take(i) =~= old_cover);
                    assert(cube_covers(cover@[i], x));
                }
            }
        }
        proof {
            lemma_remaining_push(minterms@, old_cover, chosen);
            assert(cover@ == old_cover.push(chosen));
            assert forall|i: int, p: Cube|
                #![trigger greedy_choice(cover@, i, minterms@, p)]
                0 <= i < cover@.len() && prime_implicant(p, outcomes@, full) implies greedy_choice(
                    cover@,
                    i,
                    minterms@,
                    p,
                ) by {
                if i < old_cover.len() {
                    assert(cover@.take(i) =~= old_cover.take(i));
                    assert(cover@[i] == old_cover[i]);
                    assert(greedy_choice(old_cover, i, minterms@, p));
                } else {
                    assert(cover@.take(i) =~= old_cover);
                    assert(primes@.contains(p));
                    let q = choose|q: int| 0 <= q < primes.len() && primes@[q] == p;
                    assert(count_covered(primes@[q], old_uncovered) <= best_count);
                }
            }
        }
        uncovered = rest;
    }
}

// ─── Gates ───────────────────────────────────────────────────────────

/// Whether an injected piece is present, absent, or present under the sum of
/// the given product terms over the base predicates.
#[derive(Clone, Debug)]
pub enum Gate {
    Off,
    On,
    Cfg(Vec<Cube>),
}

impl Gate {
    pub fn is_off(&self) -> (r: bool)
        ensures
            r == (*self is Off),
    {
        match self {
            Gate::Off => true,
            _ => false,
        }
    }

    /// `On` for `true`, `Off` for `false`.
    pub fn from_bool(on: bool) -> (r: Gate)
        ensures
            on ==> r is On,
            !on ==> r is Off,
    {
        if on {
            Gate::On
        } else {
            Gate::Off
        }
    }
}

/// Whether `g` holds under assignment `x`.
pub open spec fn gate_holds(g: Gate, x: u32) -> bool {
    match g {
        Gate::Off => false,
        Gate::On => true,
        Gate::Cfg(terms) => covered_by(terms@, x),
    }
}

pub open spec fn all_on(outcomes: Seq<bool>) -> bool {
    forall|i: int| 0 <= i < outcomes.len() ==> outcomes[i]
}

pub open spec fn none_on(outcomes: Seq<bool>) -> bool {
    forall|i: int| 0 <= i < outcomes.len() ==> !outcomes[i]
}

/// A gate holding in exactly the assignments where `outcomes` holds
/// (indexed by assignment): `On` when that is everywhere, `Off` when
/// nowhere, else the minimised sum of products.
pub fn gate(n_bases: usize, outcomes: &[bool]) -> (g: Gate)
    requires
        n_bases < 32,
        outcomes.len() == full_mask(n_bases) + 1,
    ensures
        all_on(outcomes@) ==> g is On,
        none_on(outcomes@) ==> g is Off,
        !all_on(outcomes@) && !none_on(outcomes@) ==> g is Cfg,
        forall|x: u32| x <= full_mask(n_bases) ==> (gate_holds(g, x) <==> outcomes@[x as int]),
        g matches Gate::Cfg(terms) ==> forall|i: int|
            0 <= i < terms@.len() ==> prime_implicant(#[trigger] terms@[i], outcomes@, full_mask(n_bases))
                && covers_new(terms@, i, outcomes@),
        g matches Gate::Cfg(terms) ==> forall|i: int, p: Cube|
            #![trigger greedy_choice(terms@, i, minterms_of(outcomes@), p)]
            0 <= i < terms@.len() && prime_implicant(p, outcomes@, full_mask(n_bases)) ==> greedy_choice(
                terms@,
                i,
                minterms_of(outcomes@),
                p,
            ),
{
    let mut all = true;
    let mut any = false;
    let mut i: usize = 0;
    while i < outcomes.len()
        invariant
            i <= outcomes.len(),
            all <==> (forall|k: int| 0 <= k < i ==> outcomes@[k]),
            any <==> (exists|k: int| 0 <= k < i && outcomes@[k]),
        decreases outcomes.len() - i,
    {
        if outcomes[i] {
            any = true;
        } else {
            all = false;
        }
        i = i + 1;
    }
    if all {
        assert(outcomes@[0]);
        return Gate::On;
    }
    if !any {
        return Gate::Off;
    }
    let cover = minimal_cover(n_bases, outcomes);
    proof {
        assert forall|x: u32| x <= full_mask(n_bases) implies (covered_by(cover@, x) <==> outcomes@[x as int]) by {
            assert(on_set(outcomes@, x) <==> outcomes@[x as int]);
        }
    }
    Gate::Cfg(cover)
}

/// Bit `k` of `x` is set.
pub open spec fn bit_set(x: u32, k: int) -> bool {
    x & (1u32 << (k as u32)) != 0
}

/// The literals of a product term, in base order: base `k` for every bit `k <
/// n` the cube cares about, positive when the cube requires it set.
pub open spec fn literals_of(c: Cube, n: int) -> Seq<(usize, bool)>
    decreases n,
{
    if n <= 0 {
        Seq::empty()
    } else if bit_set(c.care, n - 1) {
        literals_of(c, n - 1).push(((n - 1) as usize, bit_set(c.value, n - 1)))
    } else {
        literals_of(c, n - 1)
    }
}

/// The literals of a product term over `n` base predicates.
pub fn cube_literals(c: Cube, n: usize) -> (lits: Vec<(usize, bool)>)
    requires
        n <= 32,
    ensures
        lits@ == literals_of(c, n as int),
{
    let mut lits: Vec<(usize, bool)> = Vec::new();
    let mut k: usize = 0;
    while k < n
        invariant
            k <= n <= 32,
            lits@ == literals_of(c, k as int),
        decreases n - k,
    {
        let bit: u32 = 1u32 << (k as u32);
        if c.care & bit != 0 {
            lits.push((k, c.value & bit != 0));
        }
        k = k + 1;
    }
    lits
}

// ─── Cfg predicates over the base predicates ─────────────────────────

/// A cfg predicate lowered over base predicates, numbered by index.
#[derive(Debug)]
pub enum Expr {
    Const(bool),
    Base(usize),
    All(Vec<Expr>),
    Any(Vec<Expr>),
    Not(Box<Expr>),
}

/// The value of `e` under the assignment `bits` (base `k` true iff bit `k`).
pub open spec fn spec_eval(e: Expr, bits: u32) -> bool
    decreases e, 0int,
{
    match e {
        Expr::Const(v) => v,
        Expr::Base(k) => bit_set(bits, k as int),
        Expr::All(es) => eval_all(es@, 0, bits),
        Expr::Any(es) => eval_any(es@, 0, bits),
        Expr::Not(inner) => !spec_eval(*inner, bits),
    }
}

/// Every `es[i..]` holds.
pub open spec fn eval_all(es: Seq<Expr>, i: int, bits: u32) -> bool
    decreases es, es.len() - i,
{
    if 0 <= i < es.len() {
        spec_eval(es[i], bits) && eval_all(es, i + 1, bits)
    } else {
        true
    }
}

/// Some `es[i..]` holds.
pub open spec fn eval_any(es: Seq<Expr>, i: int, bits: u32) -> bool
    decreases es, es.len() - i,
{
    if 0 <= i < es.len() {
        spec_eval(es[i], bits) || eval_any(es, i + 1, bits)
    } else {
        false
    }
}

/// Every base index of `e` is below `n`.
pub open spec fn bases_below(e: Expr, n: int) -> bool
    decreases e, 0int,
{
    match e {
        Expr::Const(_) => true,
        Expr::Base(k) => k < n,
        Expr::All(es) => bases_below_all(es@, 0, n),
        Expr::Any(es) => bases_below_all(es@, 0, n),
        Expr::Not(inner) => bases_below(*inner, n),
    }
}

pub open spec fn bases_below_all(es: Seq<Expr>, i: int, n: int) -> bool
    decreases es, es.len() - i,
{
    if 0 <= i < es.len() {
        bases_below(es[i], n) && bases_below_all(es, i + 1, n)
    } else {
        true
    }
}

impl Expr {
    pub fn eval(&self, bits: u32) -> (r: bool)
        requires
            bases_below(*self, 32),
        ensures
            r == spec_eval(*self, bits),
        decreases self,
    {
        match self {
            Expr::Const(value) => *value,
            Expr::Base(k) => bits & (1u32 << (*k as u32)) != 0,
            Expr::All(exprs) => {
                let mut i: usize = 0;
                while i < exprs.len()
                    invariant
                        i <= exprs.len(),
                        bases_below_all(exprs@, i as int, 32),
                        *self == Expr::All(*exprs),
                        spec_eval(*self, bits) == eval_all(exprs@, i as int, bits),
                    decreases exprs.len() - i,
                {
                    proof {
                        assert(decreases_to!(*self => (*self)->All_0));
                        assert(decreases_to!((*self)->All_0 => (*self)->All_0@));
                        assert(decreases_to!((*self)->All_0@ => exprs@[i as int]));
                    }
                    if !exprs[i].eval(bits) {
                        return false;
                    }
                    i = i + 1;
                }
                true
            },
            Expr::Any(exprs) => {
                let mut i: usize = 0;
                while i < exprs.len()
                    invariant
                        i <= exprs.len(),
                        bases_below_all(exprs@, i as int, 32),
                        *self == Expr::Any(*exprs),
                        spec_eval(*self, bits) == eval_any(exprs@, i as int, bits),
                    decreases exprs.len() - i,
                {
                    proof {
                        assert(decreases_to!(*self => (*self)->Any_0));
                        assert(decreases_to!((*self)->Any_0 => (*self)->Any_0@));
                        assert(decreases_to!((*self)->Any_0@ => exprs@[i as int]));
                    }
                    if exprs[i].eval(bits) {
                        return true;
                    }
                    i = i + 1;
                }
                false
            },
            Expr::Not(expr) => !expr.eval(bits),
        }
    }
}

/// The number of truth assignments of `n` base predicates.
pub fn assignment_count(n_bases: usize) -> (r: u32)
    requires
        n_bases < 32,
    ensures
        r == full_mask(n_bases) + 1,
{
    proof {
        lemma_full_mask(n_bases);
    }
    1u32 << (n_bases as u32)
}

} // verus!

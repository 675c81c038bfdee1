//! The names of an error type's generic parameters, by kind.

use vstd::prelude::*;
use crate::types::str_eq;

verus! {

/// One generic parameter: its kind and name (a lifetime without its `'`).
pub enum GenericParamName {
    Type(String),
    Const(String),
    Lifetime(String),
}

/// The declared parameter names, partitioned by kind.
pub struct DeclaredParams {
    pub types: Vec<String>,
    pub consts: Vec<String>,
    pub lifetimes: Vec<String>,
}

pub open spec fn names_set(v: Seq<String>) -> Set<Seq<char>> {
    Set::new(|s: Seq<char>| exists|i: int| 0 <= i < v.len() && #[trigger] v[i]@ == s)
}

pub open spec fn kind_names(ps: Seq<GenericParamName>, k: int) -> Set<Seq<char>> {
    Set::new(
        |s: Seq<char>|
            exists|i: int|
                0 <= i < ps.len() && match #[trigger] ps[i] {
                    GenericParamName::Type(n) => k == 0 && n@ == s,
                    GenericParamName::Const(n) => k == 1 && n@ == s,
                    GenericParamName::Lifetime(n) => k == 2 && n@ == s,
                },
    )
}

pub(crate) fn vec_contains(v: &Vec<String>, name: &str) -> (r: bool)
    ensures
        r == names_set(v@).contains(name@),
{
    let mut i: usize = 0;
    while i < v.len()
        invariant
            i <= v.len(),
            forall|k: int| 0 <= k < i ==> v@[k]@ != name@,
        decreases v.len() - i,
    {
        if str_eq(v[i].as_str(), name) {
            assert(v@[i as int]@ == name@);
            return true;
        }
        i = i + 1;
    }
    false
}

impl DeclaredParams {
    /// The parameters `params` declares, by kind.
    pub fn from_params(params: Vec<GenericParamName>) -> (r: Self)
        ensures
            names_set(r.types@) == kind_names(params@, 0),
            names_set(r.consts@) == kind_names(params@, 1),
            names_set(r.lifetimes@) == kind_names(params@, 2),
    {
        let ghost ps = params@;
        let mut rest = params;
        let mut types: Vec<String> = Vec::new();
        let mut consts: Vec<String> = Vec::new();
        let mut lifetimes: Vec<String> = Vec::new();
        let n = rest.len();
        let mut i: usize = 0;
        while i < n
            invariant
                n == ps.len(),
                i <= n,
                rest@ == ps.subrange(i as int, n as int),
                names_set(types@) == kind_names(ps.take(i as int), 0),
                names_set(consts@) == kind_names(ps.take(i as int), 1),
                names_set(lifetimes@) == kind_names(ps.take(i as int), 2),
            decreases n - i,
        {
            let p = rest.remove(0);
            assert(p == ps[i as int]);
            let ghost (t0, c0, l0) = (types@, consts@, lifetimes@);
            match p {
                GenericParamName::Type(name) => types.push(name),
                GenericParamName::Const(name) => consts.push(name),
                GenericParamName::Lifetime(name) => lifetimes.push(name),
            }
            i = i + 1;
            let ghost pre = ps.take(i - 1);
            let ghost cur = ps.take(i as int);
            assert(cur =~= pre.push(ps[i - 1]));
            assert forall|k: int, s: Seq<char>| 0 <= k < 3 implies #[trigger] kind_names(cur, k).contains(s)
                == (kind_names(pre, k).contains(s) || match ps[i - 1] {
                GenericParamName::Type(n) => k == 0 && n@ == s,
                GenericParamName::Const(n) => k == 1 && n@ == s,
                GenericParamName::Lifetime(n) => k == 2 && n@ == s,
            }) by {
                if kind_names(cur, k).contains(s) {
                    let j = choose|j: int|
                        0 <= j < cur.len() && match #[trigger] cur[j] {
                            GenericParamName::Type(n) => k == 0 && n@ == s,
                            GenericParamName::Const(n) => k == 1 && n@ == s,
                            GenericParamName::Lifetime(n) => k == 2 && n@ == s,
                        };
                    if j < pre.len() {
                        assert(pre[j] == cur[j]);
                    }
                }
                if kind_names(pre, k).contains(s) {
                    let j = choose|j: int|
                        0 <= j < pre.len() && match #[trigger] pre[j] {
                            GenericParamName::Type(n) => k == 0 && n@ == s,
                            GenericParamName::Const(n) => k == 1 && n@ == s,
                            GenericParamName::Lifetime(n) => k == 2 && n@ == s,
                        };
                    assert(cur[j] == pre[j]);
                }
                if match ps[i - 1] {
                    GenericParamName::Type(n) => k == 0 && n@ == s,
                    GenericParamName::Const(n) => k == 1 && n@ == s,
                    GenericParamName::Lifetime(n) => k == 2 && n@ == s,
                } {
                    assert(cur[i - 1] == ps[i - 1]);
                }
            }
            assert(names_set(types@) =~= kind_names(cur, 0)) by {
                assert forall|s: Seq<char>| names_set(types@).contains(s) == kind_names(cur, 0).contains(s) by {
                    if names_set(types@).contains(s) {
                        let j = choose|j: int| 0 <= j < types@.len() && #[trigger] types@[j]@ == s;
                        if j < t0.len() {
                            assert(names_set(t0).contains(s));
                        }
                    }
                    if names_set(t0).contains(s) {
                        let j = choose|j: int| 0 <= j < t0.len() && #[trigger] t0[j]@ == s;
                        assert(types@[j] == t0[j]);
                    }
                    if kind_names(cur, 0).contains(s) && !kind_names(pre, 0).contains(s) {
                        assert(types@.last()@ == s);
                    }
                }
            }
            assert(names_set(consts@) =~= kind_names(cur, 1)) by {
                assert forall|s: Seq<char>| names_set(consts@).contains(s) == kind_names(cur, 1).contains(s) by {
                    if names_set(consts@).contains(s) {
                        let j = choose|j: int| 0 <= j < consts@.len() && #[trigger] consts@[j]@ == s;
                        if j < c0.len() {
                            assert(names_set(c0).contains(s));
                        }
                    }
                    if names_set(c0).contains(s) {
                        let j = choose|j: int| 0 <= j < c0.len() && #[trigger] c0[j]@ == s;
                        assert(consts@[j] == c0[j]);
                    }
                    if kind_names(cur, 1).contains(s) && !kind_names(pre, 1).contains(s) {
                        assert(consts@.last()@ == s);
                    }
                }
            }
            assert(names_set(lifetimes@) =~= kind_names(cur, 2)) by {
                assert forall|s: Seq<char>| names_set(lifetimes@).contains(s) == kind_names(cur, 2).contains(s) by {
                    if names_set(lifetimes@).contains(s) {
                        let j = choose|j: int| 0 <= j < lifetimes@.len() && #[trigger] lifetimes@[j]@ == s;
                        if j < l0.len() {
                            assert(names_set(l0).contains(s));
                        }
                    }
                    if names_set(l0).contains(s) {
                        let j = choose|j: int| 0 <= j < l0.len() && #[trigger] l0[j]@ == s;
                        assert(lifetimes@[j] == l0[j]);
                    }
                    if kind_names(cur, 2).contains(s) && !kind_names(pre, 2).contains(s) {
                        assert(lifetimes@.last()@ == s);
                    }
                }
            }
            assert(rest@ =~= ps.subrange(i as int, n as int));
        }
        assert(ps.take(n as int) =~= ps);
        DeclaredParams { types, consts, lifetimes }
    }

    /// Whether `name` is taken by a declared type or const parameter (a
    /// synthetic parameter must avoid it).
    pub fn contains(&self, name: &str) -> (r: bool)
        ensures
            r == (names_set(self.types@).contains(name@) || names_set(self.consts@).contains(name@)),
    {
        vec_contains(&self.types, name) || vec_contains(&self.consts, name)
    }
}

} // verus!

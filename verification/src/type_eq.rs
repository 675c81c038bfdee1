//! Structural equality of [`TypeTree`]s: two types are the same when they
//! are built the same way from the same tokens.

use vstd::prelude::*;
use crate::types::{
    AngleArgs, FnPtrType, GenericArg, NamedArg, PathArgs, PathSegment, PunctStrs, QSelf,
    TypePath, TypeTree, str_eq,
};

verus! {

pub open spec fn same_str_seq(a: Seq<String>, b: Seq<String>) -> bool {
    a.len() == b.len() && forall|i: int| 0 <= i < a.len() ==> #[trigger] a[i]@ == b[i]@
}

pub open spec fn same_strs(a: PunctStrs, b: PunctStrs) -> bool {
    a.trailing == b.trailing && same_str_seq(a.items@, b.items@)
}

pub open spec fn same_opt_str(a: Option<String>, b: Option<String>) -> bool {
    match a {
        Some(x) => match b {
            Some(y) => x@ == y@,
            None => false,
        },
        None => b is None,
    }
}

/// Whether `a` and `b` are the same type.
pub open spec fn same_type(a: TypeTree, b: TypeTree) -> bool
    decreases a, 0int,
{
    match a {
        TypeTree::Path(p) => match b {
            TypeTree::Path(q) => same_path(p, q),
            _ => false,
        },
        TypeTree::Array(e, l) => match b {
            TypeTree::Array(e2, l2) => same_type(*e, *e2) && l@ == l2@,
            _ => false,
        },
        TypeTree::Reference(l, m, e) => match b {
            TypeTree::Reference(l2, m2, e2) => same_opt_str(l, l2) && m == m2 && same_type(*e, *e2),
            _ => false,
        },
        TypeTree::Group(e) => match b {
            TypeTree::Group(e2) => same_type(*e, *e2),
            _ => false,
        },
        TypeTree::Paren(e) => match b {
            TypeTree::Paren(e2) => same_type(*e, *e2),
            _ => false,
        },
        TypeTree::Ptr(m, e) => match b {
            TypeTree::Ptr(m2, e2) => m == m2 && same_type(*e, *e2),
            _ => false,
        },
        TypeTree::Slice(e) => match b {
            TypeTree::Slice(e2) => same_type(*e, *e2),
            _ => false,
        },
        TypeTree::TraitObject(s) => match b {
            TypeTree::TraitObject(s2) => same_strs(s, s2),
            _ => false,
        },
        TypeTree::ImplTrait(s) => match b {
            TypeTree::ImplTrait(s2) => same_strs(s, s2),
            _ => false,
        },
        TypeTree::FnPtr(f) => match b {
            TypeTree::FnPtr(f2) => same_fn_ptr(f, f2),
            _ => false,
        },
        TypeTree::Tuple(es, t) => match b {
            TypeTree::Tuple(es2, t2) => t == t2 && es@.len() == es2@.len() && same_type_list(
                es@,
                es2@,
                0,
            ),
            _ => false,
        },
        TypeTree::Verbatim(s) => match b {
            TypeTree::Verbatim(s2) => s@ == s2@,
            _ => false,
        },
    }
}

/// `a[i..]` and `b[i..]` pairwise the same (lengths compared by the caller).
pub open spec fn same_type_list(a: Seq<TypeTree>, b: Seq<TypeTree>, i: int) -> bool
    decreases a, a.len() - i,
{
    if 0 <= i < a.len() {
        same_type(a[i], b[i]) && same_type_list(a, b, i + 1)
    } else {
        true
    }
}

pub open spec fn same_output(a: Option<Box<TypeTree>>, b: Option<Box<TypeTree>>) -> bool
    decreases a, 1int,
{
    match a {
        Some(t) => match b {
            Some(t2) => same_type(*t, *t2),
            None => false,
        },
        None => b is None,
    }
}

pub open spec fn same_fn_ptr(a: FnPtrType, b: FnPtrType) -> bool
    decreases a, 0int,
{
    &&& match a.lifetimes {
        Some(l) => match b.lifetimes {
            Some(l2) => same_strs(l, l2),
            None => false,
        },
        None => b.lifetimes is None,
    }
    &&& a.unsafety == b.unsafety
    &&& same_opt_str(a.abi, b.abi)
    &&& a.inputs_trailing == b.inputs_trailing
    &&& a.inputs@.len() == b.inputs@.len()
    &&& same_arg_list(a.inputs@, b.inputs@, 0)
    &&& same_opt_str(a.variadic, b.variadic)
    &&& same_output(a.output, b.output)
}

pub open spec fn same_named_arg(a: NamedArg, b: NamedArg) -> bool
    decreases a, 0int,
{
    same_str_seq(a.attrs@, b.attrs@) && same_opt_str(a.name, b.name) && same_type(a.ty, b.ty)
}

pub open spec fn same_arg_list(a: Seq<NamedArg>, b: Seq<NamedArg>, i: int) -> bool
    decreases a, a.len() - i,
{
    if 0 <= i < a.len() {
        same_named_arg(a[i], b[i]) && same_arg_list(a, b, i + 1)
    } else {
        true
    }
}

pub open spec fn same_path(a: TypePath, b: TypePath) -> bool
    decreases a, 0int,
{
    &&& match a.qself {
        Some(q) => match b.qself {
            Some(q2) => same_type(*q.ty, *q2.ty) && q.position == q2.position && q.has_as
                == q2.has_as,
            None => false,
        },
        None => b.qself is None,
    }
    &&& a.leading_colon == b.leading_colon
    &&& a.segments@.len() == b.segments@.len()
    &&& same_segment_list(a.segments@, b.segments@, 0)
}

pub open spec fn same_segment_list(a: Seq<PathSegment>, b: Seq<PathSegment>, i: int) -> bool
    decreases a, a.len() - i,
{
    if 0 <= i < a.len() {
        same_segment(a[i], b[i]) && same_segment_list(a, b, i + 1)
    } else {
        true
    }
}

pub open spec fn same_segment(a: PathSegment, b: PathSegment) -> bool
    decreases a, 0int,
{
    a.ident@ == b.ident@ && match a.args {
        PathArgs::Plain => b.args is Plain,
        PathArgs::Angle(x) => match b.args {
            PathArgs::Angle(y) => same_angle(x, y),
            _ => false,
        },
        PathArgs::Paren(ins, t, out) => match b.args {
            PathArgs::Paren(ins2, t2, out2) => t == t2 && ins@.len() == ins2@.len()
                && same_arg_list(ins@, ins2@, 0) && same_output(out, out2),
            _ => false,
        },
    }
}

pub open spec fn same_angle(a: AngleArgs, b: AngleArgs) -> bool
    decreases a, 0int,
{
    a.colon2 == b.colon2 && a.trailing == b.trailing && a.args@.len() == b.args@.len()
        && same_generic_list(a.args@, b.args@, 0)
}

pub open spec fn same_generic_list(a: Seq<GenericArg>, b: Seq<GenericArg>, i: int) -> bool
    decreases a, a.len() - i,
{
    if 0 <= i < a.len() {
        same_generic(a[i], b[i]) && same_generic_list(a, b, i + 1)
    } else {
        true
    }
}

pub open spec fn same_generic(a: GenericArg, b: GenericArg) -> bool
    decreases a, 0int,
{
    match a {
        GenericArg::Lifetime(l) => match b {
            GenericArg::Lifetime(l2) => l@ == l2@,
            _ => false,
        },
        GenericArg::Type(t) => match b {
            GenericArg::Type(t2) => same_type(t, t2),
            _ => false,
        },
        GenericArg::Constraint(i, s) => match b {
            GenericArg::Constraint(i2, s2) => i@ == i2@ && same_strs(s, s2),
            _ => false,
        },
        GenericArg::AssocType(i, g, t) => match b {
            GenericArg::AssocType(i2, g2, t2) => i@ == i2@ && match g {
                Some(x) => match g2 {
                    Some(y) => same_angle(x, y),
                    None => false,
                },
                None => g2 is None,
            } && same_type(t, t2),
            _ => false,
        },
        GenericArg::Verbatim(s) => match b {
            GenericArg::Verbatim(s2) => s@ == s2@,
            _ => false,
        },
    }
}

// ─── Deciding it ─────────────────────────────────────────────────────

fn opt_str_eq(a: &Option<String>, b: &Option<String>) -> (r: bool)
    ensures
        r == same_opt_str(*a, *b),
{
    match a {
        Some(x) => match b {
            Some(y) => str_eq(x.as_str(), y.as_str()),
            None => false,
        },
        None => b.is_none(),
    }
}

fn str_seq_eq(a: &Vec<String>, b: &Vec<String>) -> (r: bool)
    ensures
        r == same_str_seq(a@, b@),
{
    if a.len() != b.len() {
        return false;
    }
    let mut i: usize = 0;
    while i < a.len()
        invariant
            a.len() == b.len(),
            i <= a.len(),
            forall|k: int| 0 <= k < i ==> #[trigger] a@[k]@ == b@[k]@,
        decreases a.len() - i,
    {
        if !str_eq(a[i].as_str(), b[i].as_str()) {
            return false;
        }
        i = i + 1;
    }
    true
}

fn strs_eq(a: &PunctStrs, b: &PunctStrs) -> (r: bool)
    ensures
        r == same_strs(*a, *b),
{
    a.trailing == b.trailing && str_seq_eq(&a.items, &b.items)
}

impl TypeTree {
    /// Whether `self` and `other` are the same type.
    pub fn same(&self, other: &TypeTree) -> (r: bool)
        ensures
            r == same_type(*self, *other),
        decreases self, 0int,
    {
        match self {
            TypeTree::Path(p) => match other {
                TypeTree::Path(q) => path_eq(p, q),
                _ => false,
            },
            TypeTree::Array(e, l) => match other {
                TypeTree::Array(e2, l2) => e.same(e2) && str_eq(l.as_str(), l2.as_str()),
                _ => false,
            },
            TypeTree::Reference(l, m, e) => match other {
                TypeTree::Reference(l2, m2, e2) => opt_str_eq(l, l2) && *m == *m2 && e.same(e2),
                _ => false,
            },
            TypeTree::Group(e) => match other {
                TypeTree::Group(e2) => e.same(e2),
                _ => false,
            },
            TypeTree::Paren(e) => match other {
                TypeTree::Paren(e2) => e.same(e2),
                _ => false,
            },
            TypeTree::Ptr(m, e) => match other {
                TypeTree::Ptr(m2, e2) => *m == *m2 && e.same(e2),
                _ => false,
            },
            TypeTree::Slice(e) => match other {
                TypeTree::Slice(e2) => e.same(e2),
                _ => false,
            },
            TypeTree::TraitObject(s) => match other {
                TypeTree::TraitObject(s2) => strs_eq(s, s2),
                _ => false,
            },
            TypeTree::ImplTrait(s) => match other {
                TypeTree::ImplTrait(s2) => strs_eq(s, s2),
                _ => false,
            },
            TypeTree::FnPtr(f) => match other {
                TypeTree::FnPtr(f2) => fn_ptr_eq(f, f2),
                _ => false,
            },
            TypeTree::Tuple(es, t) => match other {
                TypeTree::Tuple(es2, t2) => *t == *t2 && es.len() == es2.len() && type_list_eq(
                    es,
                    es2,
                ),
                _ => false,
            },
            TypeTree::Verbatim(s) => match other {
                TypeTree::Verbatim(s2) => str_eq(s.as_str(), s2.as_str()),
                _ => false,
            },
        }
    }
}

fn type_list_eq(a: &Vec<TypeTree>, b: &Vec<TypeTree>) -> (r: bool)
    requires
        a.len() == b.len(),
    ensures
        r == same_type_list(a@, b@, 0),
    decreases a, 1int,
{
    let mut i: usize = 0;
    while i < a.len()
        invariant
            a.len() == b.len(),
            i <= a.len(),
            same_type_list(a@, b@, 0) == same_type_list(a@, b@, i as int),
        decreases a.len() - i,
    {
        proof {
            assert(decreases_to!(*a => a@));
            assert(decreases_to!(a@ => a@[i as int]));
        }
        if !a[i].same(&b[i]) {
            return false;
        }
        i = i + 1;
    }
    true
}

fn output_eq(a: &Option<Box<TypeTree>>, b: &Option<Box<TypeTree>>) -> (r: bool)
    ensures
        r == same_output(*a, *b),
    decreases a, 1int,
{
    match a {
        Some(t) => match b {
            Some(t2) => t.same(t2),
            None => false,
        },
        None => b.is_none(),
    }
}

fn fn_ptr_eq(a: &FnPtrType, b: &FnPtrType) -> (r: bool)
    ensures
        r == same_fn_ptr(*a, *b),
    decreases a, 0int,
{
    let lifetimes = match &a.lifetimes {
        Some(l) => match &b.lifetimes {
            Some(l2) => strs_eq(l, l2),
            None => false,
        },
        None => b.lifetimes.is_none(),
    };
    lifetimes && a.unsafety == b.unsafety && opt_str_eq(&a.abi, &b.abi) && a.inputs_trailing
        == b.inputs_trailing && a.inputs.len() == b.inputs.len() && arg_list_eq(
        &a.inputs,
        &b.inputs,
    ) && opt_str_eq(&a.variadic, &b.variadic) && output_eq(&a.output, &b.output)
}

fn named_arg_eq(a: &NamedArg, b: &NamedArg) -> (r: bool)
    ensures
        r == same_named_arg(*a, *b),
    decreases a, 0int,
{
    str_seq_eq(&a.attrs, &b.attrs) && opt_str_eq(&a.name, &b.name) && a.ty.same(&b.ty)
}

fn arg_list_eq(a: &Vec<NamedArg>, b: &Vec<NamedArg>) -> (r: bool)
    requires
        a.len() == b.len(),
    ensures
        r == same_arg_list(a@, b@, 0),
    decreases a, 1int,
{
    let mut i: usize = 0;
    while i < a.len()
        invariant
            a.len() == b.len(),
            i <= a.len(),
            same_arg_list(a@, b@, 0) == same_arg_list(a@, b@, i as int),
        decreases a.len() - i,
    {
        proof {
            assert(decreases_to!(*a => a@));
            assert(decreases_to!(a@ => a@[i as int]));
        }
        if !named_arg_eq(&a[i], &b[i]) {
            return false;
        }
        i = i + 1;
    }
    true
}

fn qself_eq(a: &Option<QSelf>, b: &Option<QSelf>) -> (r: bool)
    ensures
        r == match *a {
            Some(q) => match *b {
                Some(q2) => same_type(*q.ty, *q2.ty) && q.position == q2.position && q.has_as
                    == q2.has_as,
                None => false,
            },
            None => b is None,
        },
    decreases a, 1int,
{
    match a {
        Some(q) => match b {
            Some(q2) => q.ty.same(&q2.ty) && q.position == q2.position && q.has_as == q2.has_as,
            None => false,
        },
        None => b.is_none(),
    }
}

fn path_eq(a: &TypePath, b: &TypePath) -> (r: bool)
    ensures
        r == same_path(*a, *b),
    decreases a, 0int,
{
    qself_eq(&a.qself, &b.qself) && a.leading_colon == b.leading_colon && a.segments.len()
        == b.segments.len() && segment_list_eq(&a.segments, &b.segments)
}

fn segment_list_eq(a: &Vec<PathSegment>, b: &Vec<PathSegment>) -> (r: bool)
    requires
        a.len() == b.len(),
    ensures
        r == same_segment_list(a@, b@, 0),
    decreases a, 1int,
{
    let mut i: usize = 0;
    while i < a.len()
        invariant
            a.len() == b.len(),
            i <= a.len(),
            same_segment_list(a@, b@, 0) == same_segment_list(a@, b@, i as int),
        decreases a.len() - i,
    {
        proof {
            assert(decreases_to!(*a => a@));
            assert(decreases_to!(a@ => a@[i as int]));
        }
        if !segment_eq(&a[i], &b[i]) {
            return false;
        }
        i = i + 1;
    }
    true
}

fn segment_eq(a: &PathSegment, b: &PathSegment) -> (r: bool)
    ensures
        r == same_segment(*a, *b),
    decreases a, 0int,
{
    if !str_eq(a.ident.as_str(), b.ident.as_str()) {
        return false;
    }
    match &a.args {
        PathArgs::Plain => match &b.args {
            PathArgs::Plain => true,
            _ => false,
        },
        PathArgs::Angle(x) => match &b.args {
            PathArgs::Angle(y) => angle_eq(x, y),
            _ => false,
        },
        PathArgs::Paren(ins, t, out) => match &b.args {
            PathArgs::Paren(ins2, t2, out2) => *t == *t2 && ins.len() == ins2.len() && arg_list_eq(
                ins,
                ins2,
            ) && output_eq(out, out2),
            _ => false,
        },
    }
}

fn angle_eq(a: &AngleArgs, b: &AngleArgs) -> (r: bool)
    ensures
        r == same_angle(*a, *b),
    decreases a, 0int,
{
    a.colon2 == b.colon2 && a.trailing == b.trailing && a.args.len() == b.args.len()
        && generic_list_eq(&a.args, &b.args)
}

fn generic_list_eq(a: &Vec<GenericArg>, b: &Vec<GenericArg>) -> (r: bool)
    requires
        a.len() == b.len(),
    ensures
        r == same_generic_list(a@, b@, 0),
    decreases a, 1int,
{
    let mut i: usize = 0;
    while i < a.len()
        invariant
            a.len() == b.len(),
            i <= a.len(),
            same_generic_list(a@, b@, 0) == same_generic_list(a@, b@, i as int),
        decreases a.len() - i,
    {
        proof {
            assert(decreases_to!(*a => a@));
            assert(decreases_to!(a@ => a@[i as int]));
        }
        if !generic_eq(&a[i], &b[i]) {
            return false;
        }
        i = i + 1;
    }
    true
}

fn generic_eq(a: &GenericArg, b: &GenericArg) -> (r: bool)
    ensures
        r == same_generic(*a, *b),
    decreases a, 0int,
{
    match a {
        GenericArg::Lifetime(l) => match b {
            GenericArg::Lifetime(l2) => str_eq(l.as_str(), l2.as_str()),
            _ => false,
        },
        GenericArg::Type(t) => match b {
            GenericArg::Type(t2) => t.same(t2),
            _ => false,
        },
        GenericArg::Constraint(i, s) => match b {
            GenericArg::Constraint(i2, s2) => str_eq(i.as_str(), i2.as_str()) && strs_eq(s, s2),
            _ => false,
        },
        GenericArg::AssocType(i, g, t) => match b {
            GenericArg::AssocType(i2, g2, t2) => {
                let generics = match g {
                    Some(x) => match g2 {
                        Some(y) => angle_eq(x, y),
                        None => false,
                    },
                    None => g2.is_none(),
                };
                str_eq(i.as_str(), i2.as_str()) && generics && t.same(t2)
            },
            _ => false,
        },
        GenericArg::Verbatim(s) => match b {
            GenericArg::Verbatim(s2) => str_eq(s.as_str(), s2.as_str()),
            _ => false,
        },
    }
}

} // verus!

//! A plain model of a Rust type as the macros read it, and the type-shape
//! heuristics built on it (trace, location and timestamp detection,
//! auto-boxing).
//!
//! A proc macro cannot resolve types, so every test here is syntactic: it
//! looks at the last path segment, one `Box<..>` layer, a 2-tuple, or a
//! reference. Leaves that the heuristics never look into (lifetimes, bounds,
//! array lengths, attributes) are kept as their token text.

use vstd::prelude::*;

verus! {

/// A type, as written.
pub enum TypeTree {
    /// `a::b::C<..>`, or `<T as Trait>::Assoc` when `qself` is present.
    Path(TypePath),
    /// `[elem; len]`, with `len` as token text.
    Array(Box<TypeTree>, String),
    /// `&'a mut elem`.
    Reference(Option<String>, bool, Box<TypeTree>),
    /// A type in invisible delimiters.
    Group(Box<TypeTree>),
    /// `(elem)`.
    Paren(Box<TypeTree>),
    /// `*const elem` (`false`) or `*mut elem` (`true`).
    Ptr(bool, Box<TypeTree>),
    /// `[elem]`.
    Slice(Box<TypeTree>),
    /// `dyn A + B`, bounds as token text.
    TraitObject(PunctStrs),
    /// `impl A + B`, bounds as token text.
    ImplTrait(PunctStrs),
    /// `fn(..) -> ..`.
    FnPtr(FnPtrType),
    /// `(A, B)`; `trailing` records a trailing comma, as in `(T,)`.
    Tuple(Vec<TypeTree>, bool),
    /// Any other type (`!`, `_`, a macro), as token text.
    Verbatim(String),
}

/// Strings separated by one punctuation kind, with or without a trailing one.
pub struct PunctStrs {
    pub items: Vec<String>,
    pub trailing: bool,
}

pub struct TypePath {
    pub qself: Option<QSelf>,
    pub leading_colon: bool,
    pub segments: Vec<PathSegment>,
}

/// The `<T as Trait>` of a qualified path; `position` counts the segments
/// that belong to the trait.
pub struct QSelf {
    pub ty: Box<TypeTree>,
    pub position: usize,
    pub has_as: bool,
}

pub struct PathSegment {
    pub ident: String,
    pub args: PathArgs,
}

pub enum PathArgs {
    /// No arguments.
    Plain,
    Angle(AngleArgs),
    /// `(A, B) -> C`.
    Paren(Vec<NamedArg>, bool, Option<Box<TypeTree>>),
}

/// `::<A, B>`; `colon2` records the turbofish `::`.
pub struct AngleArgs {
    pub colon2: bool,
    pub args: Vec<GenericArg>,
    pub trailing: bool,
}

pub enum GenericArg {
    Lifetime(String),
    Type(TypeTree),
    /// `Ident: Bound + Bound`.
    Constraint(String, PunctStrs),
    /// `Ident<..> = Type`.
    AssocType(String, Option<AngleArgs>, TypeTree),
    /// A const argument or anything else, as token text.
    Verbatim(String),
}

/// An argument of a function type: attributes (token text), an optional
/// name, the type.
pub struct NamedArg {
    pub attrs: Vec<String>,
    pub name: Option<String>,
    pub ty: TypeTree,
}

pub struct FnPtrType {
    /// `for<'a, 'b>`.
    pub lifetimes: Option<PunctStrs>,
    pub unsafety: bool,
    /// `extern "C"`, as token text.
    pub abi: Option<String>,
    pub inputs: Vec<NamedArg>,
    pub inputs_trailing: bool,
    /// `...`, as token text.
    pub variadic: Option<String>,
    pub output: Option<Box<TypeTree>>,
}

// ─── Shape tests ─────────────────────────────────────────────────────

/// `ty` with `Paren` and `Group` wrappers removed.
pub open spec fn spec_peel(ty: TypeTree) -> TypeTree
    decreases ty,
{
    match ty {
        TypeTree::Paren(inner) => spec_peel(*inner),
        TypeTree::Group(inner) => spec_peel(*inner),
        _ => ty,
    }
}

/// The last segment of a path type (qualified or not).
pub open spec fn last_segment(ty: TypeTree) -> Option<PathSegment> {
    match ty {
        TypeTree::Path(p) => if p.segments@.len() > 0 {
            Some(p.segments@.last())
        } else {
            None
        },
        _ => None,
    }
}

/// Whether `ty` is a path whose last segment is `name`.
pub open spec fn names(ty: TypeTree, name: Seq<char>) -> bool {
    match last_segment(ty) {
        Some(seg) => seg.ident@ == name,
        None => false,
    }
}

/// The first type argument of a segment's angle-bracketed arguments, from
/// index `i` on.
pub open spec fn first_type_arg(args: Seq<GenericArg>, i: int) -> Option<TypeTree>
    decreases args.len() - i,
{
    if 0 <= i < args.len() {
        match args[i] {
            GenericArg::Type(t) => Some(t),
            _ => first_type_arg(args, i + 1),
        }
    } else {
        None
    }
}

/// The generic arguments of `ty` when it is `Box<..>` (by last segment).
pub open spec fn box_args(ty: TypeTree) -> Option<Seq<GenericArg>> {
    match last_segment(ty) {
        Some(seg) => if seg.ident@ == "Box"@ {
            match seg.args {
                PathArgs::Angle(a) => Some(a.args@),
                _ => None,
            }
        } else {
            None
        },
        None => None,
    }
}

/// If `ty` is `Box<T>` (by last segment), the first type argument `T`.
pub open spec fn spec_boxed_inner(ty: TypeTree) -> Option<TypeTree> {
    match box_args(ty) {
        Some(args) => first_type_arg(args, 0),
        None => None,
    }
}

/// Whether `arg` is a type argument naming `name`.
pub open spec fn arg_names(arg: GenericArg, name: Seq<char>) -> bool {
    match arg {
        GenericArg::Type(t) => names(t, name),
        _ => false,
    }
}

/// Whether some type argument of a `Box<..>` names `name`.
pub open spec fn boxed_names(ty: TypeTree, name: Seq<char>) -> bool {
    match box_args(ty) {
        Some(args) => exists|k: int| 0 <= k < args.len() && arg_names(#[trigger] args[k], name),
        None => false,
    }
}

pub open spec fn spec_is_backtrace(ty: TypeTree) -> bool {
    names(ty, "Backtrace"@) || boxed_names(ty, "Backtrace"@)
}

pub open spec fn spec_is_spantrace(ty: TypeTree) -> bool {
    names(ty, "SpanTrace"@) || boxed_names(ty, "SpanTrace"@)
}

/// `(Backtrace, SpanTrace)`, optionally inside one `Box<..>`.
pub open spec fn spec_is_traces(ty: TypeTree) -> bool {
    let inner = match spec_boxed_inner(ty) {
        Some(t) => t,
        None => ty,
    };
    match inner {
        TypeTree::Tuple(elems, _) => elems@.len() == 2 && names(elems@[0], "Backtrace"@) && names(
            elems@[1],
            "SpanTrace"@,
        ),
        _ => false,
    }
}

pub open spec fn spec_is_timestamp(ty: TypeTree) -> bool {
    names(ty, "SystemTime"@) || names(ty, "DateTime"@)
}

/// A reference (under any wrappers) to a type named `Location`.
pub open spec fn spec_is_location(ty: TypeTree) -> bool {
    match spec_peel(ty) {
        TypeTree::Reference(_, _, elem) => names(spec_peel(*elem), "Location"@),
        _ => false,
    }
}

/// Whether two strings hold the same characters.
pub fn str_eq(a: &str, b: &str) -> (r: bool)
    ensures
        r == (a@ == b@),
{
    let va = crate::chars::chars_of(a);
    let vb = crate::chars::chars_of(b);
    crate::chars::chars_eq(&va, &vb)
}

impl TypeTree {
    /// `self` with `Paren` and `Group` wrappers removed.
    pub fn peel_groups(&self) -> (r: &TypeTree)
        ensures
            *r == spec_peel(*self),
        decreases self,
    {
        match self {
            TypeTree::Paren(inner) => inner.peel_groups(),
            TypeTree::Group(inner) => inner.peel_groups(),
            _ => self,
        }
    }

    pub fn last_segment(&self) -> (r: Option<&PathSegment>)
        ensures
            match r {
                Some(seg) => last_segment(*self) == Some(*seg),
                None => last_segment(*self) is None,
            },
    {
        match self {
            TypeTree::Path(p) => {
                let n = p.segments.len();
                if n > 0 {
                    Some(&p.segments[n - 1])
                } else {
                    None
                }
            },
            _ => None,
        }
    }

    /// Whether `self` is a path whose last segment is `name`.
    pub fn is_ident_type(&self, name: &str) -> (r: bool)
        ensures
            r == names(*self, name@),
    {
        match self.last_segment() {
            Some(seg) => str_eq(seg.ident.as_str(), name),
            None => false,
        }
    }

    /// If `self` is `Box<T>`, the inner `T`.
    pub fn extract_boxed_inner(&self) -> (r: Option<&TypeTree>)
        ensures
            match r {
                Some(t) => spec_boxed_inner(*self) == Some(*t),
                None => spec_boxed_inner(*self) is None,
            },
    {
        let seg = match self.last_segment() {
            Some(seg) => seg,
            None => return None,
        };
        if !str_eq(seg.ident.as_str(), "Box") {
            return None;
        }
        match &seg.args {
            PathArgs::Angle(a) => {
                let mut i: usize = 0;
                while i < a.args.len()
                    invariant
                        i <= a.args.len(),
                        last_segment(*self) == Some(*seg),
                        seg.ident@ == "Box"@,
                        box_args(*self) == Some(a.args@),
                        first_type_arg(a.args@, 0) == first_type_arg(a.args@, i as int),
                    decreases a.args.len() - i,
                {
                    if let GenericArg::Type(t) = &a.args[i] {
                        return Some(t);
                    }
                    i = i + 1;
                }
                None
            },
            _ => None,
        }
    }

    /// Whether `self` is `Box<..>` with a type argument named `name`.
    pub fn is_boxed_ident_type(&self, name: &str) -> (r: bool)
        ensures
            r == boxed_names(*self, name@),
    {
        let seg = match self.last_segment() {
            Some(seg) => seg,
            None => return false,
        };
        if !str_eq(seg.ident.as_str(), "Box") {
            return false;
        }
        match &seg.args {
            PathArgs::Angle(a) => {
                let mut i: usize = 0;
                while i < a.args.len()
                    invariant
                        i <= a.args.len(),
                        last_segment(*self) == Some(*seg),
                        seg.ident@ == "Box"@,
                        box_args(*self) == Some(a.args@),
                        forall|k: int| 0 <= k < i ==> !arg_names(#[trigger] a.args@[k], name@),
                    decreases a.args.len() - i,
                {
                    if let GenericArg::Type(t) = &a.args[i] {
                        if t.is_ident_type(name) {
                            let ghost args = box_args(*self)->0;
                            assert(arg_names(args[i as int], name@));
                            return true;
                        }
                    }
                    i = i + 1;
                }
                false
            },
            _ => false,
        }
    }

    /// Last-segment `Backtrace`, bare or boxed.
    pub fn is_backtrace_type(&self) -> (r: bool)
        ensures
            r == spec_is_backtrace(*self),
    {
        self.is_ident_type("Backtrace") || self.is_boxed_ident_type("Backtrace")
    }

    /// Last-segment `SpanTrace`, bare or boxed.
    pub fn is_spantrace_type(&self) -> (r: bool)
        ensures
            r == spec_is_spantrace(*self),
    {
        self.is_ident_type("SpanTrace") || self.is_boxed_ident_type("SpanTrace")
    }

    /// The packed `(Backtrace, SpanTrace)` shape, optionally boxed.
    pub fn is_traces_type(&self) -> (r: bool)
        ensures
            r == spec_is_traces(*self),
    {
        let inner = match self.extract_boxed_inner() {
            Some(t) => t,
            None => self,
        };
        match inner {
            TypeTree::Tuple(elems, _) => elems.len() == 2 && elems[0].is_ident_type("Backtrace")
                && elems[1].is_ident_type("SpanTrace"),
            _ => false,
        }
    }

    /// Last-segment `SystemTime` or `DateTime`.
    pub fn is_timestamp_type(&self) -> (r: bool)
        ensures
            r == spec_is_timestamp(*self),
    {
        self.is_ident_type("SystemTime") || self.is_ident_type("DateTime")
    }

    /// A reference to a last-segment `Location`.
    pub fn is_location_type(&self) -> (r: bool)
        ensures
            r == spec_is_location(*self),
    {
        match self.peel_groups() {
            TypeTree::Reference(_, _, elem) => elem.peel_groups().is_ident_type("Location"),
            _ => false,
        }
    }
}

} // verus!

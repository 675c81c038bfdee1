//! The oopsie diagnostic types a `provide(...)` can supply (error code and
//! help text), and how a provide of one is emitted.

use vstd::prelude::*;
use crate::fields::ProvideAttr;
use crate::types::{TypeTree, last_segment};

verus! {

/// An oopsie diagnostic type that the stable accessors surface.
#[derive(Clone, Copy, Debug, PartialEq, Eq)]
pub enum MetaType {
    ErrorCode,
    HelpText,
}

pub open spec fn spec_meta_ident(m: MetaType) -> Seq<char> {
    match m {
        MetaType::ErrorCode => "ErrorCode"@,
        MetaType::HelpText => "HelpText"@,
    }
}

/// The meta type a type is spelled as, by its last path segment.
pub open spec fn spec_named_by(ty: TypeTree) -> Option<MetaType> {
    match last_segment(ty) {
        Some(seg) => if seg.ident@ == "ErrorCode"@ {
            Some(MetaType::ErrorCode)
        } else if seg.ident@ == "HelpText"@ {
            Some(MetaType::HelpText)
        } else {
            None
        },
        None => None,
    }
}

impl MetaType {
    /// The type's name.
    pub fn ident(self) -> (r: &'static str)
        ensures
            r@ == spec_meta_ident(self),
    {
        match self {
            MetaType::ErrorCode => "ErrorCode",
            MetaType::HelpText => "HelpText",
        }
    }

    /// The meta type whose name `attr`'s type is spelled with; only a
    /// candidate, since a macro cannot resolve types.
    pub fn named_by(attr: &ProvideAttr) -> (r: Option<MetaType>)
        ensures
            r == spec_named_by(attr.provided_type),
    {
        if attr.provided_type.is_ident_type("ErrorCode") {
            Some(MetaType::ErrorCode)
        } else if attr.provided_type.is_ident_type("HelpText") {
            Some(MetaType::HelpText)
        } else {
            None
        }
    }
}

/// A set of meta types.
#[derive(Clone, Copy, Debug, PartialEq, Eq)]
pub struct MetaSet {
    pub code: bool,
    pub help: bool,
}

pub open spec fn spec_contains(s: MetaSet, m: MetaType) -> bool {
    match m {
        MetaType::ErrorCode => s.code,
        MetaType::HelpText => s.help,
    }
}

impl MetaSet {
    pub fn empty() -> (r: Self)
        ensures
            !r.code && !r.help,
    {
        MetaSet { code: false, help: false }
    }

    /// Adds `meta`.
    pub fn mark(&mut self, meta: MetaType)
        ensures
            spec_contains(*final(self), meta),
            forall|m: MetaType| m != meta ==> spec_contains(*final(self), m) == spec_contains(*old(self), m),
    {
        match meta {
            MetaType::ErrorCode => self.code = true,
            MetaType::HelpText => self.help = true,
        }
    }

    pub fn contains(self, meta: MetaType) -> (r: bool)
        ensures
            r == spec_contains(self, meta),
    {
        match meta {
            MetaType::ErrorCode => self.code,
            MetaType::HelpText => self.help,
        }
    }
}

/// How one `provide(...)` is emitted.
#[derive(Clone, Copy, Debug, PartialEq, Eq)]
pub enum ProvideEmit {
    /// A by-value provide.
    Value,
    /// A by-reference provide only.
    Ref,
    /// A by-reference provide of a meta type the layer has its own value
    /// for: only when the type is not oopsie's.
    RefUnlessOwn(MetaType),
    /// A by-reference provide, and by value too when the type is oopsie's.
    RefAndValue(MetaType),
}

/// How `attr` is emitted on a layer whose own values are `own`; a meta type
/// it is spelled as is marked in `probes`, whose probe items the layer then
/// needs.
pub fn provide_emit(attr: &ProvideAttr, own: MetaSet, probes: &mut MetaSet) -> (r: ProvideEmit)
    ensures
        !attr.ref_kw ==> r == ProvideEmit::Value && *final(probes) == *old(probes),
        attr.ref_kw && spec_named_by(attr.provided_type) is None ==> r == ProvideEmit::Ref
            && *final(probes) == *old(probes),
        attr.ref_kw && spec_named_by(attr.provided_type) is Some ==> {
            let m = spec_named_by(attr.provided_type)->0;
            &&& r == (if spec_contains(own, m) {
                ProvideEmit::RefUnlessOwn(m)
            } else {
                ProvideEmit::RefAndValue(m)
            })
            &&& spec_contains(*final(probes), m)
            &&& forall|o: MetaType| o != m ==> spec_contains(*final(probes), o) == spec_contains(*old(probes), o)
        },
{
    if !attr.is_ref() {
        return ProvideEmit::Value;
    }
    let meta = match MetaType::named_by(attr) {
        Some(m) => m,
        None => return ProvideEmit::Ref,
    };
    probes.mark(meta);
    if own.contains(meta) {
        ProvideEmit::RefUnlessOwn(meta)
    } else {
        ProvideEmit::RefAndValue(meta)
    }
}

} // verus!

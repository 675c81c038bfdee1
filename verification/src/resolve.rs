//! Resolution of a `#[derive(Oopsie)]` enum or struct: its fields are
//! categorized, its attributes checked against each other, and its
//! selector names chosen, in phases whose order fixes which error is
//! reported first.

use vstd::prelude::*;
use crate::categorize::{
    CategorizeError, CategorizedFields, Field, FieldName, Fields, SourceField, UserField,
    first_field_error, list_error, categorized_as, source_upto, user_list, picked, Role,
};
use crate::display::{DisplayAttr, DisplayScope, first_misparsed, names_of};
use crate::fields::{ProvideAttr, SourceKind};
use crate::flags::{EnumContainerAttrsInner, MaybeAloneOopsieValue, ModuleSetting, SuffixSetting, suffix_view, spec_effective_suffix};
use crate::naming::{GenIdent, selector_base, selector_name, spec_ident_maybe_raw};
use crate::pretty::{Pretty, render_type};
use crate::types::{TypeTree, last_segment, spec_boxed_inner, str_eq};

verus! {

// ─── Attribute models ────────────────────────────────────────────────

/// An enum variant's `#[oopsie(...)]` keys; `vis` as token text.
pub struct VariantAttrs {
    pub display: Option<DisplayAttr>,
    pub transparent: bool,
    pub help: Option<DisplayAttr>,
    pub code: Option<DisplayAttr>,
    pub exit_code: Option<u8>,
    pub provides: Vec<ProvideAttr>,
    pub vis: Option<String>,
}

/// A struct's `#[oopsie(...)]` keys: the container keys beside the ones a
/// variant would carry; `vis` as token text.
pub struct StructAttrs {
    pub container: EnumContainerAttrsInner<String, String>,
    pub vis: Option<String>,
    pub display: Option<DisplayAttr>,
    pub transparent: bool,
    pub help: Option<DisplayAttr>,
    pub code: Option<DisplayAttr>,
    pub provides: Vec<ProvideAttr>,
}

/// The `help = ...` slot of a variant or struct.
pub trait HasHelp {
    spec fn spec_help(&self) -> Option<DisplayAttr>;

    fn help_attr(&self) -> (r: Option<&DisplayAttr>)
        ensures
            match r {
                Some(h) => self.spec_help() == Some(*h),
                None => self.spec_help() is None,
            },
    ;
}

impl HasHelp for VariantAttrs {
    open spec fn spec_help(&self) -> Option<DisplayAttr> {
        self.help
    }

    fn help_attr(&self) -> (r: Option<&DisplayAttr>) {
        self.help.as_ref()
    }
}

impl HasHelp for StructAttrs {
    open spec fn spec_help(&self) -> Option<DisplayAttr> {
        self.help
    }

    fn help_attr(&self) -> (r: Option<&DisplayAttr>) {
        self.help.as_ref()
    }
}

// ─── Inputs and outputs ──────────────────────────────────────────────

/// A variant as written: name (as the ident prints), fields, the names of
/// its named fields, its parsed keys (or the parse error's text), and
/// whether a `#[cfg]` gates it.
pub struct VariantInput {
    pub ident: String,
    pub fields: Fields,
    pub field_names: Vec<String>,
    pub attrs: Result<VariantAttrs, String>,
    pub has_cfg: bool,
}

pub struct ResolvedVariant {
    pub ident: String,
    pub attrs: VariantAttrs,
    pub fields: CategorizedFields,
    pub has_cfg: bool,
    /// `None` for a `transparent` variant, which generates a `From` impl
    /// rather than a named selector.
    pub selector_ident: Option<GenIdent>,
}

pub struct ResolvedEnum {
    pub variants: Vec<ResolvedVariant>,
    /// Some variant is `#[cfg]`-gated, so generated matches need a
    /// wildcard arm.
    pub any_variant_cfg: bool,
}

pub struct ResolvedStruct {
    pub fields: CategorizedFields,
}

/// Why an item cannot be resolved; indices name the variant (and field)
/// the diagnostic points at (0 for a struct).
#[derive(Debug, Clone, PartialEq, Eq)]
pub enum ResolveError {
    Categorize(usize, CategorizeError),
    CfgOnSource(usize),
    Attrs(usize, String),
    TransparentVis(usize),
    TransparentSuffix,
    TransparentModule,
    TransparentNoSource(usize),
    TransparentForward(usize),
    TransparentBoxedSelf(usize),
    TransparentUserField(usize, usize),
    /// Two unconditional transparent variants over the same source type:
    /// the first, the second.
    TransparentCollision(usize, usize),
    SelectorReserved(usize),
    SelectorMatchesEnum(usize),
    SelectorMatchesStruct,
    /// Two unconditional variants with the same selector: the first, the
    /// second.
    SelectorCollision(usize, usize),
    /// A display argument that is a misplaced keyword, and the keyword.
    DisplayKeyword(usize, String),
    HelpConflict(usize),
}

// ─── What the fields say ─────────────────────────────────────────────

pub open spec fn cat_error(f: Fields) -> Option<CategorizeError> {
    match f {
        Fields::Unit => None,
        Fields::Unnamed => Some(CategorizeError::TupleFields),
        Fields::Named(fs) => match first_field_error(fs@, 0) {
            Some(e) => Some(e),
            None => list_error(fs@),
        },
    }
}

pub open spec fn cat_ok(f: Fields, c: CategorizedFields) -> bool {
    match f {
        Fields::Unit => categorized_as(c, Seq::empty()),
        Fields::Unnamed => false,
        Fields::Named(fs) => categorized_as(c, fs@),
    }
}

pub open spec fn fields_seq(f: Fields) -> Seq<Field> {
    match f {
        Fields::Named(fs) => fs@,
        _ => Seq::empty(),
    }
}

pub open spec fn fields_source(f: Fields) -> Option<SourceField> {
    source_upto(fields_seq(f), fields_seq(f).len() as int)
}

pub open spec fn fields_users(f: Fields) -> Seq<UserField> {
    user_list(fields_seq(f), fields_seq(f).len() as int)
}

pub open spec fn fields_help(f: Fields) -> Option<FieldName> {
    picked(fields_seq(f), Role::Help)
}

/// Whether `ty`'s last path segment is `Self` or `self_ident`.
pub open spec fn spec_type_is_self(ty: TypeTree, self_ident: Seq<char>) -> bool {
    match last_segment(ty) {
        Some(seg) => seg.ident@ == "Self"@ || seg.ident@ == self_ident,
        None => false,
    }
}

/// The type a transparent item's `From` impl is for.
pub open spec fn spec_transparent_ty(s: SourceField) -> TypeTree {
    match s.kind {
        SourceKind::Transformed(t, _) => t,
        SourceKind::AutoBoxed => match spec_boxed_inner(s.ty) {
            Some(t) => t,
            None => s.ty,
        },
        _ => s.ty,
    }
}

/// What a transparent item is refused for, on the rules a variant and a
/// struct share (after `vis`, and for a struct `suffix` and `module`),
/// given its source and user fields.
pub open spec fn transparent_fields_error(
    k: int,
    self_ident: Seq<char>,
    source: Option<SourceField>,
    users: Seq<UserField>,
) -> Option<ResolveError> {
    let kk = k as usize;
    match source {
        None => Some(ResolveError::TransparentNoSource(kk)),
        Some(s) => if s.forward.backtrace || s.forward.spantrace || s.forward.location {
            Some(ResolveError::TransparentForward(kk))
        } else if s.kind is AutoBoxed && spec_type_is_self(spec_transparent_ty(s), self_ident) {
            Some(ResolveError::TransparentBoxedSelf(kk))
        } else if users.len() > 0 {
            Some(ResolveError::TransparentUserField(kk, users[0].index))
        } else {
            None
        },
    }
}

/// The text of a generated identifier from its name and rawness.
pub open spec fn gen_text(name: Seq<char>, raw: bool) -> Seq<char> {
    if raw {
        "r#"@ + name
    } else {
        name
    }
}

// ─── Phases of an enum ───────────────────────────────────────────────

/// Phase 1: the first variant from `i` whose fields cannot be categorized.
pub open spec fn phase1_error(vs: Seq<VariantInput>, i: int) -> Option<ResolveError>
    decreases vs.len() - i,
{
    if 0 <= i < vs.len() {
        match cat_error(vs[i].fields) {
            Some(e) => Some(ResolveError::Categorize(i as usize, e)),
            None => phase1_error(vs, i + 1),
        }
    } else {
        None
    }
}

/// Phase 1, second sweep: the first variant from `i` with a `#[cfg]` on its
/// source field.
pub open spec fn cfg_source_error(vs: Seq<VariantInput>, i: int) -> Option<ResolveError>
    decreases vs.len() - i,
{
    if 0 <= i < vs.len() {
        if fields_source(vs[i].fields) matches Some(s) && s.has_cfg {
            Some(ResolveError::CfgOnSource(i as usize))
        } else {
            cfg_source_error(vs, i + 1)
        }
    } else {
        None
    }
}

/// The selector text of non-transparent variant `v` under `suffix`, when
/// it has one.
pub open spec fn selector_text(v: VariantInput, suffix: Option<Seq<char>>) -> Option<Seq<char>> {
    let name = selector_base(v.ident@, suffix);
    match spec_ident_maybe_raw(name) {
        Some(raw) => Some(gen_text(name, raw)),
        None => None,
    }
}

/// The source-type text of transparent variant `v`.
pub open spec fn transparent_key(v: VariantInput) -> Option<Seq<char>> {
    match fields_source(v.fields) {
        Some(s) => Some(render_type(spec_transparent_ty(s))),
        None => None,
    }
}

pub open spec fn is_transparent(v: VariantInput) -> bool {
    v.attrs matches Ok(a) && a.transparent
}

/// The first unconditional transparent variant before `k` over source
/// type text `key`.
pub open spec fn first_key_before(vs: Seq<VariantInput>, k: int, key: Seq<char>) -> Option<int>
    decreases k,
{
    if k <= 0 {
        None
    } else {
        match first_key_before(vs, k - 1, key) {
            Some(j) => Some(j),
            None => if is_transparent(vs[k - 1]) && !vs[k - 1].has_cfg && transparent_key(
                vs[k - 1],
            ) == Some(key) {
                Some(k - 1)
            } else {
                None
            },
        }
    }
}

/// The first unconditional selector-bearing variant before `k` whose
/// selector prints as `text`.
pub open spec fn first_selector_before(
    vs: Seq<VariantInput>,
    k: int,
    suffix: Option<Seq<char>>,
    text: Seq<char>,
) -> Option<int>
    decreases k,
{
    if k <= 0 {
        None
    } else {
        match first_selector_before(vs, k - 1, suffix, text) {
            Some(j) => Some(j),
            None => if vs[k - 1].attrs is Ok && !is_transparent(vs[k - 1]) && !vs[k - 1].has_cfg
                && selector_text(vs[k - 1], suffix) == Some(text) {
                Some(k - 1)
            } else {
                None
            },
        }
    }
}

/// Phase 2 on variant `k`, the variants before it having passed.
pub open spec fn variant_error(
    vs: Seq<VariantInput>,
    k: int,
    suffix: Option<Seq<char>>,
    enum_ident: Seq<char>,
) -> Option<ResolveError> {
    let v = vs[k];
    let kk = k as usize;
    match v.attrs {
        Err(m) => Some(ResolveError::Attrs(kk, m)),
        Ok(a) => if a.transparent {
            if a.vis is Some {
                Some(ResolveError::TransparentVis(kk))
            } else {
                match transparent_fields_error(k, enum_ident, fields_source(v.fields), fields_users(v.fields)) {
                    Some(e) => Some(e),
                    None => if !v.has_cfg && transparent_key(v) is Some {
                        match first_key_before(vs, k, transparent_key(v)->0) {
                            Some(j) => Some(ResolveError::TransparentCollision(j as usize, kk)),
                            None => None,
                        }
                    } else {
                        None
                    },
                }
            }
        } else {
            match selector_text(v, suffix) {
                None => Some(ResolveError::SelectorReserved(kk)),
                Some(text) => if !v.has_cfg {
                    if text == enum_ident {
                        Some(ResolveError::SelectorMatchesEnum(kk))
                    } else {
                        match first_selector_before(vs, k, suffix, text) {
                            Some(j) => Some(ResolveError::SelectorCollision(j as usize, kk)),
                            None => None,
                        }
                    }
                } else {
                    None
                },
            }
        },
    }
}

/// Phase 2: the first variant from `i` refused by [`variant_error`].
pub open spec fn phase2_error(
    vs: Seq<VariantInput>,
    i: int,
    suffix: Option<Seq<char>>,
    enum_ident: Seq<char>,
) -> Option<ResolveError>
    decreases vs.len() - i,
{
    if 0 <= i < vs.len() {
        match variant_error(vs, i, suffix, enum_ident) {
            Some(e) => Some(e),
            None => phase2_error(vs, i + 1, suffix, enum_ident),
        }
    } else {
        None
    }
}

/// The misplaced keyword among `d`'s arguments, if any.
pub open spec fn misplaced_keyword(
    d: Option<DisplayAttr>,
    field_names: Seq<String>,
    scope: DisplayScope,
) -> Option<String> {
    match d {
        Some(d) => match first_misparsed(d.args@, names_of(field_names), scope, 0) {
            Some(j) => d.args@[j].bare_ident,
            None => None,
        },
        None => None,
    }
}

/// Phase 3: the first variant from `i` whose display swallowed a keyword.
pub open spec fn phase3_error(vs: Seq<VariantInput>, i: int) -> Option<ResolveError>
    decreases vs.len() - i,
{
    if 0 <= i < vs.len() {
        match misplaced_keyword(vs[i].attrs->Ok_0.display, vs[i].field_names@, DisplayScope::Variant) {
            Some(kw) => Some(ResolveError::DisplayKeyword(i as usize, kw)),
            None => phase3_error(vs, i + 1),
        }
    } else {
        None
    }
}

/// Phase 4: the first variant from `i` with both a help field and a
/// `help = ...` key.
pub open spec fn phase4_error(vs: Seq<VariantInput>, i: int) -> Option<ResolveError>
    decreases vs.len() - i,
{
    if 0 <= i < vs.len() {
        if fields_help(vs[i].fields) is Some && vs[i].attrs->Ok_0.help is Some {
            Some(ResolveError::HelpConflict(i as usize))
        } else {
            phase4_error(vs, i + 1)
        }
    } else {
        None
    }
}

/// `a`, or `b` when `a` is `None`.
pub open spec fn either(a: Option<ResolveError>, b: Option<ResolveError>) -> Option<ResolveError> {
    match a {
        Some(e) => Some(e),
        None => b,
    }
}

/// The first error of resolving enum `enum_ident` with variants `vs`.
pub open spec fn enum_error(
    vs: Seq<VariantInput>,
    suffix: Option<Seq<char>>,
    enum_ident: Seq<char>,
) -> Option<ResolveError> {
    either(
        phase1_error(vs, 0),
        either(
            cfg_source_error(vs, 0),
            either(
                phase2_error(vs, 0, suffix, enum_ident),
                either(phase3_error(vs, 0), phase4_error(vs, 0)),
            ),
        ),
    )
}

/// `rv` is variant `v` resolved under `suffix`.
pub open spec fn resolved_as(rv: ResolvedVariant, v: VariantInput, suffix: Option<Seq<char>>) -> bool {
    &&& rv.ident == v.ident
    &&& v.attrs == Ok::<VariantAttrs, String>(rv.attrs)
    &&& cat_ok(v.fields, rv.fields)
    &&& rv.has_cfg == v.has_cfg
    &&& if rv.attrs.transparent {
        rv.selector_ident is None
    } else {
        rv.selector_ident matches Some(id) && id.name@ == selector_base(v.ident@, suffix)
            && Some(gen_text(id.name@, id.raw)) == selector_text(v, suffix)
    }
}

pub open spec fn enum_resolved(
    r: Result<ResolvedEnum, ResolveError>,
    vs: Seq<VariantInput>,
    suffix: Option<Seq<char>>,
) -> bool {
    match r {
        Ok(re) => {
            &&& re.variants@.len() == vs.len()
            &&& forall|k: int| 0 <= k < vs.len() ==> resolved_as(#[trigger] re.variants@[k], vs[k], suffix)
            &&& re.any_variant_cfg == exists|k: int| 0 <= k < vs.len() && #[trigger] vs[k].has_cfg
        },
        Err(_) => false,
    }
}

/// What a categorization says of the source, user and help fields.
pub proof fn lemma_cat_ok_parts(f: Fields, c: CategorizedFields)
    requires
        cat_ok(f, c),
    ensures
        c.source == fields_source(f),
        c.user_fields@ == fields_users(f),
        c.help_field == fields_help(f),
{
}

/// Once a first match is found, longer prefixes keep it.
proof fn lemma_first_key_stable(vs: Seq<VariantInput>, j: int, m: int, key: Seq<char>)
    requires
        0 <= j < m,
        first_key_before(vs, j + 1, key) == Some(j),
    ensures
        first_key_before(vs, m, key) == Some(j),
    decreases m - j,
{
    if m > j + 1 {
        lemma_first_key_stable(vs, j, m - 1, key);
    }
}

proof fn lemma_first_selector_stable(
    vs: Seq<VariantInput>,
    j: int,
    m: int,
    suffix: Option<Seq<char>>,
    text: Seq<char>,
)
    requires
        0 <= j < m,
        first_selector_before(vs, j + 1, suffix, text) == Some(j),
    ensures
        first_selector_before(vs, m, suffix, text) == Some(j),
    decreases m - j,
{
    if m > j + 1 {
        lemma_first_selector_stable(vs, j, m - 1, suffix, text);
    }
}

/// A categorization succeeds exactly when there is no categorize error.
proof fn lemma_unit_categorizes()
    ensures
        list_error(Seq::<Field>::empty()) is None,
        first_field_error(Seq::<Field>::empty(), 0) is None,
{
}

// ─── Resolving ───────────────────────────────────────────────────────

/// Whether `ty`'s last path segment is `Self` or `self_ident`.
pub fn type_is_self(ty: &TypeTree, self_ident: &str) -> (r: bool)
    ensures
        r == spec_type_is_self(*ty, self_ident@),
{
    match ty.last_segment() {
        Some(seg) => str_eq(seg.ident.as_str(), "Self") || str_eq(seg.ident.as_str(), self_ident),
        None => false,
    }
}

/// The type a transparent item's `From` impl is for: the declared source
/// type of `from(Type, transform)`, the boxed type of an auto-boxed
/// source, the field's own type otherwise.
pub fn transparent_source_ty(s: &SourceField) -> (r: &TypeTree)
    ensures
        *r == spec_transparent_ty(*s),
{
    match &s.kind {
        SourceKind::Transformed(t, _) => t,
        SourceKind::AutoBoxed => match s.ty.extract_boxed_inner() {
            Some(t) => t,
            None => &s.ty,
        },
        _ => &s.ty,
    }
}

/// The shared transparent checks on a categorized field list.
fn check_transparent_fields(k: usize, self_ident: &str, c: &CategorizedFields) -> (r: Option<
    ResolveError,
>)
    ensures
        r == transparent_fields_error(k as int, self_ident@, c.source, c.user_fields@),
{
    match &c.source {
        None => Some(ResolveError::TransparentNoSource(k)),
        Some(s) => {
            if s.forward.backtrace || s.forward.spantrace || s.forward.location {
                Some(ResolveError::TransparentForward(k))
            } else if matches!(s.kind, SourceKind::AutoBoxed) && type_is_self(
                transparent_source_ty(s),
                self_ident,
            ) {
                Some(ResolveError::TransparentBoxedSelf(k))
            } else if c.user_fields.len() > 0 {
                Some(ResolveError::TransparentUserField(k, c.user_fields[0].index))
            } else {
                None
            }
        },
    }
}

/// A variant after phase 1: its fields categorized.
struct Staged {
    ident: String,
    field_names: Vec<String>,
    attrs: Result<VariantAttrs, String>,
    has_cfg: bool,
    cat: CategorizedFields,
}

spec fn staged_as(st: Staged, v: VariantInput) -> bool {
    &&& st.ident == v.ident
    &&& st.field_names == v.field_names
    &&& st.attrs == v.attrs
    &&& st.has_cfg == v.has_cfg
    &&& cat_ok(v.fields, st.cat)
}

impl ResolvedEnum {
    /// Resolves enum `enum_ident` under its container keys, phase by phase,
    /// each sweeping every variant before the next begins: field
    /// categorization, then the source-`cfg` rule, then attribute checks
    /// with transparent and selector resolution (collisions among
    /// unconditional variants), then misplaced display keywords, then the
    /// help conflict. The first error found is the one reported.
    pub fn resolve(
        enum_ident: &str,
        container: &EnumContainerAttrsInner<String, String>,
        variants: Vec<VariantInput>,
    ) -> (r: Result<ResolvedEnum, ResolveError>)
        ensures
            ({
                let suffix = spec_effective_suffix(container.suffix, true);
                match enum_error(variants@, suffix, enum_ident@) {
                    Some(e) => r == Err::<ResolvedEnum, ResolveError>(e),
                    None => enum_resolved(r, variants@, suffix),
                }
            }),
    {
        let ghost vs = variants@;
        let ghost suffix = spec_effective_suffix(container.suffix, true);
        let n = variants.len();
        // Phase 1: categorize every variant's fields.
        let mut rest = variants;
        let mut staged: Vec<Staged> = Vec::new();
        let mut i: usize = 0;
        while i < n
            invariant
                vs == variants@,
                suffix == spec_effective_suffix(container.suffix, true),
                n == vs.len(),
                i <= n,
                rest@ == vs.subrange(i as int, n as int),
                staged@.len() == i,
                phase1_error(vs, 0) == phase1_error(vs, i as int),
                forall|j: int| 0 <= j < i ==> staged_as(#[trigger] staged@[j], vs[j]),
            decreases n - i,
        {
            let v = rest.remove(0);
            assert(v == vs[i as int]);
            let VariantInput { ident, fields, field_names, attrs, has_cfg } = v;
            proof {
                lemma_unit_categorizes();
            }
            let cat = match CategorizedFields::from_fields(fields) {
                Ok(c) => c,
                Err(e) => return Err(ResolveError::Categorize(i, e)),
            };
            staged.push(Staged { ident, field_names, attrs, has_cfg, cat });
            i = i + 1;
            assert(rest@ =~= vs.subrange(i as int, n as int));
        }
        // Phase 1, second sweep: no cfg on a source field.
        let mut i: usize = 0;
        while i < n
            invariant
                vs == variants@,
                suffix == spec_effective_suffix(container.suffix, true),
                n == vs.len(),
                i <= n,
                staged@.len() == n,
                phase1_error(vs, 0) is None,
                cfg_source_error(vs, 0) == cfg_source_error(vs, i as int),
                forall|j: int| 0 <= j < n ==> staged_as(#[trigger] staged@[j], vs[j]),
            decreases n - i,
        {
            proof {
                lemma_cat_ok_parts(vs[i as int].fields, staged@[i as int].cat);
            }
            if let Some(s) = &staged[i].cat.source {
                if s.has_cfg {
                    return Err(ResolveError::CfgOnSource(i));
                }
            }
            i = i + 1;
        }
        // Phase 2: attributes, transparent shapes, selector names.
        let sfx = container.effective_suffix(true);
        let mut rest = staged;
        let ghost staged_all = rest@;
        let mut resolved: Vec<ResolvedVariant> = Vec::new();
        let mut names: Vec<Vec<String>> = Vec::new();
        let mut k: usize = 0;
        while k < n
            invariant
                vs == variants@,
                suffix == spec_effective_suffix(container.suffix, true),
                n == vs.len(),
                k <= n,
                suffix_view(sfx) == suffix,
                staged_all.len() == n,
                rest@ == staged_all.subrange(k as int, n as int),
                forall|j: int| 0 <= j < n ==> staged_as(#[trigger] staged_all[j], vs[j]),
                phase1_error(vs, 0) is None,
                cfg_source_error(vs, 0) is None,
                phase2_error(vs, 0, suffix, enum_ident@) == phase2_error(vs, k as int, suffix, enum_ident@),
                resolved@.len() == k,
                names@.len() == k,
                forall|j: int| 0 <= j < k ==> resolved_as(#[trigger] resolved@[j], vs[j], suffix),
                forall|j: int| 0 <= j < k ==> #[trigger] names@[j] == vs[j].field_names,
            decreases n - k,
        {
            let st = rest.remove(0);
            assert(st == staged_all[k as int]);
            let Staged { ident, field_names, attrs, has_cfg, cat } = st;
            proof {
                lemma_cat_ok_parts(vs[k as int].fields, cat);
            }
            let attrs = match attrs {
                Ok(a) => a,
                Err(m) => return Err(ResolveError::Attrs(k, m)),
            };
            let selector_ident = if attrs.transparent {
                if attrs.vis.is_some() {
                    return Err(ResolveError::TransparentVis(k));
                }
                if let Some(e) = check_transparent_fields(k, enum_ident, &cat) {
                    return Err(e);
                }
                if !has_cfg {
                    let source = cat.source.as_ref().unwrap();
                    let key = transparent_source_ty(source).pretty();
                    let mut j: usize = 0;
                    while j < k
                        invariant
                            vs == variants@,
                            suffix == spec_effective_suffix(container.suffix, true),
                            j <= k < n == vs.len(),
                            resolved@.len() == k,
                            phase1_error(vs, 0) is None,
                            cfg_source_error(vs, 0) is None,
                            phase2_error(vs, 0, suffix, enum_ident@) == phase2_error(vs, k as int, suffix, enum_ident@),
                            vs[k as int].attrs == Ok::<VariantAttrs, String>(attrs),
                            attrs.transparent,
                            attrs.vis is None,
                            !has_cfg,
                            vs[k as int].has_cfg == has_cfg,
                            transparent_fields_error(k as int, enum_ident@, fields_source(vs[k as int].fields), fields_users(vs[k as int].fields)) is None,
                            Some(key@) == transparent_key(vs[k as int]),
                            first_key_before(vs, j as int, key@) is None,
                            forall|q: int| 0 <= q < k ==> resolved_as(#[trigger] resolved@[q], vs[q], suffix),
                        decreases k - j,
                    {
                        let rv = &resolved[j];
                        proof {
                            lemma_cat_ok_parts(vs[j as int].fields, rv.fields);
                        }
                        if rv.attrs.transparent && !rv.has_cfg {
                            if let Some(s2) = &rv.fields.source {
                                let key2 = transparent_source_ty(s2).pretty();
                                if str_eq(key.as_str(), key2.as_str()) {
                                    proof {
                                        lemma_first_key_stable(vs, j as int, k as int, key@);
                                    }
                                    return Err(ResolveError::TransparentCollision(j, k));
                                }
                            }
                        }
                        j = j + 1;
                    }
                }
                None
            } else {
                let id = match selector_name(ident.as_str(), &sfx) {
                    Ok(id) => id,
                    Err(_) => return Err(ResolveError::SelectorReserved(k)),
                };
                if !has_cfg {
                    let text = id.text();
                    if str_eq(text.as_str(), enum_ident) {
                        return Err(ResolveError::SelectorMatchesEnum(k));
                    }
                    let mut j: usize = 0;
                    while j < k
                        invariant
                            vs == variants@,
                            suffix == spec_effective_suffix(container.suffix, true),
                            j <= k < n == vs.len(),
                            resolved@.len() == k,
                            phase1_error(vs, 0) is None,
                            cfg_source_error(vs, 0) is None,
                            phase2_error(vs, 0, suffix, enum_ident@) == phase2_error(vs, k as int, suffix, enum_ident@),
                            vs[k as int].attrs == Ok::<VariantAttrs, String>(attrs),
                            !attrs.transparent,
                            !has_cfg,
                            vs[k as int].has_cfg == has_cfg,
                            selector_text(vs[k as int], suffix) == Some(text@),
                            text@ != enum_ident@,
                            text@ == gen_text(id.name@, id.raw),
                            first_selector_before(vs, j as int, suffix, text@) is None,
                            forall|q: int| 0 <= q < k ==> resolved_as(#[trigger] resolved@[q], vs[q], suffix),
                        decreases k - j,
                    {
                        let rv = &resolved[j];
                        if !rv.has_cfg {
                            if let Some(id2) = &rv.selector_ident {
                                let text2 = id2.text();
                                if str_eq(text.as_str(), text2.as_str()) {
                                    proof {
                                        lemma_first_selector_stable(vs, j as int, k as int, suffix, text@);
                                    }
                                    return Err(ResolveError::SelectorCollision(j, k));
                                }
                            }
                        }
                        j = j + 1;
                    }
                }
                Some(id)
            };
            resolved.push(ResolvedVariant { ident, attrs, fields: cat, has_cfg, selector_ident });
            names.push(field_names);
            k = k + 1;
            assert(rest@ =~= staged_all.subrange(k as int, n as int));
        }
        // Phase 3: display keyword arguments.
        let mut k: usize = 0;
        while k < n
            invariant
                vs == variants@,
                suffix == spec_effective_suffix(container.suffix, true),
                n == vs.len(),
                k <= n,
                resolved@.len() == n,
                names@.len() == n,
                phase1_error(vs, 0) is None,
                cfg_source_error(vs, 0) is None,
                phase2_error(vs, 0, suffix, enum_ident@) is None,
                phase3_error(vs, 0) == phase3_error(vs, k as int),
                forall|j: int| 0 <= j < n ==> resolved_as(#[trigger] resolved@[j], vs[j], suffix),
                forall|j: int| 0 <= j < n ==> #[trigger] names@[j] == vs[j].field_names,
            decreases n - k,
        {
            if let Some(d) = &resolved[k].attrs.display {
                if let Err(kw) = d.reject_keyword_args(&names[k], DisplayScope::Variant) {
                    return Err(ResolveError::DisplayKeyword(k, kw));
                }
            }
            k = k + 1;
        }
        // Phase 4: help conflicts.
        let mut k: usize = 0;
        let mut any_cfg = false;
        while k < n
            invariant
                vs == variants@,
                suffix == spec_effective_suffix(container.suffix, true),
                n == vs.len(),
                k <= n,
                resolved@.len() == n,
                phase1_error(vs, 0) is None,
                cfg_source_error(vs, 0) is None,
                phase2_error(vs, 0, suffix, enum_ident@) is None,
                phase3_error(vs, 0) is None,
                phase4_error(vs, 0) == phase4_error(vs, k as int),
                forall|j: int| 0 <= j < n ==> resolved_as(#[trigger] resolved@[j], vs[j], suffix),
                any_cfg == exists|j: int| 0 <= j < k && #[trigger] vs[j].has_cfg,
            decreases n - k,
        {
            proof {
                lemma_cat_ok_parts(vs[k as int].fields, resolved@[k as int].fields);
            }
            if resolved[k].fields.help_field.is_some() && resolved[k].attrs.help.is_some() {
                return Err(ResolveError::HelpConflict(k));
            }
            any_cfg = any_cfg || resolved[k].has_cfg;
            k = k + 1;
        }
        Ok(ResolvedEnum { variants: resolved, any_variant_cfg: any_cfg })
    }
}

// ─── What a successful resolution guarantees ─────────────────────────

proof fn lemma_phase2_each(vs: Seq<VariantInput>, i: int, suffix: Option<Seq<char>>, enum_ident: Seq<char>, k: int)
    requires
        0 <= i <= k < vs.len(),
        phase2_error(vs, i, suffix, enum_ident) is None,
    ensures
        variant_error(vs, k, suffix, enum_ident) is None,
    decreases k - i,
{
    if i < k {
        lemma_phase2_each(vs, i + 1, suffix, enum_ident, k);
    }
}

proof fn lemma_no_selector_before(vs: Seq<VariantInput>, k: int, suffix: Option<Seq<char>>, text: Seq<char>, j: int)
    requires
        0 <= j < k <= vs.len(),
        first_selector_before(vs, k, suffix, text) is None,
    ensures
        !(vs[j].attrs is Ok && !is_transparent(vs[j]) && !vs[j].has_cfg && selector_text(vs[j], suffix) == Some(text)),
    decreases k - j,
{
    if j < k - 1 {
        lemma_no_selector_before(vs, k - 1, suffix, text, j);
    }
}

/// When an enum resolves, its unconditional selector-bearing variants have
/// selectors that differ from each other and from the enum's own name.
pub proof fn lemma_resolved_selectors_distinct(
    vs: Seq<VariantInput>,
    suffix: Option<Seq<char>>,
    enum_ident: Seq<char>,
    j: int,
    k: int,
)
    requires
        enum_error(vs, suffix, enum_ident) is None,
        0 <= j < k < vs.len(),
        vs[j].attrs is Ok && !is_transparent(vs[j]) && !vs[j].has_cfg,
        vs[k].attrs is Ok && !is_transparent(vs[k]) && !vs[k].has_cfg,
    ensures
        selector_text(vs[j], suffix) is Some,
        selector_text(vs[k], suffix) is Some,
        selector_text(vs[j], suffix) != selector_text(vs[k], suffix),
        selector_text(vs[k], suffix) != Some(enum_ident),
        selector_text(vs[j], suffix) != Some(enum_ident),
{
    lemma_phase2_each(vs, 0, suffix, enum_ident, j);
    lemma_phase2_each(vs, 0, suffix, enum_ident, k);
    let text = selector_text(vs[k], suffix)->0;
    lemma_no_selector_before(vs, k, suffix, text, j);
}

/// When an enum resolves, no two unconditional transparent variants are
/// over the same source type.
pub proof fn lemma_resolved_transparent_sources_distinct(
    vs: Seq<VariantInput>,
    suffix: Option<Seq<char>>,
    enum_ident: Seq<char>,
    j: int,
    k: int,
)
    requires
        enum_error(vs, suffix, enum_ident) is None,
        0 <= j < k < vs.len(),
        is_transparent(vs[j]) && !vs[j].has_cfg,
        is_transparent(vs[k]) && !vs[k].has_cfg,
    ensures
        transparent_key(vs[j]) is Some,
        transparent_key(vs[k]) is Some,
        transparent_key(vs[j]) != transparent_key(vs[k]),
{
    lemma_phase2_each(vs, 0, suffix, enum_ident, j);
    lemma_phase2_each(vs, 0, suffix, enum_ident, k);
    let key = transparent_key(vs[k])->0;
    lemma_no_key_before(vs, k, key, j);
}

proof fn lemma_no_key_before(vs: Seq<VariantInput>, k: int, key: Seq<char>, j: int)
    requires
        0 <= j < k <= vs.len(),
        first_key_before(vs, k, key) is None,
    ensures
        !(is_transparent(vs[j]) && !vs[j].has_cfg && transparent_key(vs[j]) == Some(key)),
    decreases k - j,
{
    if j < k - 1 {
        lemma_no_key_before(vs, k - 1, key, j);
    }
}

// ─── A struct ────────────────────────────────────────────────────────

/// Whether a struct's `module` key wraps its selector in a module.
pub open spec fn struct_module_on(m: Option<MaybeAloneOopsieValue<String>>) -> bool {
    match m {
        None => false,
        Some(MaybeAloneOopsieValue::Bool(b)) => b,
        Some(_) => true,
    }
}

/// The attribute and selector checks of struct `ident`.
pub open spec fn struct_selector_error(
    ident: Seq<char>,
    f: Fields,
    attrs: StructAttrs,
) -> Option<ResolveError> {
    if attrs.transparent {
        if attrs.vis is Some {
            Some(ResolveError::TransparentVis(0))
        } else if attrs.container.suffix is Some {
            Some(ResolveError::TransparentSuffix)
        } else if attrs.container.module is Some && struct_module_on(attrs.container.module) {
            Some(ResolveError::TransparentModule)
        } else {
            transparent_fields_error(0, ident, fields_source(f), fields_users(f))
        }
    } else {
        let name = selector_base(ident, spec_effective_suffix(attrs.container.suffix, false));
        match spec_ident_maybe_raw(name) {
            None => Some(ResolveError::SelectorReserved(0)),
            Some(raw) => if gen_text(name, raw) == ident && !struct_module_on(
                attrs.container.module,
            ) {
                Some(ResolveError::SelectorMatchesStruct)
            } else {
                None
            },
        }
    }
}

/// The first error of resolving struct `ident`.
pub open spec fn struct_error(
    ident: Seq<char>,
    f: Fields,
    field_names: Seq<String>,
    attrs: StructAttrs,
) -> Option<ResolveError> {
    match cat_error(f) {
        Some(e) => Some(ResolveError::Categorize(0, e)),
        None => if fields_source(f) matches Some(s) && s.has_cfg {
            Some(ResolveError::CfgOnSource(0))
        } else {
            either(
                struct_selector_error(ident, f, attrs),
                either(
                    match misplaced_keyword(attrs.display, field_names, DisplayScope::Struct) {
                        Some(kw) => Some(ResolveError::DisplayKeyword(0, kw)),
                        None => None,
                    },
                    if fields_help(f) is Some && attrs.help is Some {
                        Some(ResolveError::HelpConflict(0))
                    } else {
                        None
                    },
                ),
            )
        },
    }
}

impl ResolvedStruct {
    /// Resolves struct `ident`: field categorization and the source-`cfg`
    /// rule, then transparent or selector-name checks, then misplaced
    /// display keywords, then the help conflict.
    pub fn resolve(
        ident: &str,
        fields: Fields,
        field_names: &Vec<String>,
        attrs: &StructAttrs,
    ) -> (r: Result<ResolvedStruct, ResolveError>)
        ensures
            match struct_error(ident@, fields, field_names@, *attrs) {
                Some(e) => r == Err::<ResolvedStruct, ResolveError>(e),
                None => r matches Ok(rs) && cat_ok(fields, rs.fields),
            },
    {
        let ghost f = fields;
        proof {
            lemma_unit_categorizes();
        }
        let cat = match CategorizedFields::from_fields(fields) {
            Ok(c) => c,
            Err(e) => return Err(ResolveError::Categorize(0, e)),
        };
        proof {
            lemma_cat_ok_parts(f, cat);
        }
        if let Some(s) = &cat.source {
            if s.has_cfg {
                return Err(ResolveError::CfgOnSource(0));
            }
        }
        let module_on = match &attrs.container.module {
            None => false,
            Some(MaybeAloneOopsieValue::Bool(b)) => *b,
            Some(_) => true,
        };
        if attrs.transparent {
            if attrs.vis.is_some() {
                return Err(ResolveError::TransparentVis(0));
            }
            if attrs.container.suffix.is_some() {
                return Err(ResolveError::TransparentSuffix);
            }
            if attrs.container.module.is_some() && module_on {
                return Err(ResolveError::TransparentModule);
            }
            if let Some(e) = check_transparent_fields(0, ident, &cat) {
                return Err(e);
            }
        } else {
            let sfx = attrs.container.effective_suffix(false);
            let id = match selector_name(ident, &sfx) {
                Ok(id) => id,
                Err(_) => return Err(ResolveError::SelectorReserved(0)),
            };
            let text = id.text();
            if str_eq(text.as_str(), ident) && !module_on {
                return Err(ResolveError::SelectorMatchesStruct);
            }
        }
        if let Some(d) = &attrs.display {
            if let Err(kw) = d.reject_keyword_args(field_names, DisplayScope::Struct) {
                return Err(ResolveError::DisplayKeyword(0, kw));
            }
        }
        if cat.help_field.is_some() && attrs.help.is_some() {
            return Err(ResolveError::HelpConflict(0));
        }
        Ok(ResolvedStruct { fields: cat })
    }
}

} // verus!

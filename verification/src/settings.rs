//! Project-wide defaults from `[package.metadata.oopsie]` and
//! `[workspace.metadata.oopsie]`: the size cap and where it came from, the
//! naming and visibility defaults, and the `traced` defaults, each folded
//! package-over-workspace leaf by leaf. Reading and parsing the manifests is
//! left to the caller; this module decides what the parsed tables mean.

use vstd::prelude::*;
use crate::chars::{chars_of, is_ascii_alnum, push_str};
use crate::flags::{TracedDefaults, or_opt};
use crate::size::{debug_quote, debug_quoted};
use crate::types::str_eq;

verus! {

/// A parsed `metadata.oopsie` table.
pub struct Settings {
    pub max_size: Option<usize>,
    pub default_suffix: Option<RawSuffix>,
    pub default_vis: Option<String>,
    pub module: Option<ManifestModule>,
    pub traced: Option<TracedSetting>,
}

/// `default-suffix`: a name, or `false` to disable (`true` is refused).
pub enum RawSuffix {
    Toggle(bool),
    Name(String),
}

/// `module`: a toggle or a table.
pub enum ManifestModule {
    Toggle(bool),
    Table(ModuleTable),
}

pub struct ModuleTable {
    pub enabled: Option<bool>,
    pub suffix: Option<String>,
}

/// `traced`: a toggle for trace-by-default, or a table of sub-toggle
/// defaults.
pub enum TracedSetting {
    Toggle(bool),
    Table(TracedTable),
}

pub struct TracedTable {
    pub enabled: Option<bool>,
    pub location: Option<bool>,
    pub timestamp: Option<bool>,
    pub packed: Option<bool>,
    pub boxed: Option<bool>,
    pub code: Option<bool>,
}

impl Settings {
    /// The settings of a manifest without the section.
    pub fn empty() -> (r: Self)
        ensures
            r.max_size is None && r.default_suffix is None && r.default_vis is None
                && r.module is None && r.traced is None,
    {
        Settings { max_size: None, default_suffix: None, default_vis: None, module: None, traced: None }
    }
}

/// A project-wide selector-suffix default.
#[derive(Debug, Clone, PartialEq, Eq)]
pub enum SuffixDefault {
    /// No suffix.
    Off,
    /// A custom suffix appended to the stripped name.
    Name(String),
}

/// Resolved naming and visibility defaults; `None` where unset. `vis` is
/// the visibility's source text, checked to parse.
pub struct NamingDefaults {
    pub module: Option<bool>,
    pub module_suffix: Option<String>,
    pub suffix: Option<SuffixDefault>,
    pub vis: Option<String>,
}

impl NamingDefaults {
    pub fn empty() -> (r: Self)
        ensures
            r.module is None && r.module_suffix is None && r.suffix is None && r.vis is None,
    {
        NamingDefaults { module: None, module_suffix: None, suffix: None, vis: None }
    }

    /// Leaf-by-leaf fold: every key set here wins over `under`'s.
    pub fn merge_over(self, under: Self) -> (r: Self)
        ensures
            r.module == or_opt(self.module, under.module),
            r.module_suffix == (if self.module_suffix is Some {
                self.module_suffix
            } else {
                under.module_suffix
            }),
            r.suffix == (if self.suffix is Some {
                self.suffix
            } else {
                under.suffix
            }),
            r.vis == (if self.vis is Some {
                self.vis
            } else {
                under.vis
            }),
    {
        NamingDefaults {
            module: crate::flags::or_bool(self.module, under.module),
            module_suffix: if self.module_suffix.is_some() {
                self.module_suffix
            } else {
                under.module_suffix
            },
            suffix: if self.suffix.is_some() {
                self.suffix
            } else {
                under.suffix
            },
            vis: if self.vis.is_some() {
                self.vis
            } else {
                under.vis
            },
        }
    }
}

// ─── Identifier checks ───────────────────────────────────────────────

/// A non-empty run of ASCII alphanumerics and `_`, so that appending it to
/// `name_` gives an identifier.
pub open spec fn spec_is_ident_fragment(s: Seq<char>) -> bool {
    s.len() > 0 && forall|i: int| 0 <= i < s.len() ==> is_ascii_alnum(#[trigger] s[i]) || s[i] == '_'
}

/// An identifier on its own: a fragment that does not start with a digit
/// and is not `_` alone.
pub open spec fn spec_is_ident(s: Seq<char>) -> bool {
    spec_is_ident_fragment(s) && !('0' <= s[0] && s[0] <= '9') && s != seq!['_']
}

pub fn is_ident_fragment(s: &str) -> (r: bool)
    ensures
        r == spec_is_ident_fragment(s@),
{
    let v = chars_of(s);
    if v.len() == 0 {
        return false;
    }
    let mut i: usize = 0;
    while i < v.len()
        invariant
            v@ == s@,
            i <= v.len(),
            forall|k: int| 0 <= k < i ==> is_ascii_alnum(#[trigger] v@[k]) || v@[k] == '_',
        decreases v.len() - i,
    {
        let c = v[i];
        let ok = ('0' <= c && c <= '9') || ('a' <= c && c <= 'z') || ('A' <= c && c <= 'Z') || c
            == '_';
        if !ok {
            return false;
        }
        i = i + 1;
    }
    true
}

pub fn is_ident(s: &str) -> (r: bool)
    ensures
        r == spec_is_ident(s@),
{
    if !is_ident_fragment(s) {
        return false;
    }
    let v = chars_of(s);
    let first = v[0];
    if '0' <= first && first <= '9' {
        return false;
    }
    if v.len() == 1 && first == '_' {
        assert(s@ =~= seq!['_']);
        return false;
    }
    assert(s@ != seq!['_']) by {
        if s@ == seq!['_'] {
            assert(v@.len() == 1);
        }
    }
    true
}

// ─── The size cap ────────────────────────────────────────────────────

/// Which manifest section a cap came from.
#[derive(Clone, Copy, Debug, PartialEq, Eq)]
pub enum CapSource {
    Package,
    Workspace,
}

pub open spec fn spec_section(s: CapSource) -> Seq<char> {
    match s {
        CapSource::Package => "[package.metadata.oopsie] max-size"@,
        CapSource::Workspace => "[workspace.metadata.oopsie] max-size"@,
    }
}

impl CapSource {
    /// The key's place in the manifest, as diagnostics name it.
    pub fn section(self) -> (r: &'static str)
        ensures
            r@ == spec_section(self),
    {
        match self {
            CapSource::Package => "[package.metadata.oopsie] max-size",
            CapSource::Workspace => "[workspace.metadata.oopsie] max-size",
        }
    }
}

pub open spec fn zero_cap_message(section: Seq<char>) -> Seq<char> {
    section + " is 0, which is not a valid size limit; remove the key to disable the cap instead"@
}

/// Rejects a zero cap (it can never be met, so it is a configuration
/// mistake); otherwise passes the cap on with its section.
pub fn validate_cap(max_size: Option<(usize, CapSource)>) -> (r: Result<
    Option<(usize, &'static str)>,
    String,
>)
    ensures
        match max_size {
            None => r == Ok::<Option<(usize, &'static str)>, String>(None),
            Some((n, src)) => if n == 0 {
                r matches Err(m) && m@ == zero_cap_message(spec_section(src))
            } else {
                r matches Ok(Some((m, sec))) && m == n && sec@ == spec_section(src)
            },
        },
{
    match max_size {
        None => Ok(None),
        Some((n, source)) => {
            if n == 0 {
                let mut m = String::new();
                push_str(&mut m, source.section());
                push_str(
                    &mut m,
                    " is 0, which is not a valid size limit; remove the key to disable the cap instead",
                );
                Err(m)
            } else {
                Ok(Some((n, source.section())))
            }
        },
    }
}

/// The cap and its origin: the package's wins, else the workspace's.
pub fn select_cap(package: &Settings, workspace: &Settings) -> (r: Option<(usize, CapSource)>)
    ensures
        r == select_cap_spec(*package, *workspace),
{
    match package.max_size {
        Some(n) => Some((n, CapSource::Package)),
        None => match workspace.max_size {
            Some(n) => Some((n, CapSource::Workspace)),
            None => None,
        },
    }
}

/// The validated project-wide cap from the parsed package and workspace
/// manifests: a parse error of either (package first) is reported as is;
/// else the selected cap is validated.
pub fn cap(
    package: &Result<Settings, String>,
    workspace: &Result<Settings, String>,
) -> (r: Result<Option<(usize, &'static str)>, String>)
    ensures
        match package {
            Err(e) => r matches Err(m) && m@ == e@,
            Ok(p) => match workspace {
                Err(e) => r matches Err(m) && m@ == e@,
                Ok(w) => match select_cap_spec(*p, *w) {
                    None => r == Ok::<Option<(usize, &'static str)>, String>(None),
                    Some((n, src)) => if n == 0 {
                        r matches Err(m) && m@ == zero_cap_message(spec_section(src))
                    } else {
                        r matches Ok(Some((m, sec))) && m == n && sec@ == spec_section(src)
                    },
                },
            },
        },
{
    let p = match package {
        Ok(p) => p,
        Err(e) => return Err(e.clone()),
    };
    let w = match workspace {
        Ok(w) => w,
        Err(e) => return Err(e.clone()),
    };
    validate_cap(select_cap(p, w))
}

pub open spec fn select_cap_spec(package: Settings, workspace: Settings) -> Option<(usize, CapSource)> {
    match package.max_size {
        Some(n) => Some((n, CapSource::Package)),
        None => match workspace.max_size {
            Some(n) => Some((n, CapSource::Workspace)),
            None => None,
        },
    }
}

// ─── Naming defaults ─────────────────────────────────────────────────

/// What `syn` reports when `s` is parsed as a visibility: `None` when it
/// parses, else the error's text.
pub uninterp spec fn visibility_parse_error(s: Seq<char>) -> Option<Seq<char>>;

/// Parses `s` as a visibility (`syn::parse_str::<syn::Visibility>`) and
/// returns the error's text if it does not parse.
#[verifier::external_body]
fn check_visibility(s: &str) -> (r: Option<String>)
    ensures
        match visibility_parse_error(s@) {
            None => r is None,
            Some(e) => r matches Some(m) && m@ == e,
        },
{
    match syn::parse_str::<syn::Visibility>(s) {
        Ok(_) => None,
        Err(e) => Some(e.to_string()),
    }
}

pub open spec fn opt_text(s: Option<String>) -> Option<Seq<char>> {
    match s {
        Some(x) => Some(x@),
        None => None,
    }
}

/// Whether `module.suffix` is acceptable: an identifier on its own when
/// `strict`, else an identifier fragment.
pub open spec fn module_suffix_ok(s: Seq<char>, strict: bool) -> bool {
    if strict {
        spec_is_ident(s)
    } else {
        spec_is_ident_fragment(s)
    }
}

pub open spec fn module_suffix_complaint(strict: bool) -> Seq<char> {
    if strict {
        " is not a valid identifier"@
    } else {
        " is not a valid identifier fragment"@
    }
}

/// The first problem with a table's naming keys, in key order (`module`,
/// `default-suffix`, `default-vis`), given the visibility's parse error;
/// `strict` asks `module.suffix` to be an identifier on its own.
pub open spec fn naming_error(
    settings: Settings,
    section: Seq<char>,
    vis_error: Option<Seq<char>>,
    strict: bool,
) -> Option<Seq<char>> {
    if settings.module matches Some(ManifestModule::Table(t)) && t.suffix matches Some(s)
        && !module_suffix_ok(s@, strict) {
        let s = settings.module->Some_0->Table_0.suffix->Some_0;
        Some(section + " module.suffix "@ + debug_quoted(s@) + module_suffix_complaint(strict))
    } else if settings.default_suffix == Some(RawSuffix::Toggle(true)) {
        Some(section + " default-suffix = true is ambiguous; use a suffix name or `false` to disable"@)
    } else if settings.default_suffix matches Some(RawSuffix::Name(s)) && !spec_is_ident_fragment(s@) {
        let s = settings.default_suffix->Some_0->Name_0;
        Some(section + " default-suffix "@ + debug_quoted(s@) + " is not a valid identifier fragment"@)
    } else if settings.default_vis is Some && vis_error is Some {
        let v = settings.default_vis->Some_0;
        Some(section + " default-vis "@ + debug_quoted(v@) + " is not a valid visibility: "@ + vis_error->Some_0)
    } else {
        None
    }
}

/// The naming defaults a valid table sets.
pub open spec fn naming_of(settings: Settings, n: NamingDefaults) -> bool {
    &&& n.module == match settings.module {
        None => None,
        Some(ManifestModule::Toggle(b)) => Some(b),
        Some(ManifestModule::Table(t)) => t.enabled,
    }
    &&& opt_text(n.module_suffix) == match settings.module {
        Some(ManifestModule::Table(t)) => opt_text(t.suffix),
        _ => None,
    }
    &&& n.suffix == match settings.default_suffix {
        None => None,
        Some(RawSuffix::Toggle(_)) => Some(SuffixDefault::Off),
        Some(RawSuffix::Name(s)) => Some(SuffixDefault::Name(s)),
    }
    &&& opt_text(n.vis) == opt_text(settings.default_vis)
}

fn clone_opt(s: &Option<String>) -> (r: Option<String>)
    ensures
        opt_text(r) == opt_text(*s),
{
    match s {
        Some(x) => Some(x.clone()),
        None => None,
    }
}

/// Resolves a table's naming keys, given the parse error of its
/// `default-vis` (if any): `module` (a toggle, or a table whose `suffix`
/// must be an identifier on its own), `default-suffix` (`false` or an
/// identifier fragment; `true` is ambiguous), `default-vis`.
pub fn naming_from_checked(settings: &Settings, section: &str, vis_error: Option<String>) -> (r: Result<
    NamingDefaults,
    String,
>)
    ensures
        match naming_error(*settings, section@, opt_text(vis_error), true) {
            Some(m) => r matches Err(e) && e@ == m,
            None => r matches Ok(n) && naming_of(*settings, n),
        },
{
    naming_checked_with(settings, section, vis_error, true)
}

pub(crate) fn naming_checked_with(
    settings: &Settings,
    section: &str,
    vis_error: Option<String>,
    strict: bool,
) -> (r: Result<NamingDefaults, String>)
    ensures
        match naming_error(*settings, section@, opt_text(vis_error), strict) {
            Some(m) => r matches Err(e) && e@ == m,
            None => r matches Ok(n) && naming_of(*settings, n),
        },
{
    let mut module_suffix: Option<String> = None;
    let module: Option<bool> = match &settings.module {
        None => None,
        Some(ManifestModule::Toggle(b)) => Some(*b),
        Some(ManifestModule::Table(t)) => {
            if let Some(s) = &t.suffix {
                let ok = if strict {
                    is_ident(s.as_str())
                } else {
                    is_ident_fragment(s.as_str())
                };
                if !ok {
                    let mut m = String::new();
                    push_str(&mut m, section);
                    push_str(&mut m, " module.suffix ");
                    push_str(&mut m, debug_quote(s.as_str()).as_str());
                    if strict {
                        push_str(&mut m, " is not a valid identifier");
                    } else {
                        push_str(&mut m, " is not a valid identifier fragment");
                    }
                    return Err(m);
                }
            }
            module_suffix = clone_opt(&t.suffix);
            t.enabled
        },
    };
    let suffix = match &settings.default_suffix {
        None => None,
        Some(RawSuffix::Toggle(b)) => {
            if *b {
                let mut m = String::new();
                push_str(&mut m, section);
                push_str(
                    &mut m,
                    " default-suffix = true is ambiguous; use a suffix name or `false` to disable",
                );
                return Err(m);
            }
            Some(SuffixDefault::Off)
        },
        Some(RawSuffix::Name(s)) => {
            if !is_ident_fragment(s.as_str()) {
                let mut m = String::new();
                push_str(&mut m, section);
                push_str(&mut m, " default-suffix ");
                push_str(&mut m, debug_quote(s.as_str()).as_str());
                push_str(&mut m, " is not a valid identifier fragment");
                return Err(m);
            }
            Some(SuffixDefault::Name(s.clone()))
        },
    };
    if let Some(v) = &settings.default_vis {
        if let Some(e) = &vis_error {
            let mut m = String::new();
            push_str(&mut m, section);
            push_str(&mut m, " default-vis ");
            push_str(&mut m, debug_quote(v.as_str()).as_str());
            push_str(&mut m, " is not a valid visibility: ");
            push_str(&mut m, e.as_str());
            return Err(m);
        }
    }
    Ok(NamingDefaults { module, module_suffix, suffix, vis: clone_opt(&settings.default_vis) })
}

/// The parse error of a table's `default-vis`, if it has one.
pub open spec fn vis_error_of(settings: Settings) -> Option<Seq<char>> {
    match settings.default_vis {
        Some(v) => visibility_parse_error(v@),
        None => None,
    }
}

/// The parse error of a table's `default-vis`, if it has one.
pub(crate) fn default_vis_error(settings: &Settings) -> (r: Option<String>)
    ensures
        opt_text(r) == vis_error_of(*settings),
{
    match &settings.default_vis {
        Some(v) => check_visibility(v.as_str()),
        None => None,
    }
}

/// Resolves and validates a table's naming keys (see
/// [`naming_from_checked`]), parsing `default-vis` to check it.
pub fn resolve_naming(settings: &Settings, section: &str) -> (r: Result<NamingDefaults, String>)
    ensures
        match naming_error(*settings, section@, vis_error_of(*settings), true) {
            Some(m) => r matches Err(e) && e@ == m,
            None => r matches Ok(n) && naming_of(*settings, n),
        },
{
    let vis_error = default_vis_error(settings);
    naming_from_checked(settings, section, vis_error)
}

/// The `traced` defaults a table sets: a toggle sets trace-by-default only;
/// a table sets each sub-toggle it names.
pub fn resolve_traced(settings: &Settings) -> (r: TracedDefaults)
    ensures
        traced_of(*settings, r),
{
    match &settings.traced {
        None => TracedDefaults::empty(),
        Some(TracedSetting::Toggle(b)) => {
            let mut d = TracedDefaults::empty();
            d.traced = Some(*b);
            d
        },
        Some(TracedSetting::Table(t)) => TracedDefaults {
            traced: t.enabled,
            location: t.location,
            timestamp: t.timestamp,
            packed: t.packed,
            boxed: t.boxed,
            code: t.code,
        },
    }
}

/// The merged naming defaults of the parsed package and workspace tables,
/// and the error either raises (the package's first): when either does
/// not parse, the empty defaults and no error (the cap reports it); when
/// either is invalid, the empty defaults and its error; else the package's
/// keys over the workspace's.
pub fn naming_defaults(
    package: &Result<Settings, String>,
    workspace: &Result<Settings, String>,
) -> (r: (NamingDefaults, Option<String>))
    ensures
        match (package, workspace) {
            (Ok(p), Ok(w)) => {
                let pe = naming_error(*p, "[package.metadata.oopsie]"@, vis_error_of(*p), true);
                let we = naming_error(*w, "[workspace.metadata.oopsie]"@, vis_error_of(*w), true);
                if pe is Some || we is Some {
                    r.1 matches Some(e) && e@ == (if pe is Some { pe->0 } else { we->0 })
                        && r.0.module is None && r.0.module_suffix is None && r.0.suffix is None
                        && r.0.vis is None
                } else {
                    r.1 is None && exists|pn: NamingDefaults, wn: NamingDefaults|
                        naming_of(*p, pn) && naming_of(*w, wn) && r.0.module == or_opt(pn.module, wn.module)
                            && opt_text(r.0.module_suffix) == (if pn.module_suffix is Some { opt_text(pn.module_suffix) } else { opt_text(wn.module_suffix) })
                            && r.0.suffix == (if pn.suffix is Some { pn.suffix } else { wn.suffix })
                            && opt_text(r.0.vis) == (if pn.vis is Some { opt_text(pn.vis) } else { opt_text(wn.vis) })
                }
            },
            _ => r.1 is None && r.0.module is None && r.0.module_suffix is None && r.0.suffix is None
                && r.0.vis is None,
        },
{
    let (p, w) = match (package, workspace) {
        (Ok(p), Ok(w)) => (p, w),
        _ => return (NamingDefaults::empty(), None),
    };
    let pn = resolve_naming(p, "[package.metadata.oopsie]");
    let wn = resolve_naming(w, "[workspace.metadata.oopsie]");
    match (pn, wn) {
        (Ok(a), Ok(b)) => {
            let ghost (ga, gb) = (a, b);
            let merged = a.merge_over(b);
            assert(naming_of(*p, ga) && naming_of(*w, gb));
            (merged, None)
        },
        (Err(e), _) => (NamingDefaults::empty(), Some(e)),
        (_, Err(e)) => (NamingDefaults::empty(), Some(e)),
    }
}

/// The merged `traced` defaults: the package table's keys over the
/// workspace's; none when either does not parse.
pub fn traced_defaults(
    package: &Result<Settings, String>,
    workspace: &Result<Settings, String>,
) -> (r: TracedDefaults)
    ensures
        match (package, workspace) {
            (Ok(p), Ok(w)) => exists|pt: TracedDefaults, wt: TracedDefaults|
                traced_of(*p, pt) && traced_of(*w, wt) && r.traced == or_opt(pt.traced, wt.traced)
                    && r.location == or_opt(pt.location, wt.location) && r.timestamp == or_opt(
                    pt.timestamp,
                    wt.timestamp,
                ) && r.packed == or_opt(pt.packed, wt.packed) && r.boxed == or_opt(
                    pt.boxed,
                    wt.boxed,
                ) && r.code == or_opt(pt.code, wt.code),
            _ => r == TracedDefaults::spec_empty(),
        },
{
    match (package, workspace) {
        (Ok(p), Ok(w)) => {
            let a = resolve_traced(p);
            let b = resolve_traced(w);
            let ghost (ga, gb) = (a, b);
            let r = a.merge_over(b);
            assert(traced_of(*p, ga) && traced_of(*w, gb));
            r
        },
        _ => TracedDefaults::empty(),
    }
}

/// The `traced` defaults table `settings` sets.
pub open spec fn traced_of(settings: Settings, t: TracedDefaults) -> bool {
    match settings.traced {
        None => t == TracedDefaults::spec_empty(),
        Some(TracedSetting::Toggle(b)) => t == (TracedDefaults { traced: Some(b), ..TracedDefaults::spec_empty() }),
        Some(TracedSetting::Table(tb)) => t == (TracedDefaults {
            traced: tb.enabled,
            location: tb.location,
            timestamp: tb.timestamp,
            packed: tb.packed,
            boxed: tb.boxed,
            code: tb.code,
        }),
    }
}

} // verus!

//! The package manifest's `[package.metadata.oopsie]` table on its own:
//! its size cap, naming defaults and `traced` defaults, and the accessors
//! the generators read them through.

use vstd::prelude::*;
use crate::chars::push_str;
use crate::flags::TracedDefaults;
use crate::settings::{
    NamingDefaults, Settings, SuffixDefault, naming_checked_with, naming_error, naming_of,
    opt_text, resolve_traced, default_vis_error, vis_error_of,
};

verus! {

pub open spec fn package_zero_cap_message() -> Seq<char> {
    "[package.metadata.oopsie] max-size is 0, which is not a valid size limit; remove the key to disable the cap instead"@
}

/// Rejects a zero cap, which can never be met.
pub fn validate_cap(max_size: Option<usize>) -> (r: Result<Option<usize>, String>)
    ensures
        match max_size {
            Some(0) => r matches Err(m) && m@ == package_zero_cap_message(),
            _ => r == Ok::<Option<usize>, String>(max_size),
        },
{
    match max_size {
        Some(0) => {
            let mut m = String::new();
            push_str(
                &mut m,
                "[package.metadata.oopsie] max-size is 0, which is not a valid size limit; remove the key to disable the cap instead",
            );
            Err(m)
        },
        other => Ok(other),
    }
}

/// The validated cap of the parsed package table; a parse error is
/// reported as is.
pub fn cap(settings: &Result<Settings, String>) -> (r: Result<Option<usize>, String>)
    ensures
        match settings {
            Err(e) => r matches Err(m) && m@ == e@,
            Ok(s) => match s.max_size {
                Some(0) => r matches Err(m) && m@ == package_zero_cap_message(),
                _ => r == Ok::<Option<usize>, String>(s.max_size),
            },
        },
{
    match settings {
        Ok(s) => validate_cap(s.max_size),
        Err(e) => Err(e.clone()),
    }
}

/// Resolves the package table's naming keys, given the parse error of its
/// `default-vis`: `module.suffix` must be an identifier fragment,
/// `default-suffix` `false` or a fragment, `default-vis` a visibility.
pub fn naming_from_checked(settings: &Settings, vis_error: Option<String>) -> (r: Result<
    NamingDefaults,
    String,
>)
    ensures
        match naming_error(*settings, "[package.metadata.oopsie]"@, opt_text(vis_error), false) {
            Some(m) => r matches Err(e) && e@ == m,
            None => r matches Ok(n) && naming_of(*settings, n),
        },
{
    naming_checked_with(settings, "[package.metadata.oopsie]", vis_error, false)
}

/// Resolves and validates the package table's naming keys.
pub fn resolve_naming(settings: &Settings) -> (r: Result<NamingDefaults, String>)
    ensures
        match naming_error(*settings, "[package.metadata.oopsie]"@, vis_error_of(*settings), false) {
            Some(m) => r matches Err(e) && e@ == m,
            None => r matches Ok(n) && naming_of(*settings, n),
        },
{
    let vis_error = default_vis_error(settings);
    naming_from_checked(settings, vis_error)
}

/// The naming defaults of the parsed package table, and the error its
/// keys raise: a table that does not parse yields the empty defaults and
/// no error (the cap reports it); an invalid one the empty defaults and
/// its error.
pub fn naming_defaults(settings: &Result<Settings, String>) -> (r: (NamingDefaults, Option<String>))
    ensures
        match settings {
            Err(_) => r.1 is None && r.0.module is None && r.0.module_suffix is None
                && r.0.suffix is None && r.0.vis is None,
            Ok(s) => match naming_error(*s, "[package.metadata.oopsie]"@, vis_error_of(*s), false) {
                Some(m) => r.1 matches Some(e) && e@ == m && r.0.module is None
                    && r.0.module_suffix is None && r.0.suffix is None && r.0.vis is None,
                None => r.1 is None && naming_of(*s, r.0),
            },
        },
{
    match settings {
        Err(_) => (NamingDefaults::empty(), None),
        Ok(s) => match resolve_naming(s) {
            Ok(n) => (n, None),
            Err(e) => (NamingDefaults::empty(), Some(e)),
        },
    }
}

/// The `traced` defaults of the parsed package table; none when it does
/// not parse.
pub fn traced_defaults(settings: &Result<Settings, String>) -> (r: TracedDefaults)
    ensures
        match settings {
            Err(_) => r == TracedDefaults::spec_empty(),
            Ok(s) => match s.traced {
                None => r == TracedDefaults::spec_empty(),
                Some(crate::settings::TracedSetting::Toggle(b)) => r == (TracedDefaults {
                    traced: Some(b),
                    ..TracedDefaults::spec_empty()
                }),
                Some(crate::settings::TracedSetting::Table(t)) => r == (TracedDefaults {
                    traced: t.enabled,
                    location: t.location,
                    timestamp: t.timestamp,
                    packed: t.packed,
                    boxed: t.boxed,
                    code: t.code,
                }),
            },
        },
{
    match settings {
        Err(_) => TracedDefaults::empty(),
        Ok(s) => resolve_traced(s),
    }
}

/// The manifest's default for wrapping selectors in a module.
pub fn manifest_module_default(naming: &NamingDefaults) -> (r: Option<bool>)
    ensures
        r == naming.module,
{
    naming.module
}

/// The manifest's suffix for default module names.
pub fn manifest_module_suffix(naming: &NamingDefaults) -> (r: Option<String>)
    ensures
        opt_text(r) == opt_text(naming.module_suffix),
{
    match &naming.module_suffix {
        Some(s) => Some(s.clone()),
        None => None,
    }
}

/// The manifest's default selector suffix.
pub fn manifest_suffix_default(naming: &NamingDefaults) -> (r: Option<SuffixDefault>)
    ensures
        r == naming.suffix,
{
    match &naming.suffix {
        Some(SuffixDefault::Off) => Some(SuffixDefault::Off),
        Some(SuffixDefault::Name(s)) => Some(SuffixDefault::Name(s.clone())),
        None => None,
    }
}

} // verus!

//! The argument list of the `#[oopsie(...)]` attribute macro: what it
//! refuses before reading its keys (a display string, a trace option
//! spelled outside `traced(...)`), and whether tracing is on, from the
//! attribute or else the project default.

use vstd::prelude::*;
use crate::chars::push_str;
use crate::types::str_eq;

verus! {

/// One top-level argument, as far as these rules read it.
#[derive(Debug, Clone, PartialEq, Eq)]
pub enum TopArg {
    /// A string literal.
    StrLit,
    /// A meta, with its path's identifier when the path is a single one.
    Meta(Option<String>),
    /// Any other literal or expression.
    Other,
}

/// Why the argument list is refused; the index names the argument.
#[derive(Debug, Clone, Copy, PartialEq, Eq)]
pub enum AttrArgsError {
    DisplayString(usize),
    NestedOnly(usize),
}

/// The trace options that exist only inside `traced(...)`.
pub open spec fn spec_nested_only(s: Seq<char>) -> bool {
    s == "backtrace"@ || s == "spantrace"@ || s == "timestamp"@ || s == "location"@ || s == "packed"@
        || s == "boxed"@ || s == "code"@
}

pub fn is_nested_only(s: &str) -> (r: bool)
    ensures
        r == spec_nested_only(s@),
{
    str_eq(s, "backtrace") || str_eq(s, "spantrace") || str_eq(s, "timestamp") || str_eq(s, "location")
        || str_eq(s, "packed") || str_eq(s, "boxed") || str_eq(s, "code")
}

pub open spec fn nested_only_arg(a: TopArg) -> bool {
    match a {
        TopArg::Meta(Some(id)) => spec_nested_only(id@),
        _ => false,
    }
}

/// The first string literal from `i`.
pub open spec fn first_str(args: Seq<TopArg>, i: int) -> Option<usize>
    decreases args.len() - i,
{
    if i < 0 || i >= args.len() {
        None
    } else if args[i] is StrLit {
        Some(i as usize)
    } else {
        first_str(args, i + 1)
    }
}

/// The first trace option at the top level, from `i`.
pub open spec fn first_nested(args: Seq<TopArg>, i: int) -> Option<usize>
    decreases args.len() - i,
{
    if i < 0 || i >= args.len() {
        None
    } else if nested_only_arg(args[i]) {
        Some(i as usize)
    } else {
        first_nested(args, i + 1)
    }
}

/// A display string anywhere is refused first; then the first trace option
/// spelled at the top level.
pub open spec fn spec_check(args: Seq<TopArg>) -> Result<(), AttrArgsError> {
    match first_str(args, 0) {
        Some(k) => Err(AttrArgsError::DisplayString(k)),
        None => match first_nested(args, 0) {
            Some(k) => Err(AttrArgsError::NestedOnly(k)),
            None => Ok(()),
        },
    }
}

fn arg_nested_only(a: &TopArg) -> (r: bool)
    ensures
        r == nested_only_arg(*a),
{
    match a {
        TopArg::Meta(Some(id)) => is_nested_only(id.as_str()),
        _ => false,
    }
}

/// Check the argument list before its keys are read.
pub fn check_top_args(args: &Vec<TopArg>) -> (r: Result<(), AttrArgsError>)
    ensures
        r == spec_check(args@),
{
    let mut i: usize = 0;
    while i < args.len()
        invariant
            i <= args.len(),
            first_str(args@, 0) == first_str(args@, i as int),
        decreases args.len() - i,
    {
        if let TopArg::StrLit = &args[i] {
            return Err(AttrArgsError::DisplayString(i));
        }
        i = i + 1;
    }
    let mut j: usize = 0;
    while j < args.len()
        invariant
            j <= args.len(),
            first_str(args@, 0) is None,
            first_nested(args@, 0) == first_nested(args@, j as int),
        decreases args.len() - j,
    {
        if arg_nested_only(&args[j]) {
            return Err(AttrArgsError::NestedOnly(j));
        }
        j = j + 1;
    }
    Ok(())
}

pub open spec fn display_string_text() -> Seq<char> {
    "display strings don't go in the macro arguments; put them in a separate `#[oopsie(\"...\")]` attribute on the struct, or on each enum variant"@
}

pub fn display_string_message() -> (r: &'static str)
    ensures
        r@ == display_string_text(),
{
    "display strings don't go in the macro arguments; put them in a separate `#[oopsie(\"...\")]` attribute on the struct, or on each enum variant"
}

pub open spec fn nested_only_text(ident: Seq<char>, suggestion: Seq<char>) -> Seq<char> {
    "`"@ + ident + "` must be nested inside `traced(...)`, e.g. `#[oopsie::oopsie(traced("@ + suggestion + "))]`"@
}

/// A trace option at the top level, with the argument as written.
pub fn nested_only_message(ident: &str, suggestion: &str) -> (r: String)
    ensures
        r@ == nested_only_text(ident@, suggestion@),
{
    let mut s = String::new();
    push_str(&mut s, "`");
    push_str(&mut s, ident);
    push_str(&mut s, "` must be nested inside `traced(...)`, e.g. `#[oopsie::oopsie(traced(");
    push_str(&mut s, suggestion);
    push_str(&mut s, "))]`");
    assert(s@ =~= nested_only_text(ident@, suggestion@));
    s
}

/// Where the tracing settings come from.
#[derive(Debug, Clone, Copy, PartialEq, Eq)]
pub enum TracedFrom {
    /// The attribute's own `traced(...)`.
    Attr,
    /// The project's `traced` default: every option at its default.
    Default,
}

pub open spec fn spec_effective_traced(attr: Option<bool>, manifest: Option<bool>) -> Option<TracedFrom> {
    match attr {
        Some(true) => Some(TracedFrom::Attr),
        Some(false) => None,
        None => if manifest == Some(true) {
            Some(TracedFrom::Default)
        } else {
            None
        },
    }
}

/// Whether tracing is on, given the attribute's `traced` (when written, and
/// whether it is enabled) and the project default: the attribute wins,
/// `traced = false` included.
pub fn effective_traced(attr: Option<bool>, manifest: Option<bool>) -> (r: Option<TracedFrom>)
    ensures
        r == spec_effective_traced(attr, manifest),
{
    match attr {
        Some(true) => Some(TracedFrom::Attr),
        Some(false) => None,
        None => match manifest {
            Some(true) => Some(TracedFrom::Default),
            _ => None,
        },
    }
}

/// A `traced` written on the attribute decides alone; the project default
/// only matters when the attribute says nothing.
pub proof fn lemma_attribute_wins(enabled: bool, m1: Option<bool>, m2: Option<bool>)
    ensures
        spec_effective_traced(Some(enabled), m1) == spec_effective_traced(Some(enabled), m2),
        spec_effective_traced(None, Some(false)) is None,
        spec_effective_traced(None, None) is None,
{
}

/// The keys that belong to the container: on a struct, whose one
/// `#[oopsie(...)]` list mixes container and variant keys, they are told
/// apart by name.
pub open spec fn spec_container_key(s: Seq<char>) -> bool {
    s == "module"@ || s == "suffix"@ || s == "size"@ || s == "path"@ || s == "vis"@
}

pub fn is_container_key(s: &str) -> (r: bool)
    ensures
        r == spec_container_key(s@),
{
    str_eq(s, "module") || str_eq(s, "suffix") || str_eq(s, "size") || str_eq(s, "path") || str_eq(s, "vis")
}

/// The positions of `keys[..n]` that are (`container`) or are not container
/// keys, in order.
pub open spec fn keys_where(keys: Seq<String>, n: int, container: bool) -> Seq<usize>
    decreases n,
{
    if n <= 0 {
        Seq::empty()
    } else if spec_container_key(keys[n - 1]@) == container {
        keys_where(keys, n - 1, container).push((n - 1) as usize)
    } else {
        keys_where(keys, n - 1, container)
    }
}

/// Split keys into container keys and the rest, keeping their order.
pub fn split_container_keys(keys: &Vec<String>) -> (r: (Vec<usize>, Vec<usize>))
    ensures
        r.0@ == keys_where(keys@, keys@.len() as int, true),
        r.1@ == keys_where(keys@, keys@.len() as int, false),
{
    let mut c: Vec<usize> = Vec::new();
    let mut o: Vec<usize> = Vec::new();
    let mut i: usize = 0;
    while i < keys.len()
        invariant
            i <= keys.len(),
            c@ == keys_where(keys@, i as int, true),
            o@ == keys_where(keys@, i as int, false),
        decreases keys.len() - i,
    {
        if is_container_key(keys[i].as_str()) {
            c.push(i);
        } else {
            o.push(i);
        }
        i = i + 1;
    }
    (c, o)
}

} // verus!

//! The `#[derive(...)]` lists of an item rewritten by the `oopsie` attribute
//! macro: `Oopsie` comes out (the attribute generates the impls itself) and
//! `Debug` goes in unless the item already derives it, plainly or under a
//! `cfg_attr`. The `traced` attribute instead needs `Oopsie` derived below it.

use vstd::prelude::*;
use crate::types::str_eq;

verus! {

/// One attribute of an item, as the derive rewrite reads it.
#[derive(Debug, Clone)]
pub enum ItemAttr {
    /// `#[derive(paths)]` that parses: the last segment of each path.
    Derive(Vec<String>),
    /// A `derive` attribute whose list does not parse: kept as written.
    UnparsedDerive,
    /// Any other attribute; for a `cfg_attr`, the path lists (last segments)
    /// of the `derive(...)` metas it gates.
    Other(Vec<Vec<String>>),
}

/// What becomes of one attribute.
#[derive(Debug, Clone, Copy, PartialEq, Eq)]
pub enum FixedAttr {
    /// Attribute `.0`, as written.
    Keep(usize),
    /// Derive attribute `.0` with its `Oopsie` paths removed.
    Rebuild(usize),
}

pub open spec fn names_has(names: Seq<String>, n: Seq<char>) -> bool {
    exists|k: int| 0 <= k < names.len() && #[trigger] names[k]@ == n
}

/// The positions of `names[..n]` that are not `Oopsie`.
pub open spec fn kept_paths(names: Seq<String>, n: int) -> Seq<usize>
    decreases n,
{
    if n <= 0 {
        Seq::empty()
    } else if names[n - 1]@ == "Oopsie"@ {
        kept_paths(names, n - 1)
    } else {
        kept_paths(names, n - 1).push((n - 1) as usize)
    }
}

/// The paths of a derive list that stay: all but `Oopsie`.
pub fn derive_paths_kept(names: &Vec<String>) -> (r: Vec<usize>)
    ensures
        r@ == kept_paths(names@, names@.len() as int),
{
    let mut r: Vec<usize> = Vec::new();
    let mut i: usize = 0;
    while i < names.len()
        invariant
            i <= names.len(),
            r@ == kept_paths(names@, i as int),
        decreases names.len() - i,
    {
        if !str_eq(names[i].as_str(), "Oopsie") {
            r.push(i);
        }
        i = i + 1;
    }
    r
}

/// Whether attribute `a` derives `Debug`: in its own list, or in one it
/// gates under a `cfg_attr`.
pub open spec fn derives_debug(a: ItemAttr) -> bool {
    match a {
        ItemAttr::Derive(names) => names_has(names@, "Debug"@),
        ItemAttr::UnparsedDerive => false,
        ItemAttr::Other(lists) => exists|k: int| 0 <= k < lists@.len() && names_has(#[trigger] lists@[k]@, "Debug"@),
    }
}

/// What becomes of `attrs[..n]`, in order: a derive list left empty by
/// removing `Oopsie` disappears.
pub open spec fn fixed_prefix(attrs: Seq<ItemAttr>, n: int) -> Seq<FixedAttr>
    decreases n,
{
    if n <= 0 {
        Seq::empty()
    } else {
        let prev = fixed_prefix(attrs, n - 1);
        match attrs[n - 1] {
            ItemAttr::Derive(names) => if kept_paths(names@, names@.len() as int).len() > 0 {
                prev.push(FixedAttr::Rebuild((n - 1) as usize))
            } else {
                prev
            },
            _ => prev.push(FixedAttr::Keep((n - 1) as usize)),
        }
    }
}

pub open spec fn any_debug(attrs: Seq<ItemAttr>) -> bool {
    exists|i: int| 0 <= i < attrs.len() && derives_debug(#[trigger] attrs[i])
}

fn has_name(names: &Vec<String>, n: &str) -> (r: bool)
    ensures
        r == names_has(names@, n@),
{
    let mut k: usize = 0;
    while k < names.len()
        invariant
            k <= names.len(),
            forall|j: int| 0 <= j < k ==> names@[j]@ != n@,
        decreases names.len() - k,
    {
        if str_eq(names[k].as_str(), n) {
            return true;
        }
        k = k + 1;
    }
    false
}

fn lists_have(lists: &Vec<Vec<String>>, n: &str) -> (r: bool)
    ensures
        r == exists|k: int| 0 <= k < lists@.len() && names_has(#[trigger] lists@[k]@, n@),
{
    let mut k: usize = 0;
    while k < lists.len()
        invariant
            k <= lists.len(),
            forall|j: int| 0 <= j < k ==> !names_has(#[trigger] lists@[j]@, n@),
        decreases lists.len() - k,
    {
        if has_name(&lists[k], n) {
            assert(names_has(lists@[k as int]@, n@));
            return true;
        }
        k = k + 1;
    }
    false
}

fn attr_derives_debug(a: &ItemAttr) -> (r: bool)
    ensures
        r == derives_debug(*a),
{
    proof {
        reveal_strlit("Debug");
    }
    match a {
        ItemAttr::Derive(names) => has_name(names, "Debug"),
        ItemAttr::UnparsedDerive => false,
        ItemAttr::Other(lists) => lists_have(lists, "Debug"),
    }
}

/// Rewrite an item's derives: what becomes of each attribute, and whether
/// a `#[derive(::core::fmt::Debug)]` is added after them (asked for, and no
/// attribute derives `Debug` already).
pub fn fix_derives(attrs: &Vec<ItemAttr>, inject_debug: bool) -> (r: (Vec<FixedAttr>, bool))
    ensures
        r.0@ == fixed_prefix(attrs@, attrs@.len() as int),
        r.1 == (inject_debug && !any_debug(attrs@)),
{
    let mut out: Vec<FixedAttr> = Vec::new();
    let mut has_debug = false;
    let mut i: usize = 0;
    while i < attrs.len()
        invariant
            i <= attrs.len(),
            out@ == fixed_prefix(attrs@, i as int),
            has_debug == exists|j: int| 0 <= j < i && derives_debug(#[trigger] attrs@[j]),
        decreases attrs.len() - i,
    {
        if attr_derives_debug(&attrs[i]) {
            has_debug = true;
        }
        match &attrs[i] {
            ItemAttr::Derive(names) => {
                let kept = derive_paths_kept(names);
                if kept.len() > 0 {
                    out.push(FixedAttr::Rebuild(i));
                }
            },
            _ => {
                out.push(FixedAttr::Keep(i));
            },
        }
        i = i + 1;
    }
    (out, inject_debug && !has_debug)
}

/// Whether some `derive` attribute (by the identifier tokens of its list)
/// names `Oopsie`.
pub open spec fn derives_oopsie(lists: Seq<Vec<String>>) -> bool {
    exists|k: int| 0 <= k < lists.len() && names_has(#[trigger] lists[k]@, "Oopsie"@)
}

pub open spec fn traced_usage_text() -> Seq<char> {
    "`#[traced]` requires `#[derive(Oopsie)]` below it\n\nUsage:\n  #[traced]\n  #[derive(Debug, Oopsie)]\n  pub enum MyError { ... }"@
}

/// `traced` needs `Oopsie` among the item's derives: the identifier tokens
/// of each of its `derive` lists that parse are `derive_idents`.
pub fn require_derive_oopsie(derive_idents: &Vec<Vec<String>>) -> (r: Result<(), String>)
    ensures
        derives_oopsie(derive_idents@) ==> r is Ok,
        !derives_oopsie(derive_idents@) ==> (r matches Err(m) && m@ == traced_usage_text()),
{
    proof {
        reveal_strlit("Oopsie");
    }
    if lists_have(derive_idents, "Oopsie") {
        return Ok(());
    }
    let mut m = String::new();
    crate::chars::push_str(
        &mut m,
        "`#[traced]` requires `#[derive(Oopsie)]` below it\n\nUsage:\n  #[traced]\n  #[derive(Debug, Oopsie)]\n  pub enum MyError { ... }",
    );
    Err(m)
}


// ─── The hand-over marker ────────────────────────────────────────────

/// One meta of the `#[__oopsie_attr(...)]` marker the attribute macro leaves
/// for its derive: a path, a list or a name-value, with the identifier when
/// its path is a single one.
#[derive(Debug, Clone)]
pub enum MarkerMeta {
    Path(Option<String>),
    List(Option<String>),
    NameValue,
}

/// What the marker says: whether tracing is active, and which metas (by
/// index) carry the macro's path and its two keyword lists.
#[derive(Debug, Clone, Copy, PartialEq, Eq)]
pub struct Marker {
    pub tracing_active: bool,
    pub path: Option<usize>,
    pub attr_keywords: Option<usize>,
    pub traced_keywords: Option<usize>,
}

pub open spec fn ident_of(id: Option<String>, name: Seq<char>) -> bool {
    match id {
        Some(s) => s@ == name,
        None => false,
    }
}

/// The marker after reading `ms[..n]`, or the index of the first unknown
/// key; a key read again replaces what it said.
pub open spec fn marker_after(ms: Seq<MarkerMeta>, n: int) -> Result<Marker, usize>
    decreases n,
{
    if n <= 0 {
        Ok(Marker { tracing_active: false, path: None, attr_keywords: None, traced_keywords: None })
    } else {
        match marker_after(ms, n - 1) {
            Err(k) => Err(k),
            Ok(m) => {
                let i = (n - 1) as usize;
                match ms[n - 1] {
                    MarkerMeta::Path(id) => if ident_of(id, "tracing_active"@) {
                        Ok(Marker { tracing_active: true, ..m })
                    } else {
                        Err(i)
                    },
                    MarkerMeta::List(id) => if ident_of(id, "path"@) {
                        Ok(Marker { path: Some(i), ..m })
                    } else if ident_of(id, "attr_keywords"@) {
                        Ok(Marker { attr_keywords: Some(i), ..m })
                    } else if ident_of(id, "traced_keywords"@) {
                        Ok(Marker { traced_keywords: Some(i), ..m })
                    } else {
                        Err(i)
                    },
                    MarkerMeta::NameValue => Err(i),
                }
            },
        }
    }
}

fn ident_eq(id: &Option<String>, name: &str) -> (r: bool)
    ensures
        r == ident_of(*id, name@),
{
    match id {
        Some(s) => str_eq(s.as_str(), name),
        None => false,
    }
}

/// Read the marker's metas; an unknown key is refused by its index (the
/// caller reports it as an unknown key).
pub fn read_marker(metas: &Vec<MarkerMeta>) -> (r: Result<Marker, usize>)
    ensures
        r == marker_after(metas@, metas@.len() as int),
{
    let mut m = Marker { tracing_active: false, path: None, attr_keywords: None, traced_keywords: None };
    let mut i: usize = 0;
    while i < metas.len()
        invariant
            i <= metas.len(),
            marker_after(metas@, i as int) == Ok::<Marker, usize>(m),
        decreases metas.len() - i,
    {
        match &metas[i] {
            MarkerMeta::Path(id) => {
                if ident_eq(id, "tracing_active") {
                    m.tracing_active = true;
                } else {
                    proof { lemma_marker_err_stays(metas@, i as int + 1, metas@.len() as int); }
                    return Err(i);
                }
            },
            MarkerMeta::List(id) => {
                if ident_eq(id, "path") {
                    m.path = Some(i);
                } else if ident_eq(id, "attr_keywords") {
                    m.attr_keywords = Some(i);
                } else if ident_eq(id, "traced_keywords") {
                    m.traced_keywords = Some(i);
                } else {
                    proof { lemma_marker_err_stays(metas@, i as int + 1, metas@.len() as int); }
                    return Err(i);
                }
            },
            MarkerMeta::NameValue => {
                proof { lemma_marker_err_stays(metas@, i as int + 1, metas@.len() as int); }
                return Err(i);
            },
        }
        i = i + 1;
    }
    Ok(m)
}

proof fn lemma_marker_err_stays(ms: Seq<MarkerMeta>, m: int, n: int)
    requires
        0 <= m <= n <= ms.len(),
        marker_after(ms, m) is Err,
    ensures
        marker_after(ms, n) == marker_after(ms, m),
    decreases n - m,
{
    if m < n {
        lemma_marker_err_stays(ms, m, n - 1);
    }
}

} // verus!

//! The text of the diagnostics with which the derive refuses an item:
//! fixed sentences for the rules that need no names, and sentences built
//! around the names of the variants, types and selectors involved.

use vstd::prelude::*;
use crate::chars::push_str;
use crate::resolve::ResolveError;

verus! {

pub open spec fn cfg_on_source_text() -> Seq<char> {
    "`#[cfg(...)]` is not supported on a source field; gating the source would strip the `From`/`Contextual` impls that depend on it"@
}

pub open spec fn transparent_vis_text() -> Seq<char> {
    "`vis` has no effect on a `transparent` item: it generates a `From` impl, not a named selector; remove `vis` or drop `transparent`"@
}

pub open spec fn transparent_suffix_text() -> Seq<char> {
    "`suffix` has no effect on a `transparent` struct: it generates a `From` impl, not a named selector; remove `suffix` or drop `transparent`"@
}

pub open spec fn transparent_module_text() -> Seq<char> {
    "`module` has no effect on a `transparent` struct: it generates a `From` impl, not a namespaced selector; remove `module` or drop `transparent`"@
}

pub open spec fn transparent_no_source_text() -> Seq<char> {
    "`transparent` requires a source field (a field named `source` or marked `#[oopsie(from)]`)"@
}

pub open spec fn transparent_forward_text() -> Seq<char> {
    "`#[oopsie(forward(...))]` is redundant on a `transparent` error; transparent already forwards all traces"@
}

pub open spec fn transparent_user_field_text() -> Seq<char> {
    "`transparent` allows no fields besides the source and auto-captured trace fields; remove this field or drop `transparent`"@
}

pub open spec fn help_conflict_text() -> Seq<char> {
    "ambiguous help: this `#[oopsie(help)]` field conflicts with the `help = ...` attribute; remove one"@
}

/// The fixed sentence of a refusal, for the rules whose text names nothing.
pub open spec fn spec_fixed_text(e: ResolveError) -> Option<Seq<char>> {
    match e {
        ResolveError::CfgOnSource(_) => Some(cfg_on_source_text()),
        ResolveError::TransparentVis(_) => Some(transparent_vis_text()),
        ResolveError::TransparentSuffix => Some(transparent_suffix_text()),
        ResolveError::TransparentModule => Some(transparent_module_text()),
        ResolveError::TransparentNoSource(_) => Some(transparent_no_source_text()),
        ResolveError::TransparentForward(_) => Some(transparent_forward_text()),
        ResolveError::TransparentUserField(_, _) => Some(transparent_user_field_text()),
        ResolveError::HelpConflict(_) => Some(help_conflict_text()),
        _ => None,
    }
}

/// The fixed sentence of `e`, or `None` when its text names the items
/// involved.
pub fn fixed_text(e: &ResolveError) -> (r: Option<&'static str>)
    ensures
        match r {
            Some(t) => spec_fixed_text(*e) == Some(t@),
            None => spec_fixed_text(*e) is None,
        },
{
    match e {
        ResolveError::CfgOnSource(_) => Some(
            "`#[cfg(...)]` is not supported on a source field; gating the source would strip the `From`/`Contextual` impls that depend on it",
        ),
        ResolveError::TransparentVis(_) => Some(
            "`vis` has no effect on a `transparent` item: it generates a `From` impl, not a named selector; remove `vis` or drop `transparent`",
        ),
        ResolveError::TransparentSuffix => Some(
            "`suffix` has no effect on a `transparent` struct: it generates a `From` impl, not a named selector; remove `suffix` or drop `transparent`",
        ),
        ResolveError::TransparentModule => Some(
            "`module` has no effect on a `transparent` struct: it generates a `From` impl, not a namespaced selector; remove `module` or drop `transparent`",
        ),
        ResolveError::TransparentNoSource(_) => Some(
            "`transparent` requires a source field (a field named `source` or marked `#[oopsie(from)]`)",
        ),
        ResolveError::TransparentForward(_) => Some(
            "`#[oopsie(forward(...))]` is redundant on a `transparent` error; transparent already forwards all traces",
        ),
        ResolveError::TransparentUserField(_, _) => Some(
            "`transparent` allows no fields besides the source and auto-captured trace fields; remove this field or drop `transparent`",
        ),
        ResolveError::HelpConflict(_) => Some(
            "ambiguous help: this `#[oopsie(help)]` field conflicts with the `help = ...` attribute; remove one",
        ),
        _ => None,
    }
}

pub open spec fn boxed_self_text(name: Seq<char>) -> Seq<char> {
    "`transparent` source `Box<"@ + name + ">` auto-unboxes to `From<"@ + name + "> for "@ + name
        + "`, colliding with the standard library's blanket `impl<T> From<T> for T`; box a distinct type or drop `transparent`"@
}

/// A transparent source that boxes the error type itself.
pub fn boxed_self_message(name: &str) -> (r: String)
    ensures
        r@ == boxed_self_text(name@),
{
    let mut s = String::new();
    push_str(&mut s, "`transparent` source `Box<");
    push_str(&mut s, name);
    push_str(&mut s, ">` auto-unboxes to `From<");
    push_str(&mut s, name);
    push_str(&mut s, "> for ");
    push_str(&mut s, name);
    push_str(
        &mut s,
        "`, colliding with the standard library's blanket `impl<T> From<T> for T`; box a distinct type or drop `transparent`",
    );
    assert(s@ =~= boxed_self_text(name@));
    s
}

pub open spec fn reserved_selector_text(name: Seq<char>) -> Seq<char> {
    "cannot generate a selector named `"@ + name + "`; rename the item or set `#[oopsie(suffix = \"...\")]`"@
}

/// A selector name that cannot be an identifier, not even a raw one.
pub fn reserved_selector_message(name: &str) -> (r: String)
    ensures
        r@ == reserved_selector_text(name@),
{
    let mut s = String::new();
    push_str(&mut s, "cannot generate a selector named `");
    push_str(&mut s, name);
    push_str(&mut s, "`; rename the item or set `#[oopsie(suffix = \"...\")]`");
    assert(s@ =~= reserved_selector_text(name@));
    s
}

pub open spec fn transparent_collision_text(first: Seq<char>, second: Seq<char>, ty: Seq<char>) -> Seq<char> {
    "variants `"@ + first + "` and `"@ + second + "` are both `transparent` over source type `"@ + ty
        + "`, generating two `From<"@ + ty
        + ">` impls for the same type (E0119); merge the variants or give one a distinct source type"@
}

pub open spec fn also_from_text(first: Seq<char>, ty: Seq<char>) -> Seq<char> {
    "`"@ + first + "` also generates `From<"@ + ty + ">`"@
}

/// Two transparent variants over one source type `ty`: the sentence at
/// the second, and the note at the first.
pub fn transparent_collision_message(first: &str, second: &str, ty: &str) -> (r: (String, String))
    ensures
        r.0@ == transparent_collision_text(first@, second@, ty@),
        r.1@ == also_from_text(first@, ty@),
{
    let mut s = String::new();
    push_str(&mut s, "variants `");
    push_str(&mut s, first);
    push_str(&mut s, "` and `");
    push_str(&mut s, second);
    push_str(&mut s, "` are both `transparent` over source type `");
    push_str(&mut s, ty);
    push_str(&mut s, "`, generating two `From<");
    push_str(&mut s, ty);
    push_str(
        &mut s,
        ">` impls for the same type (E0119); merge the variants or give one a distinct source type",
    );
    assert(s@ =~= transparent_collision_text(first@, second@, ty@));
    let mut n = String::new();
    push_str(&mut n, "`");
    push_str(&mut n, first);
    push_str(&mut n, "` also generates `From<");
    push_str(&mut n, ty);
    push_str(&mut n, ">`");
    assert(n@ =~= also_from_text(first@, ty@));
    (s, n)
}

pub open spec fn selector_matches_enum_text(variant: Seq<char>, enum_name: Seq<char>) -> Seq<char> {
    "variant `"@ + variant + "` generates a selector named `"@ + enum_name
        + "`, colliding with the enum's own name; rename the variant or set `#[oopsie(suffix = \"...\")]`"@
}

/// A variant whose selector is named like its enum.
pub fn selector_matches_enum_message(variant: &str, enum_name: &str) -> (r: String)
    ensures
        r@ == selector_matches_enum_text(variant@, enum_name@),
{
    let mut s = String::new();
    push_str(&mut s, "variant `");
    push_str(&mut s, variant);
    push_str(&mut s, "` generates a selector named `");
    push_str(&mut s, enum_name);
    push_str(
        &mut s,
        "`, colliding with the enum's own name; rename the variant or set `#[oopsie(suffix = \"...\")]`",
    );
    assert(s@ =~= selector_matches_enum_text(variant@, enum_name@));
    s
}

pub open spec fn selector_matches_struct_text(name: Seq<char>) -> Seq<char> {
    "the selector for `"@ + name + "` would also be named `"@ + name
        + "` (no `Error` suffix to strip, and `suffix(false)`); set `#[oopsie(suffix = \"...\")]` or enable `module`"@
}

/// A struct whose selector would carry its own name.
pub fn selector_matches_struct_message(name: &str) -> (r: String)
    ensures
        r@ == selector_matches_struct_text(name@),
{
    let mut s = String::new();
    push_str(&mut s, "the selector for `");
    push_str(&mut s, name);
    push_str(&mut s, "` would also be named `");
    push_str(&mut s, name);
    push_str(
        &mut s,
        "` (no `Error` suffix to strip, and `suffix(false)`); set `#[oopsie(suffix = \"...\")]` or enable `module`",
    );
    assert(s@ =~= selector_matches_struct_text(name@));
    s
}

pub open spec fn selector_collision_text(first: Seq<char>, second: Seq<char>, selector: Seq<char>) -> Seq<char> {
    "variants `"@ + first + "` and `"@ + second + "` both generate a selector named `"@ + selector
        + "` (a trailing `Error` is stripped from variant names); rename one of the variants"@
}

pub open spec fn also_selector_text(first: Seq<char>, selector: Seq<char>) -> Seq<char> {
    "`"@ + first + "` also generates selector `"@ + selector + "`"@
}

/// Two variants with one selector name: the sentence at the second, and
/// the note at the first.
pub fn selector_collision_message(first: &str, second: &str, selector: &str) -> (r: (String, String))
    ensures
        r.0@ == selector_collision_text(first@, second@, selector@),
        r.1@ == also_selector_text(first@, selector@),
{
    let mut s = String::new();
    push_str(&mut s, "variants `");
    push_str(&mut s, first);
    push_str(&mut s, "` and `");
    push_str(&mut s, second);
    push_str(&mut s, "` both generate a selector named `");
    push_str(&mut s, selector);
    push_str(&mut s, "` (a trailing `Error` is stripped from variant names); rename one of the variants");
    assert(s@ =~= selector_collision_text(first@, second@, selector@));
    let mut n = String::new();
    push_str(&mut n, "`");
    push_str(&mut n, first);
    push_str(&mut n, "` also generates selector `");
    push_str(&mut n, selector);
    push_str(&mut n, "`");
    assert(n@ =~= also_selector_text(first@, selector@));
    (s, n)
}

pub open spec fn display_keyword_text(keyword: Seq<char>, format_str: Seq<char>) -> Seq<char> {
    "`"@ + keyword + "` is an `#[oopsie(...)]` keyword, not a display format argument; give it its own attribute: `#[oopsie(\""@
        + format_str + "\")] #[oopsie("@ + keyword + ")]`"@
}

/// A display argument that is a misplaced keyword.
pub fn display_keyword_message(keyword: &str, format_str: &str) -> (r: String)
    ensures
        r@ == display_keyword_text(keyword@, format_str@),
{
    let mut s = String::new();
    push_str(&mut s, "`");
    push_str(&mut s, keyword);
    push_str(
        &mut s,
        "` is an `#[oopsie(...)]` keyword, not a display format argument; give it its own attribute: `#[oopsie(\"",
    );
    push_str(&mut s, format_str);
    push_str(&mut s, "\")] #[oopsie(");
    push_str(&mut s, keyword);
    push_str(&mut s, ")]`");
    assert(s@ =~= display_keyword_text(keyword@, format_str@));
    s
}

} // verus!

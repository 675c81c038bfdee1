//! Names the macros derive: context selector names (the variant or type
//! name with a trailing `Error` stripped and the suffix applied) and the
//! name of the module that wraps the selectors.

use vstd::prelude::*;
use crate::chars::{chars_of, push_str, string_from_chars};
use crate::flags::{MaybeAloneOopsieValue, SuffixSetting, spec_effective_suffix};
use convert_case::Casing;

verus! {

/// `s` without a leading `r#`.
pub open spec fn unraw(s: Seq<char>) -> Seq<char> {
    if s.len() >= 2 && s[0] == 'r' && s[1] == '#' {
        s.skip(2)
    } else {
        s
    }
}

pub open spec fn ends_with_error(s: Seq<char>) -> bool {
    s.len() >= 5 && s.skip(s.len() - 5) == "Error"@
}

/// `s` without a trailing `Error`, unless nothing would be left.
pub open spec fn strip_error_nonempty(s: Seq<char>) -> Seq<char> {
    if ends_with_error(s) && s.len() > 5 {
        s.take(s.len() - 5)
    } else {
        s
    }
}

/// `s` without a trailing `Error`.
pub open spec fn strip_error(s: Seq<char>) -> Seq<char> {
    if ends_with_error(s) {
        s.take(s.len() - 5)
    } else {
        s
    }
}

/// The selector name before identifier checks: the unraw'd name, `Error`
/// stripped (unless it is the whole name), the suffix appended.
pub open spec fn selector_base(ident: Seq<char>, suffix: Option<Seq<char>>) -> Seq<char> {
    strip_error_nonempty(unraw(ident)) + match suffix {
        Some(s) => s,
        None => Seq::empty(),
    }
}

/// A trailing `Error` is stripped from a selector's base name, unless
/// nothing else is left: `stem` + `Error` names the same selector as `stem`,
/// which is `stem` followed by the suffix, and `Error` alone is kept.
pub proof fn lemma_error_suffix_stripped(stem: Seq<char>, suffix: Option<Seq<char>>)
    requires
        stem.len() > 0,
        !(stem.len() >= 2 && stem[0] == 'r' && stem[1] == '#'),
        !ends_with_error(stem),
    ensures
        selector_base(stem + "Error"@, suffix) == selector_base(stem, suffix),
        selector_base(stem, suffix) == stem + match suffix {
            Some(x) => x,
            None => Seq::empty(),
        },
        selector_base("Error"@, suffix) == "Error"@ + match suffix {
            Some(x) => x,
            None => Seq::empty(),
        },
{
    let s = stem + "Error"@;
    reveal_strlit("Error");
    assert(s.len() == stem.len() + 5);
    assert(unraw(s) == s) by {
        if s.len() >= 2 && s[0] == 'r' && s[1] == '#' {
            assert(stem.len() >= 2 || stem.len() == 1);
            if stem.len() == 1 {
                assert(s[1] == 'E');
            }
        }
    }
    assert(s.skip(s.len() - 5) =~= "Error"@);
    assert(s.take(s.len() - 5) =~= stem);
    let e = "Error"@;
    assert(unraw(e) == e) by {
        assert(e[0] == 'E');
    }
    assert(e.skip(0) =~= e);
}

/// Names that cannot be identifiers, raw or not.
pub open spec fn unrawable(name: Seq<char>) -> bool {
    name == "self"@ || name == "Self"@ || name == "super"@ || name == "crate"@ || name == "_"@
}

/// What `syn` parses `s` as an identifier to: whether it is one (a keyword
/// is not).
pub uninterp spec fn ident_parses(s: Seq<char>) -> bool;

/// Whether `s` parses as an identifier (`syn::parse_str::<syn::Ident>`).
#[verifier::external_body]
fn parses_as_ident(s: &str) -> (r: bool)
    ensures
        r == ident_parses(s@),
{
    syn::parse_str::<syn::Ident>(s).is_ok()
}

/// An identifier the macros generate: its name, and whether it must be
/// written raw (`r#name`) because the name is a keyword.
#[derive(Debug, Clone, PartialEq, Eq)]
pub struct GenIdent {
    pub name: String,
    pub raw: bool,
}

/// How an identifier prints (`r#try` for a raw `try`).
pub open spec fn ident_text(id: GenIdent) -> Seq<char> {
    if id.raw {
        "r#"@ + id.name@
    } else {
        id.name@
    }
}

impl GenIdent {
    /// The identifier as source text.
    pub fn text(&self) -> (r: String)
        ensures
            r@ == ident_text(*self),
    {
        let mut r = String::new();
        if self.raw {
            push_str(&mut r, "r#");
        }
        push_str(&mut r, self.name.as_str());
        proof {
            reveal_strlit("r#");
        }
        assert(r@ =~= ident_text(*self));
        r
    }
}

/// A name that cannot be generated as an identifier.
#[derive(Debug, Clone, PartialEq, Eq)]
pub struct ReservedName {
    pub name: String,
}

/// `name` as an identifier: plain when it parses as one, raw when it is a
/// keyword, refused for the few names that cannot be raw either.
pub open spec fn spec_ident_maybe_raw(name: Seq<char>) -> Option<bool> {
    if ident_parses(name) {
        Some(false)
    } else if unrawable(name) {
        None
    } else {
        Some(true)
    }
}

fn is_lit(v: &Vec<char>, lit: &str) -> (r: bool)
    ensures
        r == (v@ == lit@),
{
    let l = chars_of(lit);
    crate::chars::chars_eq(v, &l)
}

/// `name` as a generated identifier, given whether it parses as a plain
/// one: plain if so, else refused when it cannot be raw, else raw.
pub fn classify_ident(name: String, parses: bool) -> (r: Result<GenIdent, ReservedName>)
    ensures
        parses ==> r == Ok::<GenIdent, ReservedName>(GenIdent { name, raw: false }),
        !parses && unrawable(name@) ==> r == Err::<GenIdent, ReservedName>(ReservedName { name }),
        !parses && !unrawable(name@) ==> r == Ok::<GenIdent, ReservedName>(
            GenIdent { name, raw: true },
        ),
{
    if parses {
        return Ok(GenIdent { name, raw: false });
    }
    let v = chars_of(name.as_str());
    if is_lit(&v, "self") || is_lit(&v, "Self") || is_lit(&v, "super") || is_lit(&v, "crate")
        || is_lit(&v, "_") {
        Err(ReservedName { name })
    } else {
        Ok(GenIdent { name, raw: true })
    }
}

/// `name` as a generated identifier.
pub fn ident_maybe_raw(name: String) -> (r: Result<GenIdent, ReservedName>)
    ensures
        match spec_ident_maybe_raw(name@) {
            Some(raw) => r == Ok::<GenIdent, ReservedName>(GenIdent { name, raw }),
            None => r == Err::<GenIdent, ReservedName>(ReservedName { name }),
        },
{
    let parses = parses_as_ident(name.as_str());
    classify_ident(name, parses)
}

/// `v[from..]` when `v` starts with `r#`, else all of `v`, as a vector.
fn unraw_chars(v: Vec<char>) -> (r: Vec<char>)
    ensures
        r@ == unraw(v@),
{
    if v.len() >= 2 && v[0] == 'r' && v[1] == '#' {
        let mut r: Vec<char> = Vec::new();
        let mut i: usize = 2;
        while i < v.len()
            invariant
                2 <= i <= v.len(),
                r@ == v@.subrange(2, i as int),
            decreases v.len() - i,
        {
            r.push(v[i]);
            i = i + 1;
        }
        assert(r@ =~= v@.skip(2));
        r
    } else {
        v
    }
}

fn ends_with_error_chars(v: &Vec<char>) -> (r: bool)
    ensures
        r == ends_with_error(v@),
{
    proof {
        reveal_strlit("Error");
    }
    let n = v.len();
    if n < 5 {
        return false;
    }
    let r = v[n - 5] == 'E' && v[n - 4] == 'r' && v[n - 3] == 'r' && v[n - 2] == 'o' && v[n - 1]
        == 'r';
    proof {
        let t = v@.skip(n - 5);
        let e = "Error"@;
        assert(e.len() == 5 && e[0] == 'E' && e[1] == 'r' && e[2] == 'r' && e[3] == 'o' && e[4]
            == 'r');
        if r {
            assert(t =~= e);
        } else if t == e {
            assert(t[0] == e[0] && t[1] == e[1] && t[2] == e[2] && t[3] == e[3] && t[4] == e[4]);
        }
    }
    r
}

/// With no `suffix` key, a struct's selectors take the suffix `Oopsie`, as if
/// `suffix` were written alone, so a struct's selector never has the struct's
/// own name; an enum's variants take no suffix, as with `suffix(false)`. A
/// written key means the same for both kinds: `suffix(true)` is `Oopsie`,
/// `suffix(false)` none, `suffix = "S"` the suffix `S`.
pub proof fn lemma_default_suffix_by_kind(name: Seq<char>)
    ensures
        spec_effective_suffix(None, false) == Some("Oopsie"@),
        spec_effective_suffix(None, false) == spec_effective_suffix(
            Some(MaybeAloneOopsieValue::<String>::Alone),
            false,
        ),
        spec_effective_suffix(None, true) is None,
        spec_effective_suffix(None, true) == spec_effective_suffix(
            Some(MaybeAloneOopsieValue::<String>::Bool(false)),
            true,
        ),
        selector_base(name, spec_effective_suffix(None, false)) == strip_error_nonempty(unraw(name))
            + "Oopsie"@,
        selector_base(name, spec_effective_suffix(None, false)).len() > unraw(name).len(),
        selector_base(name, spec_effective_suffix(None, true)) == strip_error_nonempty(unraw(name)),
        forall|key: MaybeAloneOopsieValue<String>| #[trigger]
            spec_effective_suffix(Some(key), true) == spec_effective_suffix(Some(key), false),
        forall|is_enum: bool| #[trigger]
            spec_effective_suffix(Some(MaybeAloneOopsieValue::<String>::Bool(true)), is_enum) == Some(
                "Oopsie"@,
            ),
        forall|is_enum: bool| #[trigger]
            spec_effective_suffix(Some(MaybeAloneOopsieValue::<String>::Bool(false)), is_enum) is None,
        forall|t: String, is_enum: bool| #[trigger]
            spec_effective_suffix(Some(MaybeAloneOopsieValue::Value(t)), is_enum) == Some(t@),
{
    reveal_strlit("Oopsie");
    let u = unraw(name);
    assert(strip_error_nonempty(u).len() + 5 >= u.len());
}

/// The selector name for a variant or type named `base` under `suffix`:
/// the name (raw prefix dropped) with a trailing `Error` stripped unless
/// it is the whole name, the suffix appended, written raw when it is a
/// keyword.
pub fn selector_name(base: &str, suffix: &SuffixSetting) -> (r: Result<GenIdent, ReservedName>)
    ensures
        ({
            let name = selector_base(base@, crate::flags::suffix_view(*suffix));
            match spec_ident_maybe_raw(name) {
                Some(raw) => r matches Ok(id) && id.name@ == name && id.raw == raw,
                None => r matches Err(e) && e.name@ == name,
            }
        }),
{
    let v = unraw_chars(chars_of(base));
    let n = v.len();
    let stem = if ends_with_error_chars(&v) && n > 5 {
        string_from_chars(&v, 0, n - 5)
    } else {
        string_from_chars(&v, 0, n)
    };
    assert(v@.subrange(0, n as int) =~= v@);
    let mut name = stem;
    match suffix {
        SuffixSetting::Off => {},
        SuffixSetting::Custom(s) => push_str(&mut name, s.as_str()),
    }
    assert(name@ =~= selector_base(base@, crate::flags::suffix_view(*suffix)));
    ident_maybe_raw(name)
}

/// What `convert_case` makes of `s` in snake case.
pub uninterp spec fn snake_case(s: Seq<char>) -> Seq<char>;

/// `s` in snake case (`convert_case`'s `Casing::to_case` with `Case::Snake`).
#[verifier::external_body]
fn to_snake_case(s: &str) -> (r: String)
    ensures
        r@ == snake_case(s@),
{
    s.to_case(convert_case::Case::Snake)
}

/// The default name of the module wrapping a type's selectors: the type
/// name (raw prefix dropped, trailing `Error` stripped) in snake case,
/// then `_` and the suffix (the manifest's, else `oopsies`); just the
/// suffix when nothing of the name is left.
pub open spec fn spec_module_name(type_ident: Seq<char>, suffix: Option<Seq<char>>) -> Seq<char> {
    let snake = snake_case(strip_error(unraw(type_ident)));
    let tail = match suffix {
        Some(s) => s,
        None => "oopsies"@,
    };
    if snake.len() == 0 {
        tail
    } else {
        snake + "_"@ + tail
    }
}

/// Only a trailing `Error` is dropped from the default module name: for a
/// type name `t` (without a raw prefix) that does not end in `Error`, the
/// name is `t` in snake case, then `_` and the suffix; `t` followed by `Error`
/// gets that same name; a raw prefix `r#` changes nothing.
pub proof fn lemma_module_name_keeps_the_stem(t: Seq<char>, suffix: Option<Seq<char>>)
    requires
        !(t.len() >= 2 && t[0] == 'r' && t[1] == '#'),
        !(t.len() >= 5 && t.skip(t.len() - 5) == "Error"@),
    ensures
        spec_module_name(t, suffix) == ({
            let tail = match suffix {
                Some(x) => x,
                None => "oopsies"@,
            };
            if snake_case(t).len() == 0 {
                tail
            } else {
                snake_case(t) + "_"@ + tail
            }
        }),
        spec_module_name(t + "Error"@, suffix) == spec_module_name(t, suffix),
        spec_module_name(seq!['r', '#'] + t, suffix) == spec_module_name(t, suffix),
{
    reveal_strlit("Error");
    let e = t + "Error"@;
    assert(e.len() == t.len() + 5);
    assert(unraw(e) == e) by {
        if e.len() >= 2 && e[0] == 'r' && e[1] == '#' {
            if t.len() == 0 {
                assert(e[0] == 'E');
            } else if t.len() == 1 {
                assert(e[1] == 'E');
            } else {
                assert(t[0] == e[0] && t[1] == e[1]);
            }
        }
    }
    assert(e.skip(e.len() - 5) =~= "Error"@);
    assert(e.take(e.len() - 5) =~= t);
    let r = seq!['r', '#'] + t;
    assert(r.skip(2) =~= t);
}

/// The module name: `custom` when given, else the default name.
pub fn module_name(type_ident: &str, custom: Option<&String>, manifest_suffix: Option<&String>) -> (r: String)
    ensures
        match custom {
            Some(c) => r@ == c@,
            None => r@ == spec_module_name(type_ident@, match manifest_suffix {
                Some(s) => Some(s@),
                None => None,
            }),
        },
{
    if let Some(c) = custom {
        return c.clone();
    }
    let v = unraw_chars(chars_of(type_ident));
    let n = v.len();
    let stem = if ends_with_error_chars(&v) {
        string_from_chars(&v, 0, n - 5)
    } else {
        string_from_chars(&v, 0, n)
    };
    assert(v@.subrange(0, n as int) =~= v@);
    let snake = to_snake_case(stem.as_str());
    module_name_from_snake(snake, manifest_suffix)
}

/// The default module name from the snake-cased stem: `snake`, then `_`
/// and the suffix (the manifest's, else `oopsies`); just the suffix when
/// `snake` is empty.
pub fn module_name_from_snake(snake: String, manifest_suffix: Option<&String>) -> (r: String)
    ensures
        ({
            let tail = match manifest_suffix {
                Some(s) => s@,
                None => "oopsies"@,
            };
            r@ == if snake@.len() == 0 {
                tail
            } else {
                snake@ + "_"@ + tail
            }
        }),
{
    let mut name = snake;
    let ghost stem = name@;
    if name.as_str().unicode_len() > 0 {
        push_str(&mut name, "_");
    }
    match manifest_suffix {
        Some(s) => push_str(&mut name, s.as_str()),
        None => push_str(&mut name, "oopsies"),
    }
    proof {
        if stem.len() == 0 {
            assert(stem =~= Seq::<char>::empty());
        }
    }
    name
}

} // verus!

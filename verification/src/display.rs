//! Display attributes: the static-literal path of a format string and the
//! rejection of `#[oopsie(...)]` keywords swallowed as display arguments.
use vstd::prelude::*;

use crate::chars::{
    byte_len, byte_offset, chars_of, lemma_byte_offset_monotone, push_char, char_utf8_width,
};
use crate::format_str::{
    at, spec_run, with_pos, CharClass, ScanErr, ScanState, initial_state, spec_scan,
};

verus! {

/// Whether `s[i..]` holds an unescaped `{`, treating `{{` as an escape.
pub open spec fn placeholder_from(s: Seq<char>, i: int) -> bool
    decreases s.len() - i,
{
    if !(0 <= i < s.len()) {
        false
    } else if s[i] == '{' {
        if at(s, i + 1, '{') {
            placeholder_from(s, i + 2)
        } else {
            true
        }
    } else {
        placeholder_from(s, i + 1)
    }
}

/// Char index of the first `}` in `s[i..]` that is not part of a `}}` escape.
pub open spec fn unmatched_close_from(s: Seq<char>, i: int) -> Option<int>
    decreases s.len() - i,
{
    if !(0 <= i < s.len()) {
        None
    } else if s[i] == '}' {
        if at(s, i + 1, '}') {
            unmatched_close_from(s, i + 2)
        } else {
            Some(i)
        }
    } else {
        unmatched_close_from(s, i + 1)
    }
}

/// `s[i..]` with `{{` collapsed to `{` and `}}` to `}`, given whether the
/// character before `i` was the first brace of an open or a close pair.
pub open spec fn unescape_from(s: Seq<char>, i: int, after_open: bool, after_close: bool) -> Seq<
    char,
>
    decreases s.len() - i,
{
    if !(0 <= i < s.len()) {
        Seq::empty()
    } else {
        let c = s[i];
        if c == '{' && after_open {
            unescape_from(s, i + 1, false, after_close)
        } else if c == '{' {
            seq![c] + unescape_from(s, i + 1, true, false)
        } else if c == '}' && after_close {
            unescape_from(s, i + 1, after_open, false)
        } else if c == '}' {
            seq![c] + unescape_from(s, i + 1, false, true)
        } else {
            seq![c] + unescape_from(s, i + 1, false, false)
        }
    }
}

pub open spec fn unescape(s: Seq<char>) -> Seq<char> {
    unescape_from(s, 0, false, false)
}

/// `t` with every `{` written `{{` and every `}` written `}}`: how a literal
/// text is escaped for a format string.
pub open spec fn double_braces(t: Seq<char>) -> Seq<char>
    decreases t.len(),
{
    if t.len() == 0 {
        Seq::empty()
    } else if t[0] == '{' || t[0] == '}' {
        seq![t[0], t[0]] + double_braces(t.drop_first())
    } else {
        seq![t[0]] + double_braces(t.drop_first())
    }
}

proof fn lemma_unescape_doubled_from(t: Seq<char>, s: Seq<char>, i: int)
    requires
        0 <= i <= s.len(),
        s.subrange(i, s.len() as int) == double_braces(t),
    ensures
        unescape_from(s, i, false, false) == t,
    decreases t.len(),
{
    let tail = s.subrange(i, s.len() as int);
    if t.len() == 0 {
        assert(tail.len() == 0);
        assert(t =~= Seq::<char>::empty());
    } else {
        let c = t[0];
        let rest = t.drop_first();
        if c == '{' || c == '}' {
            assert(tail =~= seq![c, c] + double_braces(rest));
            assert(s[i] == c && s[i + 1] == c) by {
                assert(tail[0] == s[i] && tail[1] == s[i + 1]);
            }
            assert(s.subrange(i + 2, s.len() as int) =~= tail.subrange(2, tail.len() as int));
            assert(tail.subrange(2, tail.len() as int) =~= double_braces(rest));
            lemma_unescape_doubled_from(rest, s, i + 2);
            if c == '{' {
                assert(unescape_from(s, i + 1, true, false) == unescape_from(s, i + 2, false, false));
            } else {
                assert(unescape_from(s, i + 1, false, true) == unescape_from(s, i + 2, false, false));
            }
            assert(unescape_from(s, i, false, false) =~= seq![c] + rest);
        } else {
            assert(tail =~= seq![c] + double_braces(rest));
            assert(s[i] == c) by {
                assert(tail[0] == s[i]);
            }
            assert(s.subrange(i + 1, s.len() as int) =~= tail.subrange(1, tail.len() as int));
            assert(tail.subrange(1, tail.len() as int) =~= double_braces(rest));
            lemma_unescape_doubled_from(rest, s, i + 1);
            assert(unescape_from(s, i, false, false) =~= seq![c] + rest);
        }
        assert(t =~= seq![c] + rest);
    }
}

/// Collapsing brace escapes undoes doubling them: for every text `t`,
/// unescaping `t` with each brace doubled gives `t` back.
pub proof fn lemma_unescape_undoes_doubling(t: Seq<char>)
    ensures
        unescape(double_braces(t)) == t,
{
    let s = double_braces(t);
    assert(s.subrange(0, s.len() as int) =~= s);
    lemma_unescape_doubled_from(t, s, 0);
}

/// Whether a format string contains a real `{…}` placeholder, treating `{{` as
/// an escape: a placeholder is opened only by an unescaped `{`.
pub fn format_str_has_placeholder(s: &str) -> (r: bool)
    ensures
        r == placeholder_from(s@, 0),
{
    let v = chars_of(s);
    let mut i: usize = 0;
    while i < v.len()
        invariant
            v@ == s@,
            i <= v.len() + 1,
            placeholder_from(s@, 0) == placeholder_from(s@, i as int),
        decreases v.len() + 1 - i,
    {
        if v[i] == '{' {
            if i + 1 < v.len() && v[i + 1] == '{' {
                i = i + 2;
            } else {
                return true;
            }
        } else {
            i = i + 1;
        }
    }
    false
}

/// Byte position of the first unmatched `}` (a `}` not part of a `}}` escape),
/// or `None` if every `}` is escaped.
pub fn unmatched_close_brace(s: &str) -> (r: Option<usize>)
    requires
        byte_len(s@) <= usize::MAX,
    ensures
        r == (match unmatched_close_from(s@, 0) {
            Some(i) => Some(byte_offset(s@, i) as usize),
            None => None::<usize>,
        }),
{
    let v = chars_of(s);
    let mut i: usize = 0;
    let mut byte: usize = 0;
    while i < v.len()
        invariant
            v@ == s@,
            byte_len(s@) <= usize::MAX,
            i <= v.len() + 1,
            i <= v.len() ==> byte as int == byte_offset(s@, i as int),
            unmatched_close_from(s@, 0) == unmatched_close_from(s@, i as int),
        decreases v.len() + 1 - i,
    {
        proof {
            lemma_byte_offset_monotone(s@, i + 1, s@.len() as int);
        }
        if v[i] == '}' {
            if i + 1 < v.len() && v[i + 1] == '}' {
                proof {
                    lemma_byte_offset_monotone(s@, i + 2, s@.len() as int);
                }
                byte = byte + 2;
                i = i + 2;
            } else {
                return Some(byte);
            }
        } else {
            byte = byte + char_utf8_width(v[i]);
            i = i + 1;
        }
    }
    None
}

/// Collapse `{{`→`{` and `}}`→`}` in place, mirroring the literal pieces of
/// rustc's format parser.
pub fn unescape_format_braces(s: &mut String)
    ensures
        final(s)@ == unescape(old(s)@),
{
    let v = chars_of(s.as_str());
    let mut out = String::new();
    let mut after_open = false;
    let mut after_close = false;
    let mut i: usize = 0;
    while i < v.len()
        invariant
            v@ == old(s)@,
            i <= v.len(),
            out@ + unescape_from(v@, i as int, after_open, after_close) == unescape(v@),
        decreases v.len() - i,
    {
        let c = v[i];
        let ghost rest = unescape_from(v@, i + 1, false, false);
        if c == '{' && after_open {
            after_open = false;
        } else if c == '{' {
            push_char(&mut out, c);
            after_open = true;
            after_close = false;
        } else if c == '}' && after_close {
            after_close = false;
        } else if c == '}' {
            push_char(&mut out, c);
            after_close = true;
            after_open = false;
        } else {
            push_char(&mut out, c);
            after_open = false;
            after_close = false;
        }
        i = i + 1;
        assert(out@ + unescape_from(v@, i as int, after_open, after_close) =~= unescape(v@));
    }
    assert(out@ =~= unescape(v@));
    *s = out;
}

/// A display argument, as far as keyword rejection reads it: the ident when the
/// argument is a bare single-segment path, `None` for any richer expression.
#[derive(Debug, Clone)]
pub struct DisplayArg {
    pub bare_ident: Option<String>,
}

/// A `display(...)` / `help(...)` body: a format string followed by its
/// arguments.
#[derive(Debug, Clone)]
pub struct DisplayAttr {
    pub format_str: String,
    pub args: Vec<DisplayArg>,
}

/// Which `#[oopsie(...)]` keyword set a short display attaches to: an enum
/// variant accepts only variant keywords, a struct's single list mixes
/// container and variant keys.
#[derive(Clone, Copy, Debug, PartialEq, Eq)]
pub enum DisplayScope {
    Variant,
    Struct,
}

/// `#[oopsie(...)]` keywords accepted on a variant or struct.
pub open spec fn variant_keywords() -> Seq<Seq<char>> {
    seq![
        "display"@, "transparent"@, "help"@, "code"@, "exit_code"@, "provide"@,
    ]
}

/// Container-only keywords, valid on a struct's list but never on a variant.
pub open spec fn container_keywords() -> Seq<Seq<char>> {
    seq!["module"@, "suffix"@, "size"@, "path"@, "vis"@, "exit_code"@]
}

pub open spec fn spec_is_keyword(scope: DisplayScope, ident: Seq<char>) -> bool {
    match scope {
        DisplayScope::Variant => variant_keywords().contains(ident),
        DisplayScope::Struct => variant_keywords().contains(ident) || container_keywords().contains(
            ident,
        ),
    }
}

fn str_is(s: &Vec<char>, lit: &str) -> (r: bool)
    ensures
        r == (s@ == lit@),
{
    let l = chars_of(lit);
    crate::chars::chars_eq(s, &l)
}

fn in_variant_keywords(s: &Vec<char>) -> (r: bool)
    ensures
        r == variant_keywords().contains(s@),
{
    proof {
        reveal_strlit("display");
        reveal_strlit("transparent");
        reveal_strlit("help");
        reveal_strlit("code");
        reveal_strlit("exit_code");
        reveal_strlit("provide");
    }
    let r = str_is(s, "display") || str_is(s, "transparent") || str_is(s, "help") || str_is(
        s,
        "code",
    ) || str_is(s, "exit_code") || str_is(s, "provide");
    proof {
        let k = variant_keywords();
        if r {
            if s@ == "display"@ { assert(k[0] == s@); }
            if s@ == "transparent"@ { assert(k[1] == s@); }
            if s@ == "help"@ { assert(k[2] == s@); }
            if s@ == "code"@ { assert(k[3] == s@); }
            if s@ == "exit_code"@ { assert(k[4] == s@); }
            if s@ == "provide"@ { assert(k[5] == s@); }
        } else {
            assert forall|j: int| 0 <= j < k.len() implies k[j] != s@ by {}
        }
    }
    r
}

fn in_container_keywords(s: &Vec<char>) -> (r: bool)
    ensures
        r == container_keywords().contains(s@),
{
    proof {
        reveal_strlit("module");
        reveal_strlit("suffix");
        reveal_strlit("size");
        reveal_strlit("path");
        reveal_strlit("vis");
        reveal_strlit("exit_code");
    }
    let r = str_is(s, "module") || str_is(s, "suffix") || str_is(s, "size") || str_is(s, "path")
        || str_is(s, "vis") || str_is(s, "exit_code");
    proof {
        let k = container_keywords();
        if r {
            if s@ == "module"@ { assert(k[0] == s@); }
            if s@ == "suffix"@ { assert(k[1] == s@); }
            if s@ == "size"@ { assert(k[2] == s@); }
            if s@ == "path"@ { assert(k[3] == s@); }
            if s@ == "vis"@ { assert(k[4] == s@); }
            if s@ == "exit_code"@ { assert(k[5] == s@); }
        } else {
            assert forall|j: int| 0 <= j < k.len() implies k[j] != s@ by {}
        }
    }
    r
}

impl DisplayScope {
    /// Whether `ident` is an `#[oopsie(...)]` keyword in this scope.
    pub fn is_keyword(self, ident: &str) -> (r: bool)
        ensures
            r == spec_is_keyword(self, ident@),
    {
        let v = chars_of(ident);
        match self {
            DisplayScope::Variant => in_variant_keywords(&v),
            DisplayScope::Struct => in_variant_keywords(&v) || in_container_keywords(&v),
        }
    }
}

pub open spec fn names_of(fields: Seq<String>) -> Seq<Seq<char>> {
    fields.map_values(|f: String| f@)
}

/// Whether argument `a` is a keyword swallowed as a display argument: a bare
/// ident that is a keyword of `scope` and not a field of the item.
pub open spec fn is_misparsed_keyword(a: DisplayArg, fields: Seq<Seq<char>>, scope: DisplayScope) -> bool {
    match a.bare_ident {
        Some(id) => !fields.contains(id@) && spec_is_keyword(scope, id@),
        None => false,
    }
}

/// The index of the first misparsed keyword argument among `args[from..]`.
pub open spec fn first_misparsed(
    args: Seq<DisplayArg>,
    fields: Seq<Seq<char>>,
    scope: DisplayScope,
    from: int,
) -> Option<int>
    decreases args.len() - from,
{
    if !(0 <= from < args.len()) {
        None
    } else if is_misparsed_keyword(args[from], fields, scope) {
        Some(from)
    } else {
        first_misparsed(args, fields, scope, from + 1)
    }
}

fn contains_name(fields: &Vec<String>, name: &String) -> (r: bool)
    ensures
        r == names_of(fields@).contains(name@),
{
    let target = chars_of(name.as_str());
    let mut i: usize = 0;
    while i < fields.len()
        invariant
            i <= fields.len(),
            target@ == name@,
            forall|k: int| 0 <= k < i ==> fields@[k]@ != name@,
        decreases fields.len() - i,
    {
        let f = chars_of(fields[i].as_str());
        if crate::chars::chars_eq(&f, &target) {
            assert(names_of(fields@)[i as int] == name@);
            return true;
        }
        i = i + 1;
    }
    assert forall|k: int| 0 <= k < names_of(fields@).len() implies names_of(fields@)[k] != name@ by {}
    false
}

impl DisplayAttr {
    /// Reject a trailing display arg that is actually a misparsed `#[oopsie(...)]`
    /// keyword: an arg is flagged only when it is a bare single ident matching a
    /// keyword for `scope` and is not one of the item's `field_names` (a field
    /// of that name is a legitimate interpolation argument). The error is the
    /// offending keyword.
    pub fn reject_keyword_args(&self, field_names: &Vec<String>, scope: DisplayScope) -> (r: Result<
        (),
        String,
    >)
        ensures
            match first_misparsed(self.args@, names_of(field_names@), scope, 0) {
                None => r is Ok,
                Some(k) => r matches Err(id) && self.args@[k].bare_ident == Some(id),
            },
    {
        let mut i: usize = 0;
        while i < self.args.len()
            invariant
                i <= self.args.len(),
                first_misparsed(self.args@, names_of(field_names@), scope, 0) == first_misparsed(
                    self.args@,
                    names_of(field_names@),
                    scope,
                    i as int,
                ),
            decreases self.args.len() - i,
        {
            match &self.args[i].bare_ident {
                Some(ident) => {
                    if !contains_name(field_names, ident) && scope.is_keyword(ident.as_str()) {
                        return Err(ident.clone());
                    }
                },
                None => {},
            }
            i = i + 1;
        }
        Ok(())
    }

    /// Whether this renders to a literal rather than a `format!`: true iff there
    /// are no explicit arguments and the format string has no placeholder.
    pub fn is_static(&self) -> (r: bool)
        ensures
            r == (self.args.len() == 0 && !placeholder_from(self.format_str@, 0)),
    {
        self.args.len() == 0 && !format_str_has_placeholder(self.format_str.as_str())
    }

    /// The literal to emit on the static path: the format string with `{{` and
    /// `}}` collapsed. An unmatched `}` is an error carrying its byte position.
    pub fn static_lit(&self) -> (r: Result<String, usize>)
        requires
            byte_len(self.format_str@) <= usize::MAX,
        ensures
            match unmatched_close_from(self.format_str@, 0) {
                Some(i) => r == Err::<String, usize>(byte_offset(self.format_str@, i) as usize),
                None => r matches Ok(lit) && lit@ == unescape(self.format_str@),
            },
    {
        match unmatched_close_brace(self.format_str.as_str()) {
            Some(pos) => Err(pos),
            None => {
                let mut value = self.format_str.clone();
                unescape_format_braces(&mut value);
                Ok(value)
            },
        }
    }
}

// ─── The short display form ──────────────────────────────────────────

/// One attribute of an item, as the short-display pre-pass sees it: not an
/// `oopsie` attribute, an `oopsie` attribute whose body starts with a string
/// (the short display `#[oopsie("fmt {}", arg)]`), or any other `oopsie`
/// attribute.
#[derive(Debug, Clone)]
pub enum AttrBody {
    NotOopsie,
    Short(DisplayAttr),
    Other,
}

/// Why a short display was refused.
#[derive(Debug, Clone, Copy, PartialEq, Eq)]
pub enum ShortDisplayError {
    /// A second short display, at the attribute with this index.
    Second(usize),
    /// A short display beside a `display(...)` key.
    Duplicate,
}

pub open spec fn short_display_text(e: ShortDisplayError) -> Seq<char> {
    match e {
        ShortDisplayError::Second(_) => "at most one short-display form per item; use `display(...)` if combining"@,
        ShortDisplayError::Duplicate => "duplicate display: short form and `display(...)` cannot both be specified"@,
    }
}

impl ShortDisplayError {
    pub fn message(self) -> (r: &'static str)
        ensures
            r@ == short_display_text(self),
    {
        match self {
            ShortDisplayError::Second(_) => "at most one short-display form per item; use `display(...)` if combining",
            ShortDisplayError::Duplicate => "duplicate display: short form and `display(...)` cannot both be specified",
        }
    }
}

/// The indices of the short displays among `attrs[..n]`, in order.
pub open spec fn short_indices(attrs: Seq<AttrBody>, n: int) -> Seq<usize>
    decreases n,
{
    if n <= 0 {
        Seq::empty()
    } else if attrs[n - 1] is Short {
        short_indices(attrs, n - 1).push((n - 1) as usize)
    } else {
        short_indices(attrs, n - 1)
    }
}

/// The indices of the attributes among `attrs[..n]` that are not short
/// displays, in order.
pub open spec fn kept_indices(attrs: Seq<AttrBody>, n: int) -> Seq<usize>
    decreases n,
{
    if n <= 0 {
        Seq::empty()
    } else if attrs[n - 1] is Short {
        kept_indices(attrs, n - 1)
    } else {
        kept_indices(attrs, n - 1).push((n - 1) as usize)
    }
}

/// Take the short display out of an item's attributes: the display, if
/// any, and the indices of the attributes left for the key parser. A second
/// short display is refused at its attribute.
pub fn extract_short_display(attrs: Vec<AttrBody>) -> (r: Result<(Option<DisplayAttr>, Vec<usize>), ShortDisplayError>)
    ensures
        ({
            let sh = short_indices(attrs@, attrs@.len() as int);
            if sh.len() >= 2 {
                r == Err::<(Option<DisplayAttr>, Vec<usize>), ShortDisplayError>(ShortDisplayError::Second(sh[1]))
            } else if sh.len() == 1 {
                r matches Ok((Some(d), kept)) && attrs@[sh[0] as int] == AttrBody::Short(d)
                    && kept@ == kept_indices(attrs@, attrs@.len() as int)
            } else {
                r matches Ok((None, kept)) && kept@ == kept_indices(attrs@, attrs@.len() as int)
            }
        }),
{
    let ghost all = attrs@;
    let n = attrs.len();
    let mut rest = attrs;
    let mut display: Option<DisplayAttr> = None;
    let mut kept: Vec<usize> = Vec::new();
    let mut i: usize = 0;
    while i < n
        invariant
            all == attrs@,
            n == all.len(),
            i <= n,
            rest@ == all.subrange(i as int, n as int),
            kept@ == kept_indices(all, i as int),
            short_indices(all, i as int).len() <= 1,
            match display {
                Some(d) => short_indices(all, i as int).len() == 1 && all[short_indices(all, i as int)[0] as int]
                    == AttrBody::Short(d),
                None => short_indices(all, i as int).len() == 0,
            },
        decreases n - i,
    {
        let a = rest.remove(0);
        assert(a == all[i as int]);
        match a {
            AttrBody::Short(d) => {
                if display.is_some() {
                    proof {
                        assert(all[i as int] is Short);
                        assert(short_indices(all, i + 1) == short_indices(all, i as int).push(i));
                        assert(short_indices(all, i + 1)[1] == i);
                        lemma_short_prefix(all, i as int + 1, n as int);
                    }
                    return Err(ShortDisplayError::Second(i));
                }
                display = Some(d);
            },
            _ => {
                kept.push(i);
            },
        }
        i = i + 1;
        assert(rest@ =~= all.subrange(i as int, n as int));
    }
    Ok((display, kept))
}

/// A prefix's short displays start the whole list's.
proof fn lemma_short_prefix(attrs: Seq<AttrBody>, m: int, n: int)
    requires
        0 <= m <= n <= attrs.len(),
    ensures
        short_indices(attrs, m).len() <= short_indices(attrs, n).len(),
        forall|k: int| 0 <= k < short_indices(attrs, m).len() ==> short_indices(attrs, n)[k] == short_indices(attrs, m)[k],
    decreases n - m,
{
    if m < n {
        lemma_short_prefix(attrs, m, n - 1);
    }
}

/// Put a short display into the display slot, refusing one the slot
/// already holds from a `display(...)` key.
pub fn merge_short_display(target: Option<DisplayAttr>, short: DisplayAttr) -> (r: Result<DisplayAttr, ShortDisplayError>)
    ensures
        target is Some ==> r == Err::<DisplayAttr, ShortDisplayError>(ShortDisplayError::Duplicate),
        target is None ==> r == Ok::<DisplayAttr, ShortDisplayError>(short),
{
    match target {
        Some(_) => Err(ShortDisplayError::Duplicate),
        None => Ok(short),
    }
}

/// Without a placeholder the scanner only walks escapes and text: it ends at the
/// string's end with the state unchanged, or fails at the first unmatched `}`.
proof fn lemma_run_without_placeholder(s: Seq<char>, cls: Seq<CharClass>, st: ScanState)
    requires
        0 <= st.pos <= s.len(),
        !placeholder_from(s, st.pos),
    ensures
        spec_run(s, cls, st) == (match unmatched_close_from(s, st.pos) {
            None => Ok::<ScanState, ScanErr>(with_pos(st, s.len() as int)),
            Some(j) => Err::<ScanState, ScanErr>(ScanErr::UnmatchedClose(j)),
        }),
    decreases s.len() - st.pos,
{
    if st.pos < s.len() {
        let c = s[st.pos];
        let p = st.pos + 1;
        if c == '{' {
            assert(at(s, p, '{'));
            assert(spec_run(s, cls, st) == spec_run(s, cls, with_pos(st, p + 1)));
            assert(unmatched_close_from(s, st.pos) == unmatched_close_from(s, p + 1));
            lemma_run_without_placeholder(s, cls, with_pos(st, p + 1));
            assert(with_pos(with_pos(st, p + 1), s.len() as int) == with_pos(st, s.len() as int));
        } else if c == '}' {
            if at(s, p, '}') {
                assert(placeholder_from(s, p) == placeholder_from(s, p + 1));
                assert(spec_run(s, cls, st) == spec_run(s, cls, with_pos(st, p + 1)));
                assert(unmatched_close_from(s, st.pos) == unmatched_close_from(s, p + 1));
                lemma_run_without_placeholder(s, cls, with_pos(st, p + 1));
                assert(with_pos(with_pos(st, p + 1), s.len() as int) == with_pos(st, s.len() as int));
            } else {
                assert(spec_run(s, cls, st) == Err::<ScanState, ScanErr>(ScanErr::UnmatchedClose(st.pos)));
            }
        } else {
            assert(placeholder_from(s, st.pos) == placeholder_from(s, p));
            assert(spec_run(s, cls, st) == spec_run(s, cls, with_pos(st, p)));
            assert(unmatched_close_from(s, st.pos) == unmatched_close_from(s, p));
            lemma_run_without_placeholder(s, cls, with_pos(st, p));
            assert(with_pos(with_pos(st, p), s.len() as int) == with_pos(st, s.len() as int));
        }
    } else {
        assert(with_pos(st, s.len() as int) == st);
    }
}

/// A format string without a placeholder consumes no argument, and the format
/// scanner rejects it exactly when the static path does: at its first
/// unmatched `}`. So rendering such a string as a literal agrees with `format!`.
pub proof fn lemma_static_path_agrees_with_scanner(s: Seq<char>, cls: Seq<CharClass>)
    requires
        !placeholder_from(s, 0),
    ensures
        match unmatched_close_from(s, 0) {
            None => spec_scan(s, cls) matches Ok(st) && st.positional == 0 && st.names.len() == 0,
            Some(j) => spec_scan(s, cls) == Err::<ScanState, ScanErr>(ScanErr::UnmatchedClose(j)),
        },
{
    lemma_run_without_placeholder(s, cls, initial_state());
}

} // verus!

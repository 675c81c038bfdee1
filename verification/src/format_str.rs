//! A scanner for `format!` strings that reports which arguments the string
//! consumes, accepting and rejecting exactly what rustc's format parser does.
//!
//! The grammar is stated by the spec functions below over the string's
//! characters and each character's identifier class; the executable scanner
//! is proved to follow it step for step.
use vstd::prelude::*;

use crate::chars::{
    byte_len, byte_offset, char_is_ws, char_utf8_width, chars_eq, chars_of, is_ascii_digit, is_ws,
    lemma_byte_offset_monotone, string_from_chars,
};

verus! {

/// The identifier classes of one character.
#[derive(Clone, Copy, Debug)]
pub struct CharClass {
    pub xid_start: bool,
    pub xid_continue: bool,
}

/// The Unicode `XID_Start` property, as `unicode_ident::is_xid_start` computes it.
pub uninterp spec fn xid_start(c: char) -> bool;

/// The Unicode `XID_Continue` property, as `unicode_ident::is_xid_continue` computes it.
pub uninterp spec fn xid_continue(c: char) -> bool;

/// `unicode_ident::is_xid_start`: whether `c` has the Unicode property
/// `XID_Start`. Its result is taken as the value of `xid_start(c)`.
#[verifier::external_body]
fn unicode_xid_start(c: char) -> (r: bool)
    ensures
        r == xid_start(c),
{
    unicode_ident::is_xid_start(c)
}

/// `unicode_ident::is_xid_continue`: whether `c` has the Unicode property
/// `XID_Continue`. Its result is taken as the value of `xid_continue(c)`.
#[verifier::external_body]
fn unicode_xid_continue(c: char) -> (r: bool)
    ensures
        r == xid_continue(c),
{
    unicode_ident::is_xid_continue(c)
}

pub open spec fn class_of(c: char) -> CharClass {
    CharClass { xid_start: xid_start(c), xid_continue: xid_continue(c) }
}

pub open spec fn classes_of(s: Seq<char>) -> Seq<CharClass> {
    s.map_values(|c: char| class_of(c))
}

/// The identifier classes of `c`.
pub fn char_class(c: char) -> (r: CharClass)
    ensures
        r == class_of(c),
{
    CharClass { xid_start: unicode_xid_start(c), xid_continue: unicode_xid_continue(c) }
}

/// The arguments a format string consumes.
#[derive(Debug, Clone, PartialEq, Eq)]
pub struct FormatArgUsage {
    /// Positional arguments consumed: one past the highest index referenced
    /// by an implicit `{}`, an explicit `{i}`, a `.*` precision or an `i$` count.
    pub positional: usize,
    /// Names referenced as `{name…}` or as a `name$` count, in order of
    /// appearance, possibly repeated.
    pub names: Vec<String>,
}

pub open spec fn names_view(names: Seq<String>) -> Seq<Seq<char>> {
    names.map_values(|n: String| n@)
}

impl FormatArgUsage {
    /// Whether `name` is among the referenced names.
    pub fn references(&self, name: &str) -> (r: bool)
        ensures
            r == names_view(self.names@).contains(name@),
    {
        let target = chars_of(name);
        let mut i: usize = 0;
        while i < self.names.len()
            invariant
                i <= self.names.len(),
                target@ == name@,
                forall|k: int| 0 <= k < i ==> self.names@[k]@ != name@,
            decreases self.names.len() - i,
        {
            let here = chars_of(self.names[i].as_str());
            if chars_eq(&here, &target) {
                assert(names_view(self.names@)[i as int] == name@);
                return true;
            }
            i = i + 1;
        }
        assert forall|k: int| 0 <= k < names_view(self.names@).len() implies names_view(
            self.names@,
        )[k] != name@ by {}
        false
    }

    /// Whether the string consumes no argument at all.
    pub fn is_empty(&self) -> (r: bool)
        ensures
            r == (self.positional == 0 && self.names.len() == 0),
    {
        self.positional == 0 && self.names.len() == 0
    }
}

/// Why a format string is malformed, with the byte offset where parsing failed.
#[derive(Debug, Clone, Copy, PartialEq, Eq)]
pub enum FormatStrError {
    /// A `}` that neither closes a placeholder nor is part of a `}}` escape.
    UnmatchedClose { at: usize },
    /// Any other malformation.
    Malformed { at: usize },
}

// ─── The grammar ─────────────────────────────────────────────────────

/// A scan failure at a character index.
pub enum ScanErr {
    UnmatchedClose(int),
    Malformed(int),
}

/// The scanner's state: the character index it reads next, the next implicit
/// argument index, and the usage found so far.
#[verifier::ext_equal]
pub struct ScanState {
    pub pos: int,
    pub implicit: int,
    pub positional: int,
    pub names: Seq<Seq<char>>,
}

/// What a placeholder refers to: the next implicit argument, an index, or the
/// name in `s[start..end]`.
pub enum SpecPosition {
    Implicit,
    Index(int),
    Name(int, int),
}

pub open spec fn at(s: Seq<char>, i: int, c: char) -> bool {
    0 <= i < s.len() && s[i] == c
}

pub open spec fn with_pos(st: ScanState, p: int) -> ScanState {
    ScanState { pos: p, ..st }
}

pub open spec fn use_index(st: ScanState, k: int) -> ScanState {
    ScanState { positional: if st.positional < k + 1 { k + 1 } else { st.positional }, ..st }
}

pub open spec fn push_name(st: ScanState, name: Seq<char>) -> ScanState {
    ScanState { names: st.names.push(name), ..st }
}

/// The implicit index is taken and advanced.
pub open spec fn take_implicit(st: ScanState) -> ScanState {
    use_index(ScanState { implicit: st.implicit + 1, ..st }, st.implicit)
}

/// End of the run of whitespace starting at `i`.
pub open spec fn ws_end(s: Seq<char>, i: int) -> int
    decreases s.len() - i,
{
    if 0 <= i < s.len() && is_ws(s[i]) {
        ws_end(s, i + 1)
    } else {
        i
    }
}

/// End of the run of ASCII digits starting at `i`.
pub open spec fn digit_end(s: Seq<char>, i: int) -> int
    decreases s.len() - i,
{
    if 0 <= i < s.len() && is_ascii_digit(s[i]) {
        digit_end(s, i + 1)
    } else {
        i
    }
}

/// End of the run of `XID_Continue` characters starting at `i`.
pub open spec fn continue_end(s: Seq<char>, cls: Seq<CharClass>, i: int) -> int
    decreases s.len() - i,
{
    if 0 <= i < s.len() && cls[i].xid_continue {
        continue_end(s, cls, i + 1)
    } else {
        i
    }
}

/// The decimal value of the digits `s[i..j]`.
pub open spec fn digits_value(s: Seq<char>, i: int, j: int) -> int
    decreases j - i,
{
    if j <= i {
        0
    } else {
        digits_value(s, i, j - 1) * 10 + (s[j - 1] as int - '0' as int)
    }
}

/// A run of digits, which must fit a `u16` as rustc requires: its end and value.
pub open spec fn spec_integer(s: Seq<char>, i: int) -> Result<Option<(int, int)>, ScanErr> {
    let e = digit_end(s, i);
    if e == i {
        Ok(None)
    } else if digits_value(s, i, e) <= 65535 {
        Ok(Some((e, digits_value(s, i, e))))
    } else {
        Err(ScanErr::Malformed(i))
    }
}

pub open spec fn id_start(s: Seq<char>, cls: Seq<CharClass>, i: int) -> bool {
    0 <= i < s.len() && (s[i] == '_' || cls[i].xid_start)
}

/// An identifier or keyword starting at `i`: its end (`i` itself when none
/// starts there). A lone `_` is malformed.
pub open spec fn spec_word(s: Seq<char>, cls: Seq<CharClass>, i: int) -> Result<int, ScanErr> {
    if !id_start(s, cls, i) {
        Ok(i)
    } else {
        let e = continue_end(s, cls, i + 1);
        if e == i + 1 && s[i] == '_' {
            Err(ScanErr::Malformed(i))
        } else {
            Ok(e)
        }
    }
}

/// A width or precision count: an integer (an argument index when `$`
/// follows), or a name followed by `$`; a name without `$` is not consumed.
pub open spec fn spec_count(s: Seq<char>, cls: Seq<CharClass>, st: ScanState) -> Result<
    ScanState,
    ScanErr,
> {
    match spec_integer(s, st.pos) {
        Err(e) => Err(e),
        Ok(Some((e, v))) => if at(s, e, '$') {
            Ok(use_index(with_pos(st, e + 1), v))
        } else {
            Ok(with_pos(st, e))
        },
        Ok(None) => match spec_word(s, cls, st.pos) {
            Err(e) => Err(e),
            Ok(e) => if e == st.pos {
                Ok(st)
            } else if at(s, e, '$') {
                Ok(push_name(with_pos(st, e + 1), s.subrange(st.pos, e)))
            } else {
                Ok(st)
            },
        },
    }
}

pub open spec fn is_align(c: char) -> bool {
    c == '<' || c == '>' || c == '^'
}

/// Index after the optional fill-and-align, sign and `#` flags starting at `p`.
pub open spec fn flags_end(s: Seq<char>, p: int) -> int {
    let p1 = if p + 1 < s.len() && is_align(s[p + 1]) {
        p + 1
    } else {
        p
    };
    let p2 = if 0 <= p1 < s.len() && is_align(s[p1]) {
        p1 + 1
    } else {
        p1
    };
    let p3 = if at(s, p2, '+') || at(s, p2, '-') {
        p2 + 1
    } else {
        p2
    };
    if at(s, p3, '#') {
        p3 + 1
    } else {
        p3
    }
}

/// The width: `0$`, or an optional `0` flag followed by a count.
pub open spec fn spec_width(s: Seq<char>, cls: Seq<CharClass>, st: ScanState) -> Result<
    ScanState,
    ScanErr,
> {
    if at(s, st.pos, '0') && at(s, st.pos + 1, '$') {
        Ok(use_index(with_pos(st, st.pos + 2), 0))
    } else if at(s, st.pos, '0') {
        spec_count(s, cls, with_pos(st, st.pos + 1))
    } else {
        spec_count(s, cls, st)
    }
}

/// The precision: `.*` (taking the next implicit argument), `.` and a count,
/// or nothing.
pub open spec fn spec_precision(s: Seq<char>, cls: Seq<CharClass>, st: ScanState) -> Result<
    ScanState,
    ScanErr,
> {
    if at(s, st.pos, '.') {
        if at(s, st.pos + 1, '*') {
            Ok(take_implicit(with_pos(st, st.pos + 2)))
        } else {
            spec_count(s, cls, with_pos(st, st.pos + 1))
        }
    } else {
        Ok(st)
    }
}

/// The type: `x` or `X` with an optional `?`, a lone `?`, or a word.
pub open spec fn spec_type(s: Seq<char>, cls: Seq<CharClass>, st: ScanState) -> Result<
    ScanState,
    ScanErr,
> {
    if at(s, st.pos, 'x') || at(s, st.pos, 'X') {
        Ok(
            with_pos(
                st,
                if at(s, st.pos + 1, '?') {
                    st.pos + 2
                } else {
                    st.pos + 1
                },
            ),
        )
    } else if at(s, st.pos, '?') {
        Ok(with_pos(st, st.pos + 1))
    } else {
        match spec_word(s, cls, st.pos) {
            Err(e) => Err(e),
            Ok(e) => Ok(with_pos(st, e)),
        }
    }
}

/// The `:fill align sign # 0 width .precision type` part of a placeholder.
pub open spec fn spec_format_spec(s: Seq<char>, cls: Seq<CharClass>, st: ScanState) -> Result<
    ScanState,
    ScanErr,
> {
    if !at(s, st.pos, ':') {
        Ok(st)
    } else {
        match spec_width(s, cls, with_pos(st, flags_end(s, st.pos + 1))) {
            Err(e) => Err(e),
            Ok(w) => match spec_precision(s, cls, w) {
                Err(e) => Err(e),
                Ok(q) => spec_type(s, cls, q),
            },
        }
    }
}

/// The position part of a placeholder: its end and what it refers to.
pub open spec fn spec_position(s: Seq<char>, cls: Seq<CharClass>, i: int) -> Result<
    (int, SpecPosition),
    ScanErr,
> {
    match spec_integer(s, i) {
        Err(e) => Err(e),
        Ok(Some((e, v))) => Ok((e, SpecPosition::Index(v))),
        Ok(None) => match spec_word(s, cls, i) {
            Err(e) => Err(e),
            Ok(e) => if e == i {
                Ok((i, SpecPosition::Implicit))
            } else {
                Ok((e, SpecPosition::Name(i, e)))
            },
        },
    }
}

/// A placeholder after its opening `{`: position, spec, then the closing `}`.
/// A named position is recorded where it appears, before the names of the
/// spec's counts; an implicit position takes its index after the spec's
/// own `.*`, as rustc numbers them.
pub open spec fn spec_argument(s: Seq<char>, cls: Seq<CharClass>, st: ScanState) -> Result<
    ScanState,
    ScanErr,
> {
    match spec_position(s, cls, st.pos) {
        Err(e) => Err(e),
        Ok((p, position)) => match spec_format_spec(
            s,
            cls,
            match position {
                SpecPosition::Name(a, b) => push_name(with_pos(st, ws_end(s, p)), s.subrange(a, b)),
                _ => with_pos(st, ws_end(s, p)),
            },
        ) {
            Err(e) => Err(e),
            Ok(t) => {
                let u = match position {
                    SpecPosition::Implicit => take_implicit(t),
                    SpecPosition::Index(v) => use_index(t, v),
                    SpecPosition::Name(_, _) => t,
                };
                let q = ws_end(s, u.pos);
                if at(s, q, '}') {
                    Ok(with_pos(u, q + 1))
                } else {
                    Err(ScanErr::Malformed(q))
                }
            },
        },
    }
}

/// The whole string from `st.pos` on: literal text, `{{` and `}}` escapes,
/// and placeholders.
pub open spec fn spec_run(s: Seq<char>, cls: Seq<CharClass>, st: ScanState) -> Result<
    ScanState,
    ScanErr,
>
    decreases s.len() - st.pos,
{
    if !(0 <= st.pos < s.len()) {
        Ok(st)
    } else {
        let c = s[st.pos];
        let p = st.pos + 1;
        if c == '{' {
            if at(s, p, '{') {
                spec_run(s, cls, with_pos(st, p + 1))
            } else {
                match spec_argument(s, cls, with_pos(st, p)) {
                    Err(e) => Err(e),
                    Ok(t) => if st.pos < t.pos <= s.len() {
                        spec_run(s, cls, t)
                    } else {
                        Ok(t)
                    },
                }
            }
        } else if c == '}' {
            if at(s, p, '}') {
                spec_run(s, cls, with_pos(st, p + 1))
            } else {
                Err(ScanErr::UnmatchedClose(st.pos))
            }
        } else {
            spec_run(s, cls, with_pos(st, p))
        }
    }
}

pub open spec fn initial_state() -> ScanState {
    ScanState { pos: 0, implicit: 0, positional: 0, names: Seq::empty() }
}

/// The scan of a whole string with the given character classes.
pub open spec fn spec_scan(s: Seq<char>, cls: Seq<CharClass>) -> Result<ScanState, ScanErr> {
    spec_run(s, cls, initial_state())
}

/// A scan failure reported at its byte offset.
pub open spec fn byte_error(s: Seq<char>, e: ScanErr) -> FormatStrError {
    match e {
        ScanErr::UnmatchedClose(i) => FormatStrError::UnmatchedClose { at: byte_offset(s, i) as usize },
        ScanErr::Malformed(i) => FormatStrError::Malformed { at: byte_offset(s, i) as usize },
    }
}

/// `r` is what the scan result `spec` gives for `s`.
pub open spec fn usage_matches(
    s: Seq<char>,
    r: Result<FormatArgUsage, FormatStrError>,
    spec: Result<ScanState, ScanErr>,
) -> bool {
    match spec {
        Ok(st) => match r {
            Ok(u) => u.positional == st.positional && names_view(u.names@) == st.names,
            Err(_) => false,
        },
        Err(e) => r == Err::<FormatArgUsage, FormatStrError>(byte_error(s, e)),
    }
}

// ─── The scanner ─────────────────────────────────────────────────────

/// Scan `s` (an already-unescaped string literal value) as a `format!` string.
pub fn format_arg_usage(s: &str) -> (r: Result<FormatArgUsage, FormatStrError>)
    requires
        byte_len(s@) <= usize::MAX,
    ensures
        usage_matches(s@, r, spec_scan(s@, classes_of(s@))),
{
    let chars = chars_of(s);
    let mut classes: Vec<CharClass> = Vec::new();
    let mut i: usize = 0;
    while i < chars.len()
        invariant
            i <= chars.len(),
            classes@ == classes_of(chars@).take(i as int),
        decreases chars.len() - i,
    {
        classes.push(char_class(chars[i]));
        i = i + 1;
        assert(classes@ =~= classes_of(chars@).take(i as int));
    }
    assert(classes@ =~= classes_of(chars@));
    format_arg_usage_classified(chars, classes)
}

/// Scan the characters `chars`, whose identifier classes are `classes`, as a
/// `format!` string.
pub fn format_arg_usage_classified(chars: Vec<char>, classes: Vec<CharClass>) -> (r: Result<
    FormatArgUsage,
    FormatStrError,
>)
    requires
        chars.len() == classes.len(),
        byte_len(chars@) <= usize::MAX,
    ensures
        usage_matches(chars@, r, spec_scan(chars@, classes@)),
{
    let ghost s = chars@;
    let ghost cls = classes@;
    let mut scanner = Scanner {
        chars,
        classes,
        pos: 0,
        next_implicit: 0,
        usage: FormatArgUsage { positional: 0, names: Vec::new() },
    };
    assert(scanner.state() =~= initial_state());
    let r = scanner.run();
    match r {
        Ok(()) => Ok(scanner.usage),
        Err(e) => Err(e),
    }
}

struct Scanner {
    chars: Vec<char>,
    classes: Vec<CharClass>,
    pos: usize,
    next_implicit: usize,
    usage: FormatArgUsage,
}

/// `r` and the scanner's state after a step are what the step's spec gives.
pub open spec fn step_matches(
    s: Seq<char>,
    r: Result<(), FormatStrError>,
    after: ScanState,
    spec: Result<ScanState, ScanErr>,
) -> bool {
    match spec {
        Ok(st) => r is Ok && after == st,
        Err(e) => r == Err::<(), FormatStrError>(byte_error(s, e)),
    }
}

impl Scanner {
    spec fn s(&self) -> Seq<char> {
        self.chars@
    }

    spec fn cls(&self) -> Seq<CharClass> {
        self.classes@
    }

    spec fn state(&self) -> ScanState {
        ScanState {
            pos: self.pos as int,
            implicit: self.next_implicit as int,
            positional: self.usage.positional as int,
            names: names_view(self.usage.names@),
        }
    }

    spec fn wf(&self) -> bool {
        &&& self.chars.len() == self.classes.len()
        &&& byte_len(self.chars@) <= usize::MAX
        &&& self.pos <= self.chars.len()
        &&& self.next_implicit <= self.pos
    }

    /// The same text, at a (possibly) different state.
    spec fn same_text(&self, other: &Scanner) -> bool {
        self.chars@ == other.chars@ && self.classes@ == other.classes@
    }

    fn peek(&self) -> (r: Option<char>)
        requires
            self.wf(),
        ensures
            r == (if self.pos < self.chars.len() {
                Some(self.chars@[self.pos as int])
            } else {
                None
            }),
    {
        if self.pos < self.chars.len() {
            Some(self.chars[self.pos])
        } else {
            None
        }
    }

    fn peek2(&self) -> (r: Option<char>)
        requires
            self.wf(),
        ensures
            r == (if self.pos + 1 < self.chars.len() {
                Some(self.chars@[self.pos + 1])
            } else {
                None
            }),
    {
        if self.pos < self.chars.len() && self.pos + 1 < self.chars.len() {
            Some(self.chars[self.pos + 1])
        } else {
            None
        }
    }

    fn eat(&mut self, c: char) -> (hit: bool)
        requires
            old(self).wf(),
        ensures
            final(self).wf(),
            final(self).same_text(old(self)),
            hit == at(old(self).s(), old(self).pos as int, c),
            final(self).state() == with_pos(
                old(self).state(),
                if hit {
                    old(self).pos + 1
                } else {
                    old(self).pos as int
                },
            ),
    {
        let hit = self.peek() == Some(c);
        if hit {
            self.pos = self.pos + 1;
        }
        hit
    }

    fn eat_any(&mut self, cs: &[char]) -> (hit: bool)
        requires
            old(self).wf(),
        ensures
            final(self).wf(),
            final(self).same_text(old(self)),
            hit == (old(self).pos < old(self).chars.len() && cs@.contains(
                old(self).s()[old(self).pos as int],
            )),
            final(self).state() == with_pos(
                old(self).state(),
                if hit {
                    old(self).pos + 1
                } else {
                    old(self).pos as int
                },
            ),
    {
        let mut k: usize = 0;
        while k < cs.len()
            invariant
                self.wf(),
                self.same_text(old(self)),
                self.state() == old(self).state(),
                k <= cs.len(),
                forall|j: int|
                    0 <= j < k ==> !at(old(self).s(), old(self).pos as int, #[trigger] cs@[j]),
            decreases cs.len() - k,
        {
            if self.eat(cs[k]) {
                return true;
            }
            k = k + 1;
        }
        assert(self.state() =~= with_pos(old(self).state(), old(self).pos as int));
        false
    }

    fn malformed(&self) -> (e: FormatStrError)
        requires
            self.wf(),
        ensures
            e == byte_error(self.s(), ScanErr::Malformed(self.pos as int)),
    {
        FormatStrError::Malformed { at: byte_offset_of(&self.chars, self.pos) }
    }

    fn run(&mut self) -> (r: Result<(), FormatStrError>)
        requires
            old(self).wf(),
        ensures
            step_matches(old(self).s(), r, final(self).state(), spec_run(old(self).s(), old(self).cls(), old(self).state())),
    {
        let ghost s = self.s();
        let ghost cls = self.cls();
        let ghost goal = spec_run(s, cls, self.state());
        loop
            invariant
                self.wf(),
                self.s() == s,
                self.cls() == cls,
                spec_run(s, cls, self.state()) == goal,
                s == old(self).s(),
                cls == old(self).cls(),
                goal == spec_run(old(self).s(), old(self).cls(), old(self).state()),
            decreases self.chars.len() - self.pos,
        {
            let ghost st = self.state();
            let c = match self.peek() {
                Some(c) => c,
                None => {
                    assert(spec_run(s, cls, st) == Ok::<ScanState, ScanErr>(st));
                    return Ok(());
                },
            };
            let at_pos = self.pos;
            self.pos = self.pos + 1;
            if c == '{' {
                if self.eat('{') {
                } else {
                    match self.argument() {
                        Ok(()) => {},
                        Err(e) => {
                            assert(spec_run(s, cls, st) == spec_argument(s, cls, with_pos(st, st.pos + 1)));
                            return Err(e);
                        },
                    }
                }
            } else if c == '}' {
                if self.eat('}') {
                } else {
                    assert(spec_run(s, cls, st) == Err::<ScanState, ScanErr>(ScanErr::UnmatchedClose(st.pos)));
                    return Err(FormatStrError::UnmatchedClose { at: byte_offset_of(&self.chars, at_pos) });
                }
            }
            assert(spec_run(s, cls, st) == spec_run(s, cls, self.state()));
        }
    }

    fn use_index(&mut self, i: usize)
        requires
            old(self).wf(),
            i < usize::MAX,
        ensures
            final(self).wf(),
            final(self).same_text(old(self)),
            final(self).state() == use_index(old(self).state(), i as int),
    {
        if self.usage.positional < i + 1 {
            self.usage.positional = i + 1;
        }
    }

    fn next_implicit(&mut self) -> (i: usize)
        requires
            old(self).wf(),
            old(self).next_implicit < old(self).pos,
        ensures
            final(self).wf(),
            final(self).same_text(old(self)),
            i == old(self).next_implicit,
            final(self).state() == (ScanState { implicit: old(self).state().implicit + 1, ..old(self).state() }),
    {
        let i = self.next_implicit;
        self.next_implicit = self.next_implicit + 1;
        i
    }

    fn argument(&mut self) -> (r: Result<(), FormatStrError>)
        requires
            old(self).wf(),
            old(self).next_implicit < old(self).pos,
        ensures
            step_matches(old(self).s(), r, final(self).state(), spec_argument(old(self).s(), old(self).cls(), old(self).state())),
            r is Ok ==> final(self).wf() && final(self).same_text(old(self)) && final(self).pos > old(self).pos,
    {
        let ghost st0 = self.state();
        let position = self.position()?;
        self.ws();
        if let Some(Position::Name(start, end)) = position {
            let name = string_from_chars(&self.chars, start, end);
            let ghost before = self.usage.names@;
            self.usage.names.push(name);
            assert(names_view(self.usage.names@) =~= names_view(before).push(
                self.s().subrange(start as int, end as int),
            ));
        }
        self.spec()?;
        match position {
            None => {
                let i = self.next_implicit();
                self.use_index(i);
            },
            Some(Position::Index(i)) => self.use_index(i),
            Some(Position::Name(_, _)) => {},
        }
        self.ws();
        if self.eat('}') {
            Ok(())
        } else {
            Err(self.malformed())
        }
    }

    fn position(&mut self) -> (r: Result<Option<Position>, FormatStrError>)
        requires
            old(self).wf(),
        ensures
            final(self).wf(),
            final(self).same_text(old(self)),
            match spec_position(old(self).s(), old(self).cls(), old(self).pos as int) {
                Ok((p, sp)) => r matches Ok(pp) && final(self).state() == with_pos(old(self).state(), p)
                    && position_matches(pp, sp) && p >= old(self).pos
                    && (sp is Implicit <==> p == old(self).pos),
                Err(e) => r == Err::<Option<Position>, FormatStrError>(byte_error(old(self).s(), e)),
            },
    {
        if let Some(i) = self.integer()? {
            return Ok(Some(Position::Index(i)));
        }
        let start = self.pos;
        let end = self.word()?;
        if end == start {
            Ok(None)
        } else {
            Ok(Some(Position::Name(start, end)))
        }
    }

    fn ws(&mut self)
        requires
            old(self).wf(),
        ensures
            final(self).wf(),
            final(self).same_text(old(self)),
            final(self).state() == with_pos(old(self).state(), ws_end(old(self).s(), old(self).pos as int)),
            final(self).pos >= old(self).pos,
    {
        loop
            invariant
                self.wf(),
                self.same_text(old(self)),
                self.state() == with_pos(old(self).state(), self.pos as int),
                self.pos >= old(self).pos,
                ws_end(old(self).s(), old(self).pos as int) == ws_end(old(self).s(), self.pos as int),
            decreases self.chars.len() - self.pos,
        {
            match self.peek() {
                Some(c) => {
                    if char_is_ws(c) {
                        self.pos = self.pos + 1;
                    } else {
                        return;
                    }
                },
                None => {
                    return;
                },
            }
        }
    }

    fn spec(&mut self) -> (r: Result<(), FormatStrError>)
        requires
            old(self).wf(),
        ensures
            step_matches(old(self).s(), r, final(self).state(), spec_format_spec(old(self).s(), old(self).cls(), old(self).state())),
            r is Ok ==> final(self).wf() && final(self).same_text(old(self)) && final(self).pos >= old(self).pos
                && (old(self).next_implicit < old(self).pos ==> final(self).next_implicit < final(self).pos),
    {
        if !self.eat(':') {
            return Ok(());
        }
        self.flags();
        self.width()?;
        self.precision()?;
        self.type_word()
    }

    /// Fill-and-align, sign and `#`.
    fn flags(&mut self)
        requires
            old(self).wf(),
        ensures
            final(self).wf(),
            final(self).same_text(old(self)),
            final(self).state() == with_pos(old(self).state(), flags_end(old(self).s(), old(self).pos as int)),
    {
        if let (Some(_fill), Some(second)) = (self.peek(), self.peek2()) {
            if second == '<' || second == '>' || second == '^' {
                self.pos = self.pos + 1;
            }
        }
        self.eat_any(&['<', '>', '^']);
        self.eat_any(&['+', '-']);
        self.eat('#');
    }

    fn width(&mut self) -> (r: Result<(), FormatStrError>)
        requires
            old(self).wf(),
        ensures
            step_matches(old(self).s(), r, final(self).state(), spec_width(old(self).s(), old(self).cls(), old(self).state())),
            r is Ok ==> final(self).wf() && final(self).same_text(old(self)) && final(self).pos >= old(self).pos
                && final(self).next_implicit == old(self).next_implicit,
    {
        if self.eat('0') && self.eat('$') {
            self.use_index(0);
            Ok(())
        } else {
            self.count()
        }
    }

    fn precision(&mut self) -> (r: Result<(), FormatStrError>)
        requires
            old(self).wf(),
        ensures
            step_matches(old(self).s(), r, final(self).state(), spec_precision(old(self).s(), old(self).cls(), old(self).state())),
            r is Ok ==> final(self).wf() && final(self).same_text(old(self)) && final(self).pos >= old(self).pos
                && (old(self).next_implicit < old(self).pos ==> final(self).next_implicit < final(self).pos),
    {
        if self.eat('.') {
            if self.eat('*') {
                let i = self.next_implicit();
                self.use_index(i);
            } else {
                self.count()?;
            }
        }
        Ok(())
    }

    fn type_word(&mut self) -> (r: Result<(), FormatStrError>)
        requires
            old(self).wf(),
        ensures
            step_matches(old(self).s(), r, final(self).state(), spec_type(old(self).s(), old(self).cls(), old(self).state())),
            r is Ok ==> final(self).wf() && final(self).same_text(old(self)) && final(self).pos >= old(self).pos
                && final(self).next_implicit == old(self).next_implicit,
    {
        if self.eat_any(&['x', 'X']) {
            self.eat('?');
        } else if !self.eat('?') {
            self.word()?;
        }
        Ok(())
    }

    fn count(&mut self) -> (r: Result<(), FormatStrError>)
        requires
            old(self).wf(),
        ensures
            step_matches(old(self).s(), r, final(self).state(), spec_count(old(self).s(), old(self).cls(), old(self).state())),
            r is Ok ==> final(self).wf() && final(self).same_text(old(self)) && final(self).pos >= old(self).pos
                && final(self).next_implicit == old(self).next_implicit,
    {
        if let Some(i) = self.integer()? {
            if self.eat('$') {
                self.use_index(i);
            }
            return Ok(());
        }
        let start = self.pos;
        let end = self.word()?;
        if end == start {
            return Ok(());
        }
        if self.eat('$') {
            let name = string_from_chars(&self.chars, start, end);
            let ghost before = self.usage.names@;
            self.usage.names.push(name);
            assert(names_view(self.usage.names@) =~= names_view(before).push(
                self.s().subrange(start as int, end as int),
            ));
        } else {
            self.pos = start;
        }
        Ok(())
    }

    /// A run of ASCII digits, which must fit a `u16` as rustc requires.
    fn integer(&mut self) -> (r: Result<Option<usize>, FormatStrError>)
        requires
            old(self).wf(),
        ensures
            final(self).wf(),
            final(self).same_text(old(self)),
            match spec_integer(old(self).s(), old(self).pos as int) {
                Ok(None) => r == Ok::<Option<usize>, FormatStrError>(None) && final(self).state() == old(self).state(),
                Ok(Some((e, v))) => r == Ok::<Option<usize>, FormatStrError>(Some(v as usize)) && 0 <= v <= 65535
                    && final(self).state() == with_pos(old(self).state(), e) && e > old(self).pos,
                Err(e) => r == Err::<Option<usize>, FormatStrError>(byte_error(old(self).s(), e)),
            },
    {
        let start = self.pos;
        let mut end = start;
        let mut value: usize = 0;
        while end < self.chars.len() && '0' <= self.chars[end] && self.chars[end] <= '9'
            invariant
                self.wf(),
                self.state() == old(self).state(),
                self.same_text(old(self)),
                start == old(self).pos,
                start <= end <= self.chars.len(),
                forall|k: int| start <= k < end ==> is_ascii_digit(self.s()[k]),
                digit_end(self.s(), start as int) == digit_end(self.s(), end as int),
                value <= 65536,
                value == (if digits_value(self.s(), start as int, end as int) <= 65535 {
                    digits_value(self.s(), start as int, end as int)
                } else {
                    65536
                }),
            decreases self.chars.len() - end,
        {
            let d = (self.chars[end] as u32 - '0' as u32) as usize;
            proof {
                lemma_digits_value_nonneg(self.s(), start as int, end as int);
            }
            if value <= 65535 {
                value = value * 10 + d;
                if value > 65535 {
                    value = 65536;
                }
            }
            end = end + 1;
        }
        if end == start {
            return Ok(None);
        }
        self.pos = end;
        if value <= 65535 {
            Ok(Some(value))
        } else {
            Err(FormatStrError::Malformed { at: byte_offset_of(&self.chars, start) })
        }
    }

    /// An identifier or keyword; empty if none starts here. A lone `_` is
    /// malformed wherever rustc reads a word, even where it then backtracks.
    fn word(&mut self) -> (r: Result<usize, FormatStrError>)
        requires
            old(self).wf(),
        ensures
            final(self).wf(),
            final(self).same_text(old(self)),
            match spec_word(old(self).s(), old(self).cls(), old(self).pos as int) {
                Ok(e) => r == Ok::<usize, FormatStrError>(e as usize) && final(self).state() == with_pos(old(self).state(), e)
                    && e >= old(self).pos,
                Err(e) => r == Err::<usize, FormatStrError>(byte_error(old(self).s(), e)),
            },
    {
        let start = self.pos;
        if !(start < self.chars.len() && (self.chars[start] == '_' || self.classes[start].xid_start)) {
            return Ok(start);
        }
        let mut end = start + 1;
        while end < self.chars.len() && self.classes[end].xid_continue
            invariant
                self.wf(),
                self.state() == old(self).state(),
                self.same_text(old(self)),
                start == old(self).pos,
                start < end <= self.chars.len(),
                continue_end(self.s(), self.cls(), start + 1) == continue_end(self.s(), self.cls(), end as int),
            decreases self.chars.len() - end,
        {
            end = end + 1;
        }
        if end == start + 1 && self.chars[start] == '_' {
            return Err(FormatStrError::Malformed { at: byte_offset_of(&self.chars, start) });
        }
        self.pos = end;
        Ok(end)
    }
}

enum Position {
    Index(usize),
    Name(usize, usize),
}

spec fn position_matches(p: Option<Position>, sp: SpecPosition) -> bool {
    match sp {
        SpecPosition::Implicit => p is None,
        SpecPosition::Index(v) => p matches Some(Position::Index(i)) && i == v,
        SpecPosition::Name(a, b) => p matches Some(Position::Name(x, y)) && x == a && y == b,
    }
}

proof fn lemma_digits_value_nonneg(s: Seq<char>, i: int, j: int)
    requires
        forall|k: int| i <= k < j ==> is_ascii_digit(s[k]),
    ensures
        digits_value(s, i, j) >= 0,
    decreases j - i,
{
    if j > i {
        lemma_digits_value_nonneg(s, i, j - 1);
    }
}

/// Byte offset of char index `i` of `v`.
fn byte_offset_of(v: &Vec<char>, i: usize) -> (r: usize)
    requires
        i <= v.len(),
        byte_len(v@) <= usize::MAX,
    ensures
        r as int == byte_offset(v@, i as int),
{
    let mut k: usize = 0;
    let mut total: usize = 0;
    while k < i
        invariant
            k <= i <= v.len(),
            byte_len(v@) <= usize::MAX,
            total as int == byte_offset(v@, k as int),
        decreases i - k,
    {
        proof {
            lemma_byte_offset_monotone(v@, k + 1, v.len() as int);
        }
        total = total + char_utf8_width(v[k]);
        k = k + 1;
    }
    total
}


proof fn lemma_continue_run(s: Seq<char>, cls: Seq<CharClass>, i: int, e: int)
    requires
        0 <= i <= e < s.len(),
        cls.len() == s.len(),
        forall|k: int| i <= k < e ==> #[trigger] cls[k].xid_continue,
        !cls[e].xid_continue,
    ensures
        continue_end(s, cls, i) == e,
    decreases e - i,
{
    if i < e {
        lemma_continue_run(s, cls, i + 1, e);
    }
}

/// A placeholder naming an identifier is accepted, and reports that name
/// whole: for `{name}` where `name` starts with `_` or an `XID_Start`
/// character (not a digit, and not a lone `_`) and goes on with
/// `XID_Continue` characters, the scan succeeds with exactly that one name and
/// no positional argument.
pub proof fn lemma_named_placeholder(name: Seq<char>, cls: Seq<CharClass>)
    requires
        name.len() >= 1,
        cls.len() == name.len() + 2,
        name[0] == '_' || cls[1].xid_start,
        !('0' <= name[0] && name[0] <= '9'),
        name[0] != '{',
        !(name.len() == 1 && name[0] == '_'),
        forall|k: int| 1 <= k < name.len() ==> #[trigger] cls[k + 1].xid_continue,
        !cls[name.len() + 1int].xid_continue,
    ensures
        spec_scan(seq!['{'] + name + seq!['}'], cls) == Ok::<ScanState, ScanErr>(
            ScanState {
                pos: name.len() + 2int,
                implicit: 0,
                positional: 0,
                names: seq![name],
            },
        ),
{
    let s = seq!['{'] + name + seq!['}'];
    let n = name.len() as int;
    assert(s.len() == n + 2);
    assert(s[0] == '{');
    assert(s[1] == name[0]);
    assert(s[n + 1] == '}');
    assert forall|k: int| 2 <= k < n + 1 implies #[trigger] cls[k].xid_continue by {
        assert(cls[(k - 1) + 1].xid_continue);
    }
    lemma_continue_run(s, cls, 2, n + 1);
    assert(digit_end(s, 1) == 1);
    assert(spec_integer(s, 1) == Ok::<Option<(int, int)>, ScanErr>(None));
    assert(id_start(s, cls, 1));
    assert(spec_word(s, cls, 1) == Ok::<int, ScanErr>(n + 1));
    assert(spec_position(s, cls, 1) == Ok::<(int, SpecPosition), ScanErr>((n + 1, SpecPosition::Name(1, n + 1))));
    assert(!is_ws('}')) by {
        assert(('}' as u32) == 0x7D);
    }
    assert(ws_end(s, n + 1) == n + 1);
    assert(s.subrange(1, n + 1) =~= name);
    let st0 = with_pos(initial_state(), 1);
    let t = push_name(with_pos(st0, n + 1), name);
    assert(spec_format_spec(s, cls, t) == Ok::<ScanState, ScanErr>(t));
    assert(spec_argument(s, cls, st0) == Ok::<ScanState, ScanErr>(with_pos(t, n + 2)));
    assert(!at(s, 1, '{'));
    assert(spec_run(s, cls, with_pos(t, n + 2)) == Ok::<ScanState, ScanErr>(with_pos(t, n + 2)));
    assert(with_pos(t, n + 2) =~= (ScanState { pos: n + 2, implicit: 0, positional: 0, names: seq![name] }));
}

} // verus!

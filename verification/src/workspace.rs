//! Cargo workspace membership on paths given as their components (Unix
//! paths, canonical for the member and the root): which `members` and
//! `exclude` entries cover a member, and whether the member is excluded;
//! and the decisions of the upward walk that finds a member's workspace.

use vstd::prelude::*;
use crate::chars::{chars_of, push_char, push_str};
use crate::types::str_eq;

verus! {

/// Components as character sequences.
pub open spec fn comps(v: Seq<String>) -> Seq<Seq<char>> {
    Seq::new(v.len(), |i: int| v[i]@)
}

/// `acc` with the part `cur` appended, unless it is empty or `.`.
pub open spec fn flush(acc: Seq<Seq<char>>, cur: Seq<char>) -> Seq<Seq<char>> {
    if cur.len() == 0 || cur == seq!['.'] {
        acc
    } else {
        acc.push(cur)
    }
}

/// The components of `s[i..]` after `acc` and the partial part `cur`:
/// `/`-separated, empty and `.` parts dropped.
pub open spec fn parts_from(
    s: Seq<char>,
    i: int,
    cur: Seq<char>,
    acc: Seq<Seq<char>>,
) -> Seq<Seq<char>>
    decreases s.len() - i,
{
    if i >= s.len() {
        flush(acc, cur)
    } else if s[i] == '/' {
        parts_from(s, i + 1, Seq::empty(), flush(acc, cur))
    } else {
        parts_from(s, i + 1, cur.push(s[i]), acc)
    }
}

/// The components of path text `s`.
pub open spec fn path_parts(s: Seq<char>) -> Seq<Seq<char>> {
    parts_from(s, 0, Seq::empty(), Seq::empty())
}

/// `root` joined with entry `e`: `e` alone when absolute.
pub open spec fn joined(root: Seq<Seq<char>>, e: Seq<char>) -> Seq<Seq<char>> {
    if e.len() > 0 && e[0] == '/' {
        path_parts(e)
    } else {
        root + path_parts(e)
    }
}

pub open spec fn is_prefix(a: Seq<Seq<char>>, b: Seq<Seq<char>>) -> bool {
    a.len() <= b.len() && b.take(a.len() as int) == a
}

/// Some entry names, literally, the member's directory or one above it.
pub open spec fn spec_covers_any(
    root: Seq<Seq<char>>,
    entries: Seq<String>,
    member: Seq<Seq<char>>,
) -> bool {
    exists|k: int| 0 <= k < entries.len() && is_prefix(joined(root, #[trigger] entries[k]@), member)
}

/// What the `glob` crate answers when pattern `pattern` (case-sensitive,
/// `/` matched literally) is tested on relative path text `path`: `None`
/// when the pattern does not compile.
pub uninterp spec fn glob_match(pattern: Seq<char>, path: Seq<char>) -> Option<bool>;

/// Tests `path` against glob `pattern` (`glob::Pattern::new`, then
/// `matches_path_with` with case-sensitive matching and literal
/// separators).
#[verifier::external_body]
fn glob_matches(pattern: &str, path: &str) -> (r: Option<bool>)
    ensures
        r == glob_match(pattern@, path@),
{
    let options = glob::MatchOptions {
        case_sensitive: true,
        require_literal_separator: true,
        require_literal_leading_dot: false,
    };
    match glob::Pattern::new(pattern) {
        Ok(p) => Some(p.matches_path_with(std::path::Path::new(path), options)),
        Err(_) => None,
    }
}

/// Components joined by `/`.
pub open spec fn join_text(c: Seq<Seq<char>>) -> Seq<char>
    decreases c.len(),
{
    if c.len() == 0 {
        Seq::empty()
    } else if c.len() == 1 {
        c[0]
    } else {
        join_text(c.drop_last()) + seq!['/'] + c.last()
    }
}

/// Some valid glob entry matches the member's path relative to the root,
/// or one of its ancestors (down to the empty path).
pub open spec fn globs_any(entries: Seq<String>, relative: Seq<Seq<char>>) -> bool {
    exists|k: int, m: int|
        0 <= k < entries.len() && 0 <= m <= relative.len() && glob_match(
            #[trigger] entries[k]@,
            join_text(#[trigger] relative.take(m)),
        ) == Some(true)
}

/// As [`spec_covers_any`], plus glob entries matched against the path
/// relative to the root (or an ancestor of it).
pub open spec fn spec_matches_any(
    root: Seq<Seq<char>>,
    entries: Seq<String>,
    member: Seq<Seq<char>>,
) -> bool {
    spec_covers_any(root, entries, member) || (is_prefix(root, member) && globs_any(
        entries,
        member.skip(root.len() as int),
    ))
}

/// Excluded, unless a literal `members` entry also covers it; a member
/// outside the root counts as a member.
pub open spec fn spec_member_excluded(
    root: Seq<Seq<char>>,
    exclude: Seq<String>,
    members: Seq<String>,
    member: Seq<Seq<char>>,
) -> bool {
    is_prefix(root, member) && spec_matches_any(root, exclude, member) && !spec_covers_any(
        root,
        members,
        member,
    )
}

// ─── Deciding it ─────────────────────────────────────────────────────

/// The components of path text `s`.
pub fn split_path(s: &str) -> (r: Vec<String>)
    ensures
        comps(r@) == path_parts(s@),
{
    let v = chars_of(s);
    let mut acc: Vec<String> = Vec::new();
    let mut cur = String::new();
    let mut i: usize = 0;
    assert(comps(acc@) =~= Seq::<Seq<char>>::empty());
    assert(cur@ =~= Seq::<char>::empty());
    while i < v.len()
        invariant
            v@ == s@,
            i <= v.len(),
            parts_from(s@, 0, Seq::empty(), Seq::empty()) == parts_from(s@, i as int, cur@, comps(acc@)),
        decreases v.len() - i,
    {
        if v[i] == '/' {
            let ghost before = comps(acc@);
            let part = cur;
            cur = String::new();
            flush_part(&mut acc, part);
        } else {
            push_char(&mut cur, v[i]);
        }
        i = i + 1;
    }
    flush_part(&mut acc, cur);
    acc
}

fn flush_part(acc: &mut Vec<String>, part: String)
    ensures
        comps(final(acc)@) == flush(comps(old(acc)@), part@),
{
    let v = chars_of(part.as_str());
    if v.len() == 0 || (v.len() == 1 && v[0] == '.') {
        proof {
            if v.len() == 1 {
                assert(part@ =~= seq!['.']);
            }
        }
        return;
    }
    assert(part@ != seq!['.']) by {
        if part@ == seq!['.'] {
            assert(v@.len() == 1 && v@[0] == '.');
        }
    }
    acc.push(part);
    assert(comps(acc@) =~= comps(old(acc)@).push(part@));
}

/// Whether `a` is a prefix of `b`, component by component.
pub fn has_prefix(a: &Vec<String>, b: &Vec<String>) -> (r: bool)
    ensures
        r == is_prefix(comps(a@), comps(b@)),
{
    if a.len() > b.len() {
        return false;
    }
    let mut i: usize = 0;
    while i < a.len()
        invariant
            a.len() <= b.len(),
            i <= a.len(),
            forall|k: int| 0 <= k < i ==> a@[k]@ == b@[k]@,
        decreases a.len() - i,
    {
        if !str_eq(a[i].as_str(), b[i].as_str()) {
            assert(comps(b@).take(a.len() as int)[i as int] != comps(a@)[i as int]);
            return false;
        }
        i = i + 1;
    }
    assert(comps(b@).take(a.len() as int) =~= comps(a@));
    true
}

/// `root` joined with entry `e`.
fn join_entry(root: &Vec<String>, e: &str) -> (r: Vec<String>)
    ensures
        comps(r@) == joined(comps(root@), e@),
{
    let parts = split_path(e);
    let v = chars_of(e);
    if v.len() > 0 && v[0] == '/' {
        return parts;
    }
    let mut r: Vec<String> = Vec::new();
    let mut i: usize = 0;
    assert(comps(r@) =~= comps(root@).take(0));
    while i < root.len()
        invariant
            i <= root.len(),
            r.len() == i,
            comps(r@) == comps(root@).take(i as int),
        decreases root.len() - i,
    {
        r.push(root[i].clone());
        i = i + 1;
        assert(comps(r@) =~= comps(root@).take(i as int));
    }
    let mut j: usize = 0;
    while j < parts.len()
        invariant
            i == root.len(),
            j <= parts.len(),
            r.len() == i + j,
            comps(r@) == comps(root@) + comps(parts@).take(j as int),
        decreases parts.len() - j,
    {
        let ghost prev = comps(r@);
        r.push(parts[j].clone());
        assert(comps(r@) =~= prev.push(comps(parts@)[j as int]));
        assert(comps(parts@).take(j + 1) =~= comps(parts@).take(j as int).push(comps(parts@)[j as int]));
        j = j + 1;
        assert(comps(r@) =~= comps(root@) + comps(parts@).take(j as int));
    }
    assert(comps(root@).take(i as int) =~= comps(root@));
    assert(comps(parts@).take(j as int) =~= comps(parts@));
    r
}

/// Whether some entry names, literally, `member` or a directory above it.
pub fn covers_any(root: &Vec<String>, entries: &Vec<String>, member: &Vec<String>) -> (r: bool)
    ensures
        r == spec_covers_any(comps(root@), entries@, comps(member@)),
{
    let mut k: usize = 0;
    while k < entries.len()
        invariant
            k <= entries.len(),
            forall|q: int|
                0 <= q < k ==> !is_prefix(joined(comps(root@), #[trigger] entries@[q]@), comps(member@)),
        decreases entries.len() - k,
    {
        let path = join_entry(root, entries[k].as_str());
        if has_prefix(&path, member) {
            return true;
        }
        k = k + 1;
    }
    false
}

/// `c` joined by `/`.
fn join_with_slash(c: &Vec<String>, n: usize) -> (r: String)
    requires
        n <= c.len(),
    ensures
        r@ == join_text(comps(c@).take(n as int)),
{
    let mut r = String::new();
    let mut i: usize = 0;
    while i < n
        invariant
            n <= c.len(),
            i <= n,
            r@ == join_text(comps(c@).take(i as int)),
        decreases n - i,
    {
        if i > 0 {
            push_char(&mut r, '/');
        }
        push_str(&mut r, c[i].as_str());
        i = i + 1;
        assert(comps(c@).take(i as int).drop_last() =~= comps(c@).take(i - 1));
    }
    r
}

/// As [`covers_any`], plus glob entries matched against the member's path
/// relative to the root, or an ancestor of it.
pub fn matches_any(root: &Vec<String>, entries: &Vec<String>, member: &Vec<String>) -> (r: bool)
    ensures
        r == spec_matches_any(comps(root@), entries@, comps(member@)),
{
    if covers_any(root, entries, member) {
        return true;
    }
    if !has_prefix(root, member) {
        return false;
    }
    let mut rel: Vec<String> = Vec::new();
    let mut i: usize = root.len();
    while i < member.len()
        invariant
            root.len() <= i <= member.len(),
            rel.len() == i - root.len(),
            comps(rel@) == comps(member@).subrange(root.len() as int, i as int),
        decreases member.len() - i,
    {
        rel.push(member[i].clone());
        i = i + 1;
        assert(comps(rel@) =~= comps(member@).subrange(root.len() as int, i as int));
    }
    assert(comps(rel@) =~= comps(member@).skip(root.len() as int));
    let ghost relative = comps(rel@);
    let mut k: usize = 0;
    while k < entries.len()
        invariant
            k <= entries.len(),
            relative == comps(rel@),
            relative == comps(member@).skip(root.len() as int),
            is_prefix(comps(root@), comps(member@)),
            forall|q: int, m: int|
                0 <= q < k && 0 <= m <= relative.len() ==> glob_match(
                    #[trigger] entries@[q]@,
                    join_text(#[trigger] relative.take(m)),
                ) != Some(true),
        decreases entries.len() - k,
    {
        let mut m: usize = 0;
        while m < rel.len()
            invariant
                k < entries.len(),
                m <= rel.len(),
                relative == comps(rel@),
                relative == comps(member@).skip(root.len() as int),
                is_prefix(comps(root@), comps(member@)),
                forall|q: int, mm: int|
                    0 <= q < k && 0 <= mm <= relative.len() ==> glob_match(
                        #[trigger] entries@[q]@,
                        join_text(#[trigger] relative.take(mm)),
                    ) != Some(true),
                forall|mm: int|
                    0 <= mm < m ==> glob_match(
                        entries@[k as int]@,
                        join_text(#[trigger] relative.take(mm)),
                    ) != Some(true),
            decreases rel.len() - m,
        {
            let text = join_with_slash(&rel, m);
            if glob_matches(entries[k].as_str(), text.as_str()) == Some(true) {
                assert(glob_match(entries@[k as int]@, join_text(relative.take(m as int))) == Some(true));
                return true;
            }
            m = m + 1;
        }
        let text = join_with_slash(&rel, m);
        if glob_matches(entries[k].as_str(), text.as_str()) == Some(true) {
            assert(glob_match(entries@[k as int]@, join_text(relative.take(m as int))) == Some(true));
            return true;
        }
        k = k + 1;
    }
    false
}

/// Cargo's membership rule: an excluded path is not a member unless a
/// literal `members` entry also covers it (a glob in `members` never
/// beats `exclude`); a member outside the root counts as a member.
pub fn member_excluded(
    root: &Vec<String>,
    exclude: &Vec<String>,
    members: &Vec<String>,
    member: &Vec<String>,
) -> (r: bool)
    ensures
        r == spec_member_excluded(comps(root@), exclude@, members@, comps(member@)),
{
    if !has_prefix(root, member) {
        return false;
    }
    let excluded = matches_any(root, exclude, member);
    let explicit_member = covers_any(root, members, member);
    excluded && !explicit_member
}

// ─── The upward walk ─────────────────────────────────────────────────

/// The walk stops at `$CARGO_HOME` and at a `target/package` staging
/// directory, as Cargo's does, so a packaged or registry crate finds no
/// workspace.
pub open spec fn spec_walk_stops(dir: Seq<Seq<char>>, cargo_home: Option<Seq<Seq<char>>>) -> bool {
    cargo_home == Some(dir) || (dir.len() >= 2 && dir[dir.len() - 2] == "target"@ && dir[dir.len()
        - 1] == "package"@)
}

/// Whether the walk stops before looking at `dir`.
pub fn walk_stops(dir: &Vec<String>, cargo_home: &Option<Vec<String>>) -> (r: bool)
    ensures
        r == spec_walk_stops(comps(dir@), match cargo_home {
            Some(h) => Some(comps(h@)),
            None => None,
        }),
{
    if let Some(h) = cargo_home {
        if h.len() == dir.len() && has_prefix(h, dir) {
            assert(comps(dir@).take(comps(h@).len() as int) =~= comps(dir@));
            return true;
        }
        proof {
            if comps(h@) == comps(dir@) {
                assert(comps(dir@).take(comps(h@).len() as int) =~= comps(dir@));
            }
        }
    }
    let n = dir.len();
    n >= 2 && str_eq(dir[n - 2].as_str(), "target") && str_eq(dir[n - 1].as_str(), "package")
}

/// A `[workspace]` table's `members` and `exclude` entries.
pub struct WorkspaceTable {
    pub members: Vec<String>,
    pub exclude: Vec<String>,
}

/// What the walk does at an ancestor directory.
#[derive(Debug, Clone, Copy, PartialEq, Eq)]
pub enum WalkStep {
    /// No `[workspace]` here: go on to the parent.
    Continue,
    /// This directory's manifest is the member's workspace root.
    Found,
    /// The workspace here excludes the member: it stands alone.
    Standalone,
}

/// The step at ancestor `dir`, whose manifest has the `[workspace]` table
/// `table` (`None` when there is no readable manifest or no table).
pub fn walk_at(dir: &Vec<String>, table: &Option<WorkspaceTable>, member: &Vec<String>) -> (r: WalkStep)
    ensures
        r == match table {
            None => WalkStep::Continue,
            Some(t) => if spec_member_excluded(comps(dir@), t.exclude@, t.members@, comps(member@)) {
                WalkStep::Standalone
            } else {
                WalkStep::Found
            },
        },
{
    match table {
        None => WalkStep::Continue,
        Some(t) => if member_excluded(dir, &t.exclude, &t.members, member) {
            WalkStep::Standalone
        } else {
            WalkStep::Found
        },
    }
}

} // verus!

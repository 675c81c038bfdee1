//! Size constraints: the `size(...)` shapes, the global size cap read from
//! `OOPSIE_MAX_ERROR_SIZE`, and the bounds and phrases the size assertions use.
use vstd::prelude::*;

use crate::chars::{
    chars_of, decimal, is_ascii_digit, push_decimal, push_str, trim, trim_chars,
};

verus! {

/// A compile-time size constraint for the error type.
#[derive(Debug, Clone, Copy, PartialEq, Eq)]
pub enum SizeConstraint {
    /// `size(N)`: exactly N bytes.
    Exact(usize),
    /// `size(..=N)`: at most N bytes.
    AtMost(usize),
    /// `size(N..)`: at least N bytes.
    AtLeast(usize),
    /// `size(N..=M)`: between N and M bytes inclusive.
    Range(usize, usize),
    /// Fewer than N bytes.
    Below(usize),
    /// At least N and fewer than M bytes.
    RangeHalfOpen(usize, usize),
}

impl SizeConstraint {
    /// The constraint a range `start..end` (or `start..=end` when `closed`)
    /// denotes, if it has one of the supported shapes `..=N`, `N..` and `N..=M`.
    pub fn from_range(start: Option<usize>, end: Option<usize>, closed: bool) -> (r: Option<
        SizeConstraint,
    >)
        ensures
            r == (match (start, end, closed) {
                (None, Some(e), true) => Some(SizeConstraint::AtMost(e)),
                (Some(s), None, false) => Some(SizeConstraint::AtLeast(s)),
                (Some(s), Some(e), true) => Some(SizeConstraint::Range(s, e)),
                _ => None,
            }),
    {
        match (start, end, closed) {
            (None, Some(e), true) => Some(SizeConstraint::AtMost(e)),
            (Some(s), None, false) => Some(SizeConstraint::AtLeast(s)),
            (Some(s), Some(e), true) => Some(SizeConstraint::Range(s, e)),
            _ => None,
        }
    }
}

/// An endpoint of a `size(...)` range: an integer literal, or anything else.
#[derive(Clone, Copy, Debug, PartialEq, Eq)]
pub enum SizeBound {
    Int(usize),
    NotInt,
}

/// The argument of `size(...)`: an integer literal, a range, or another
/// expression.
#[derive(Clone, Copy, Debug, PartialEq, Eq)]
pub enum SizeExpr {
    Int(usize),
    Range(Option<SizeBound>, Option<SizeBound>, bool),
    Other,
}

/// Why a `size(...)` argument was refused.
#[derive(Clone, Copy, Debug, PartialEq, Eq)]
pub enum SizeParseError {
    /// A range endpoint that is not an integer literal.
    NotIntegerLiteral,
    /// A range of another shape than `..=N`, `N..`, `N..=M`.
    UnsupportedRange,
    /// Neither an integer nor a range.
    NotIntegerOrRange,
}

pub open spec fn size_parse_text(e: SizeParseError) -> Seq<char> {
    match e {
        SizeParseError::NotIntegerLiteral => "expected integer literal"@,
        SizeParseError::UnsupportedRange => "unsupported range shape (use `..=N`, `N..`, or `N..=M`)"@,
        SizeParseError::NotIntegerOrRange => "expected integer or range (e.g. `64`, `..=128`, `32..`, `32..=64`)"@,
    }
}

impl SizeParseError {
    pub fn message(self) -> (r: &'static str)
        ensures
            r@ == size_parse_text(self),
    {
        match self {
            SizeParseError::NotIntegerLiteral => "expected integer literal",
            SizeParseError::UnsupportedRange => "unsupported range shape (use `..=N`, `N..`, or `N..=M`)",
            SizeParseError::NotIntegerOrRange => "expected integer or range (e.g. `64`, `..=128`, `32..`, `32..=64`)",
        }
    }
}

pub open spec fn bound_value(b: Option<SizeBound>) -> Option<usize> {
    match b {
        Some(SizeBound::Int(n)) => Some(n),
        _ => None,
    }
}

impl SizeConstraint {
    /// The constraint `size(e)` states: an integer is an exact size, a
    /// supported range its bounds (endpoints read start first), anything
    /// else is refused.
    pub fn from_expr(e: &SizeExpr) -> (r: Result<SizeConstraint, SizeParseError>)
        ensures
            r == (match *e {
                SizeExpr::Int(n) => Ok(SizeConstraint::Exact(n)),
                SizeExpr::Range(start, end, closed) => if start == Some(SizeBound::NotInt) || end == Some(
                    SizeBound::NotInt,
                ) {
                    Err(SizeParseError::NotIntegerLiteral)
                } else {
                    match (bound_value(start), bound_value(end), closed) {
                        (None, Some(x), true) => Ok(SizeConstraint::AtMost(x)),
                        (Some(x), None, false) => Ok(SizeConstraint::AtLeast(x)),
                        (Some(x), Some(y), true) => Ok(SizeConstraint::Range(x, y)),
                        _ => Err(SizeParseError::UnsupportedRange),
                    }
                },
                SizeExpr::Other => Err(SizeParseError::NotIntegerOrRange),
            }),
    {
        match *e {
            SizeExpr::Int(n) => Ok(SizeConstraint::Exact(n)),
            SizeExpr::Range(start, end, closed) => {
                let s = match start {
                    Some(SizeBound::NotInt) => return Err(SizeParseError::NotIntegerLiteral),
                    Some(SizeBound::Int(n)) => Some(n),
                    None => None,
                };
                let t = match end {
                    Some(SizeBound::NotInt) => return Err(SizeParseError::NotIntegerLiteral),
                    Some(SizeBound::Int(n)) => Some(n),
                    None => None,
                };
                match SizeConstraint::from_range(s, t, closed) {
                    Some(c) => Ok(c),
                    None => Err(SizeParseError::UnsupportedRange),
                }
            },
            SizeExpr::Other => Err(SizeParseError::NotIntegerOrRange),
        }
    }
}

/// The upper bound as `(limit, inclusive)`, if the constraint has one.
/// `inclusive` means a violation is `size > limit`, exclusive `size >= limit`.
pub open spec fn spec_upper_bound(c: SizeConstraint) -> Option<(usize, bool)> {
    match c {
        SizeConstraint::Exact(n) | SizeConstraint::AtMost(n) => Some((n, true)),
        SizeConstraint::Range(_, hi) => Some((hi, true)),
        SizeConstraint::AtLeast(_) => None,
        SizeConstraint::Below(n) => Some((n, false)),
        SizeConstraint::RangeHalfOpen(_, hi) => Some((hi, false)),
    }
}

/// The (always inclusive) lower bound, if any: a violation is `size < limit`.
pub open spec fn spec_lower_bound(c: SizeConstraint) -> Option<usize> {
    match c {
        SizeConstraint::Exact(n) | SizeConstraint::AtLeast(n) => Some(n),
        SizeConstraint::Range(lo, _) => Some(lo),
        SizeConstraint::AtMost(_) => None,
        SizeConstraint::Below(_) => None,
        SizeConstraint::RangeHalfOpen(lo, _) => Some(lo),
    }
}

/// Whether a type of `size` bytes meets the constraint.
pub open spec fn admits(c: SizeConstraint, size: int) -> bool {
    match c {
        SizeConstraint::Exact(n) => size == n,
        SizeConstraint::AtMost(n) => size <= n,
        SizeConstraint::AtLeast(n) => size >= n,
        SizeConstraint::Range(lo, hi) => lo <= size <= hi,
        SizeConstraint::Below(n) => size < n,
        SizeConstraint::RangeHalfOpen(lo, hi) => lo <= size < hi,
    }
}

pub fn upper_bound(constraint: &SizeConstraint) -> (r: Option<(usize, bool)>)
    ensures
        r == spec_upper_bound(*constraint),
{
    match constraint {
        SizeConstraint::Exact(n) | SizeConstraint::AtMost(n) => Some((*n, true)),
        SizeConstraint::Range(_, hi) => Some((*hi, true)),
        SizeConstraint::AtLeast(_) => None,
        SizeConstraint::Below(n) => Some((*n, false)),
        SizeConstraint::RangeHalfOpen(_, hi) => Some((*hi, false)),
    }
}

pub fn lower_bound(constraint: &SizeConstraint) -> (r: Option<usize>)
    ensures
        r == spec_lower_bound(*constraint),
{
    match constraint {
        SizeConstraint::Exact(n) | SizeConstraint::AtLeast(n) => Some(*n),
        SizeConstraint::Range(lo, _) => Some(*lo),
        SizeConstraint::AtMost(_) => None,
        SizeConstraint::Below(_) => None,
        SizeConstraint::RangeHalfOpen(lo, _) => Some(*lo),
    }
}

/// The checks the size assertions emit (a violation of the upper bound, then
/// of the lower bound) reject exactly the sizes the constraint does not admit.
pub proof fn lemma_bounds_decide_admission(c: SizeConstraint, size: int)
    ensures
        admits(c, size) <==> ({
            &&& match spec_upper_bound(c) {
                Some((limit, inclusive)) => if inclusive {
                    size <= limit
                } else {
                    size < limit
                },
                None => true,
            }
            &&& match spec_lower_bound(c) {
                Some(limit) => size >= limit,
                None => true,
            }
        }),
{
}

/// Human phrase describing the allowed sizes, e.g. `≤ 64` or `in 32..=64`.
pub open spec fn spec_bound_phrase(c: SizeConstraint) -> Seq<char> {
    match c {
        SizeConstraint::Exact(n) => "exactly "@ + decimal(n as nat),
        SizeConstraint::AtMost(n) => "≤ "@ + decimal(n as nat),
        SizeConstraint::AtLeast(n) => "≥ "@ + decimal(n as nat),
        SizeConstraint::Range(lo, hi) => "in "@ + decimal(lo as nat) + ".."@ + "="@ + decimal(hi as nat),
        SizeConstraint::Below(n) => "< "@ + decimal(n as nat),
        SizeConstraint::RangeHalfOpen(lo, hi) => "in "@ + decimal(lo as nat) + ".."@ + decimal(hi as nat),
    }
}

pub fn bound_phrase(constraint: &SizeConstraint) -> (r: String)
    ensures
        r@ == spec_bound_phrase(*constraint),
{
    let mut s = String::new();
    match constraint {
        SizeConstraint::Exact(n) => {
            push_str(&mut s, "exactly ");
            push_decimal(&mut s, *n);
        },
        SizeConstraint::AtMost(n) => {
            push_str(&mut s, "≤ ");
            push_decimal(&mut s, *n);
        },
        SizeConstraint::AtLeast(n) => {
            push_str(&mut s, "≥ ");
            push_decimal(&mut s, *n);
        },
        SizeConstraint::Range(lo, hi) => {
            push_str(&mut s, "in ");
            push_decimal(&mut s, *lo);
            push_str(&mut s, "..");
            push_str(&mut s, "=");
            push_decimal(&mut s, *hi);
        },
        SizeConstraint::Below(n) => {
            push_str(&mut s, "< ");
            push_decimal(&mut s, *n);
        },
        SizeConstraint::RangeHalfOpen(lo, hi) => {
            push_str(&mut s, "in ");
            push_decimal(&mut s, *lo);
            push_str(&mut s, "..");
            push_decimal(&mut s, *hi);
        },
    }
    assert(s@ =~= spec_bound_phrase(*constraint));
    s
}

/// The cap-source line shown under a size violation, naming the manifest
/// section the cap came from; it leads with a newline so it forms its own line.
pub fn cap_source_line(section: &str) -> (r: String)
    ensures
        r@ == "\nset by `"@ + section@ + "` in Cargo.toml"@,
{
    let mut s = String::new();
    push_str(&mut s, "\nset by `");
    push_str(&mut s, section);
    push_str(&mut s, "` in Cargo.toml");
    assert(s@ =~= "\nset by `"@ + section@ + "` in Cargo.toml"@);
    s
}

/// The value of an `exit_code = N` attribute, if `N` is a valid process exit
/// code for an error: `0` denotes success and does not fit `u8` beyond 255, so
/// the accepted range is `1..=255`.
pub fn exit_code_value(n: u16) -> (r: Option<u8>)
    ensures
        r == (if 1 <= n <= 255 {
            Some(n as u8)
        } else {
            None::<u8>
        }),
{
    if 1 <= n && n <= 255 {
        Some(n as u8)
    } else {
        None
    }
}

// ─── The global size cap ─────────────────────────────────────────────

/// How `usize::from_str` classifies a string.
pub enum UsizeParse {
    Value(int),
    Empty,
    InvalidDigit,
    PosOverflow,
}

/// Digits `s[i..]` accumulated onto `acc`, left to right: each character is
/// first checked to be a digit, then the running value for overflow.
pub open spec fn scan_digits(s: Seq<char>, i: int, acc: int) -> UsizeParse
    decreases s.len() - i,
{
    if !(0 <= i < s.len()) {
        UsizeParse::Value(acc)
    } else if !is_ascii_digit(s[i]) {
        UsizeParse::InvalidDigit
    } else if acc * 10 + (s[i] as int - '0' as int) > usize::MAX {
        UsizeParse::PosOverflow
    } else {
        scan_digits(s, i + 1, acc * 10 + (s[i] as int - '0' as int))
    }
}

/// `usize::from_str`: an optional `+` then decimal digits.
pub open spec fn spec_parse_usize(s: Seq<char>) -> UsizeParse {
    if s.len() == 0 {
        UsizeParse::Empty
    } else if (s[0] == '+' || s[0] == '-') && s.len() == 1 {
        UsizeParse::InvalidDigit
    } else if s[0] == '+' {
        scan_digits(s, 1, 0)
    } else {
        scan_digits(s, 0, 0)
    }
}

proof fn lemma_scan_digits_range(s: Seq<char>, i: int, acc: int)
    requires
        0 <= acc <= usize::MAX,
    ensures
        scan_digits(s, i, acc) matches UsizeParse::Value(v) ==> 0 <= v <= usize::MAX,
    decreases s.len() - i,
{
    if 0 <= i < s.len() && is_ascii_digit(s[i]) && acc * 10 + (s[i] as int - '0' as int)
        <= usize::MAX {
        lemma_scan_digits_range(s, i + 1, acc * 10 + (s[i] as int - '0' as int));
    }
}

/// Whether `s` parses as `usize` to a value in range.
pub proof fn lemma_parse_usize_range(s: Seq<char>)
    ensures
        spec_parse_usize(s) matches UsizeParse::Value(v) ==> 0 <= v <= usize::MAX,
{
    lemma_scan_digits_range(s, 0, 0);
    lemma_scan_digits_range(s, 1, 0);
}

fn parse_usize(s: &Vec<char>) -> (r: Result<usize, u8>)
    ensures
        match spec_parse_usize(s@) {
            UsizeParse::Value(v) => r == Ok::<usize, u8>(v as usize),
            UsizeParse::Empty => r == Err::<usize, u8>(0),
            UsizeParse::InvalidDigit => r == Err::<usize, u8>(1),
            UsizeParse::PosOverflow => r == Err::<usize, u8>(2),
        },
{
    if s.len() == 0 {
        return Err(0);
    }
    if (s[0] == '+' || s[0] == '-') && s.len() == 1 {
        return Err(1);
    }
    let mut i: usize = if s[0] == '+' {
        1
    } else {
        0
    };
    let mut acc: usize = 0;
    while i < s.len()
        invariant
            i <= s.len(),
            spec_parse_usize(s@) == scan_digits(s@, i as int, acc as int),
        decreases s.len() - i,
    {
        let c = s[i];
        if !('0' <= c && c <= '9') {
            return Err(1);
        }
        let d = (c as u32 - '0' as u32) as usize;
        match acc.checked_mul(10) {
            None => {
                return Err(2);
            },
            Some(m) => match m.checked_add(d) {
                None => {
                    return Err(2);
                },
                Some(v) => {
                    acc = v;
                },
            },
        }
        i = i + 1;
    }
    Ok(acc)
}

/// Debug rendering of a string: quoted, with escapes.
pub uninterp spec fn debug_quoted(s: Seq<char>) -> Seq<char>;

/// `<str as Debug>::fmt`, through `format!("{s:?}")`: the string quoted, with
/// special characters escaped. Its result is taken as `debug_quoted(s)`.
#[verifier::external_body]
pub(crate) fn debug_quote(s: &str) -> (r: String)
    ensures
        r@ == debug_quoted(s@),
{
    format!("{s:?}")
}

/// The message for an invalid `OOPSIE_MAX_ERROR_SIZE` value.
pub open spec fn max_size_message(raw: Seq<char>, kind: UsizeParse) -> Seq<char> {
    match kind {
        UsizeParse::Value(_) => "OOPSIE_MAX_ERROR_SIZE is set to 0, which is not a valid size limit; unset it (or leave it empty) to disable the cap instead"@,
        UsizeParse::InvalidDigit => "OOPSIE_MAX_ERROR_SIZE is set to a non-numeric value: "@ + debug_quoted(raw),
        UsizeParse::PosOverflow => "OOPSIE_MAX_ERROR_SIZE is set to "@ + debug_quoted(raw) + ", which is too large to fit in a usize (max "@ + decimal(usize::MAX as nat) + ")"@,
        UsizeParse::Empty => "OOPSIE_MAX_ERROR_SIZE is set to an invalid value "@ + debug_quoted(raw) + ": cannot parse integer from empty string"@,
    }
}

/// Validates a raw `OOPSIE_MAX_ERROR_SIZE` value: `Ok(None)` for an empty or
/// all-whitespace value (no cap), `Ok(Some(n))` for a positive cap, and an
/// error message for zero, a non-numeric value, or one too large for `usize`.
pub fn parse_max_size(raw: &str) -> (r: Result<Option<usize>, String>)
    ensures
        trim(raw@).len() == 0 ==> r == Ok::<Option<usize>, String>(None),
        trim(raw@).len() != 0 ==> match spec_parse_usize(trim(raw@)) {
            UsizeParse::Value(v) => if v == 0 {
                r matches Err(m) && m@ == max_size_message(raw@, UsizeParse::Value(0))
            } else {
                r == Ok::<Option<usize>, String>(Some(v as usize))
            },
            kind => r matches Err(m) && m@ == max_size_message(raw@, kind),
        },
{
    let chars = chars_of(raw);
    let trimmed = trim_chars(&chars);
    if trimmed.len() == 0 {
        return Ok(None);
    }
    proof {
        lemma_parse_usize_range(trimmed@);
    }
    match parse_usize(&trimmed) {
        Ok(0) => {
            let mut m = String::new();
            push_str(
                &mut m,
                "OOPSIE_MAX_ERROR_SIZE is set to 0, which is not a valid size limit; unset it (or leave it empty) to disable the cap instead",
            );
            assert(m@ =~= max_size_message(raw@, UsizeParse::Value(0)));
            Err(m)
        },
        Ok(n) => Ok(Some(n)),
        Err(kind) => {
            let mut m = String::new();
            if kind == 1 {
                push_str(&mut m, "OOPSIE_MAX_ERROR_SIZE is set to a non-numeric value: ");
                let q = debug_quote(raw);
                push_str(&mut m, q.as_str());
            } else if kind == 2 {
                push_str(&mut m, "OOPSIE_MAX_ERROR_SIZE is set to ");
                let q = debug_quote(raw);
                push_str(&mut m, q.as_str());
                push_str(&mut m, ", which is too large to fit in a usize (max ");
                push_decimal(&mut m, usize::MAX);
                push_str(&mut m, ")");
            } else {
                push_str(&mut m, "OOPSIE_MAX_ERROR_SIZE is set to an invalid value ");
                let q = debug_quote(raw);
                push_str(&mut m, q.as_str());
                push_str(&mut m, ": cannot parse integer from empty string");
            }
            proof {
                let kind_s = spec_parse_usize(trim(raw@));
                assert(m@ =~= max_size_message(raw@, kind_s));
            }
            Err(m)
        },
    }
}

} // verus!

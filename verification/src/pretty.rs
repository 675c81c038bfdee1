//! Printing a [`TypeTree`] back to idiomatic Rust source text: `Vec<T>`,
//! `&'a mut T`, `<T as Trait>::Output`, `dyn A + Send`, `fn(u8) -> u8`.
//!
//! Leaves kept as token text (bounds, lifetimes, attributes, array lengths)
//! are printed as they are.

use vstd::prelude::*;
use crate::types::{AngleArgs, FnPtrType, GenericArg, NamedArg, PathArgs, PathSegment, PunctStrs, TypePath, TypeTree};
use crate::chars::push_str;

verus! {

// ─── What a type prints as ───────────────────────────────────────────

/// `items` joined the way a punctuated list prints: `suffix` before every
/// item but the first, `prefix` and `punct` after every item that carries
/// punctuation (all but the last, and the last too when `trailing`).
pub open spec fn render_strs(
    items: Seq<String>,
    i: int,
    prefix: Seq<char>,
    punct: Seq<char>,
    suffix: Seq<char>,
    trailing: bool,
) -> Seq<char>
    decreases items.len() - i,
{
    if 0 <= i < items.len() {
        (if i > 0 {
            suffix
        } else {
            Seq::empty()
        }) + items[i]@ + (if i + 1 < items.len() || trailing {
            prefix + punct
        } else {
            Seq::empty()
        }) + render_strs(items, i + 1, prefix, punct, suffix, trailing)
    } else {
        Seq::empty()
    }
}

/// A `+`-separated bound list: `A + B`.
pub open spec fn render_bounds(b: PunctStrs) -> Seq<char> {
    render_strs(b.items@, 0, " "@, "+"@, " "@, b.trailing)
}

/// A `,`-separated string list: `'a, 'b`.
pub open spec fn render_commas(b: PunctStrs) -> Seq<char> {
    render_strs(b.items@, 0, Seq::empty(), ","@, " "@, b.trailing)
}

/// `", "` before item `i > 0`, `","` after it when punctuated.
pub open spec fn comma_before(i: int) -> Seq<char> {
    if i > 0 {
        " "@
    } else {
        Seq::empty()
    }
}

pub open spec fn comma_after(i: int, n: int, trailing: bool) -> Seq<char> {
    if i + 1 < n || trailing {
        ","@
    } else {
        Seq::empty()
    }
}

pub open spec fn opt_str(present: bool, s: Seq<char>) -> Seq<char> {
    if present {
        s
    } else {
        Seq::empty()
    }
}

/// What `t` prints as.
pub open spec fn render_type(t: TypeTree) -> Seq<char>
    decreases t, 0int,
{
    match t {
        TypeTree::Path(p) => render_path(p),
        TypeTree::Array(elem, len) => "["@ + render_type(*elem) + "; "@ + len@ + "]"@,
        TypeTree::Reference(lifetime, mutable, elem) => "&"@ + (match lifetime {
            Some(l) => l@ + " "@,
            None => Seq::empty(),
        }) + opt_str(mutable, "mut "@) + render_type(*elem),
        TypeTree::Group(elem) => render_type(*elem),
        TypeTree::Paren(elem) => "("@ + render_type(*elem) + ")"@,
        TypeTree::Ptr(mutable, elem) => "*"@ + (if mutable {
            "mut "@
        } else {
            "const "@
        }) + render_type(*elem),
        TypeTree::Slice(elem) => "["@ + render_type(*elem) + "]"@,
        TypeTree::TraitObject(bounds) => "dyn "@ + render_bounds(bounds),
        TypeTree::ImplTrait(bounds) => "impl "@ + render_bounds(bounds),
        TypeTree::FnPtr(f) => render_fn_ptr(f),
        TypeTree::Tuple(elems, trailing) => "("@ + render_type_list(elems@, 0, trailing) + ")"@,
        TypeTree::Verbatim(text) => text@,
    }
}

/// Types from index `i` on, comma-separated.
pub open spec fn render_type_list(es: Seq<TypeTree>, i: int, trailing: bool) -> Seq<char>
    decreases es, es.len() - i,
{
    if 0 <= i < es.len() {
        comma_before(i) + render_type(es[i]) + comma_after(i, es.len() as int, trailing)
            + render_type_list(es, i + 1, trailing)
    } else {
        Seq::empty()
    }
}

pub open spec fn render_fn_ptr(f: FnPtrType) -> Seq<char>
    decreases f, 0int,
{
    fn_ptr_head(f) + "fn("@ + render_arg_list(f.inputs@, 0, f.inputs_trailing) + fn_ptr_variadic(f)
        + ")"@ + render_output(f.output)
}

/// `for<'a> unsafe extern "C" `: what comes before `fn`.
pub open spec fn fn_ptr_head(f: FnPtrType) -> Seq<char> {
    (match f.lifetimes {
        Some(l) => "for<"@ + render_commas(l) + "> "@,
        None => Seq::empty(),
    }) + opt_str(f.unsafety, "unsafe "@) + (match f.abi {
        Some(a) => a@ + " "@,
        None => Seq::empty(),
    })
}

/// The variadic argument, spaced from the ones before it.
pub open spec fn fn_ptr_variadic(f: FnPtrType) -> Seq<char> {
    match f.variadic {
        Some(v) => opt_str(f.inputs@.len() > 0, " "@) + v@,
        None => Seq::empty(),
    }
}

/// `" -> T"` for an explicit return type.
pub open spec fn render_output(output: Option<Box<TypeTree>>) -> Seq<char>
    decreases output, 1int,
{
    match output {
        Some(t) => " -> "@ + render_type(*t),
        None => Seq::empty(),
    }
}

pub open spec fn render_named_arg(a: NamedArg) -> Seq<char>
    decreases a, 0int,
{
    render_strs(a.attrs@, 0, Seq::empty(), " "@, Seq::empty(), true) + (match a.name {
        Some(n) => n@ + ": "@,
        None => Seq::empty(),
    }) + render_type(a.ty)
}

/// Function arguments from index `i` on, comma-separated.
pub open spec fn render_arg_list(args: Seq<NamedArg>, i: int, trailing: bool) -> Seq<char>
    decreases args, args.len() - i,
{
    if 0 <= i < args.len() {
        comma_before(i) + render_named_arg(args[i]) + comma_after(i, args.len() as int, trailing)
            + render_arg_list(args, i + 1, trailing)
    } else {
        Seq::empty()
    }
}

/// A path, qualified or not.
pub open spec fn render_path(p: TypePath) -> Seq<char>
    decreases p, 0int,
{
    let n = p.segments@.len() as int;
    match p.qself {
        None => opt_str(p.leading_colon, "::"@) + render_segments(p.segments@, 0, 0),
        Some(q) => {
            let pos = if q.position < n {
                q.position as int
            } else {
                n
            };
            "<"@ + render_type(*q.ty) + opt_str(q.has_as, " as "@) + (if pos > 0 {
                opt_str(p.leading_colon, "::"@)
            } else {
                ">"@ + opt_str(p.leading_colon, "::"@)
            }) + render_segments(p.segments@, 0, pos)
        },
    }
}

/// Segments from index `i` on, `::`-separated, closing the qualified self
/// with `>` after segment `pos - 1`.
pub open spec fn render_segments(segs: Seq<PathSegment>, i: int, pos: int) -> Seq<char>
    decreases segs, segs.len() - i,
{
    if 0 <= i < segs.len() {
        render_segment(segs[i]) + opt_str(i == pos - 1, ">"@) + opt_str(i + 1 < segs.len(), "::"@)
            + render_segments(segs, i + 1, pos)
    } else {
        Seq::empty()
    }
}

pub open spec fn render_segment(s: PathSegment) -> Seq<char>
    decreases s, 0int,
{
    s.ident@ + (match s.args {
        PathArgs::Plain => Seq::empty(),
        PathArgs::Angle(a) => render_angle(a),
        PathArgs::Paren(inputs, trailing, output) => "("@ + render_arg_list(inputs@, 0, trailing)
            + ")"@ + render_output(output),
    })
}

/// `::<A, B>`.
pub open spec fn render_angle(a: AngleArgs) -> Seq<char>
    decreases a, 0int,
{
    opt_str(a.colon2, "::"@) + "<"@ + render_generic_list(a.args@, 0, a.trailing) + ">"@
}

/// Generic arguments from index `i` on, comma-separated.
pub open spec fn render_generic_list(args: Seq<GenericArg>, i: int, trailing: bool) -> Seq<char>
    decreases args, args.len() - i,
{
    if 0 <= i < args.len() {
        comma_before(i) + render_generic(args[i]) + comma_after(i, args.len() as int, trailing)
            + render_generic_list(args, i + 1, trailing)
    } else {
        Seq::empty()
    }
}

pub open spec fn render_generic(g: GenericArg) -> Seq<char>
    decreases g, 0int,
{
    match g {
        GenericArg::Lifetime(l) => l@,
        GenericArg::Type(t) => render_type(t),
        GenericArg::Constraint(ident, bounds) => ident@ + ": "@ + render_bounds(bounds),
        GenericArg::AssocType(ident, generics, ty) => ident@ + (match generics {
            Some(a) => render_angle(a),
            None => Seq::empty(),
        }) + " = "@ + render_type(ty),
        GenericArg::Verbatim(text) => text@,
    }
}

// ─── Printing ────────────────────────────────────────────────────────

/// Appends `items` as a punctuated list (see [`render_strs`]).
pub fn write_strs(
    out: &mut String,
    items: &Vec<String>,
    prefix: &str,
    punct: &str,
    suffix: &str,
    trailing: bool,
)
    ensures
        final(out)@ == old(out)@ + render_strs(items@, 0, prefix@, punct@, suffix@, trailing),
{
    let ghost goal = out@ + render_strs(items@, 0, prefix@, punct@, suffix@, trailing);
    let mut i: usize = 0;
    while i < items.len()
        invariant
            i <= items.len(),
            goal == out@ + render_strs(items@, i as int, prefix@, punct@, suffix@, trailing),
        decreases items.len() - i,
    {
        let ghost before = out@;
        if i > 0 {
            push_str(out, suffix);
        }
        push_str(out, items[i].as_str());
        if i + 1 < items.len() || trailing {
            push_str(out, prefix);
            push_str(out, punct);
        }
        i = i + 1;
        assert(goal =~= out@ + render_strs(items@, i as int, prefix@, punct@, suffix@, trailing));
    }
    assert(goal =~= out@);
}

/// Appends `text` when `present`.
fn write_opt(out: &mut String, present: bool, text: &str)
    ensures
        final(out)@ == old(out)@ + opt_str(present, text@),
{
    if present {
        push_str(out, text);
    } else {
        assert(out@ =~= out@ + opt_str(present, text@));
    }
}

/// Appends what `t` prints as.
pub fn write_type(out: &mut String, t: &TypeTree)
    ensures
        final(out)@ == old(out)@ + render_type(*t),
    decreases t, 0int,
{
    let ghost start = out@;
    match t {
        TypeTree::Path(p) => write_path(out, p),
        TypeTree::Array(elem, len) => {
            push_str(out, "[");
            write_type(out, elem);
            push_str(out, "; ");
            push_str(out, len.as_str());
            push_str(out, "]");
        },
        TypeTree::Reference(lifetime, mutable, elem) => {
            push_str(out, "&");
            match lifetime {
                Some(l) => {
                    push_str(out, l.as_str());
                    push_str(out, " ");
                },
                None => {},
            }
            write_opt(out, *mutable, "mut ");
            write_type(out, elem);
        },
        TypeTree::Group(elem) => write_type(out, elem),
        TypeTree::Paren(elem) => {
            push_str(out, "(");
            write_type(out, elem);
            push_str(out, ")");
        },
        TypeTree::Ptr(mutable, elem) => {
            push_str(out, "*");
            if *mutable {
                push_str(out, "mut ");
            } else {
                push_str(out, "const ");
            }
            write_type(out, elem);
        },
        TypeTree::Slice(elem) => {
            push_str(out, "[");
            write_type(out, elem);
            push_str(out, "]");
        },
        TypeTree::TraitObject(bounds) => {
            push_str(out, "dyn ");
            write_strs(out, &bounds.items, " ", "+", " ", bounds.trailing);
        },
        TypeTree::ImplTrait(bounds) => {
            push_str(out, "impl ");
            write_strs(out, &bounds.items, " ", "+", " ", bounds.trailing);
        },
        TypeTree::FnPtr(f) => write_fn_ptr(out, f),
        TypeTree::Tuple(elems, trailing) => {
            push_str(out, "(");
            write_type_list(out, elems, *trailing);
            push_str(out, ")");
        },
        TypeTree::Verbatim(text) => push_str(out, text.as_str()),
    }
    assert(out@ =~= start + render_type(*t));
}

/// Appends `es`, comma-separated.
pub fn write_type_list(out: &mut String, es: &Vec<TypeTree>, trailing: bool)
    ensures
        final(out)@ == old(out)@ + render_type_list(es@, 0, trailing),
    decreases es, 1int,
{
    let ghost goal = out@ + render_type_list(es@, 0, trailing);
    let mut i: usize = 0;
    while i < es.len()
        invariant
            i <= es.len(),
            goal == out@ + render_type_list(es@, i as int, trailing),
        decreases es.len() - i,
    {
        proof {
            assert(decreases_to!(*es => es@));
            assert(decreases_to!(es@ => es@[i as int]));
        }
        if i > 0 {
            push_str(out, " ");
        }
        write_type(out, &es[i]);
        if i + 1 < es.len() || trailing {
            push_str(out, ",");
        }
        i = i + 1;
        assert(goal =~= out@ + render_type_list(es@, i as int, trailing));
    }
    assert(goal =~= out@);
}

pub fn write_fn_ptr(out: &mut String, f: &FnPtrType)
    ensures
        final(out)@ == old(out)@ + render_fn_ptr(*f),
    decreases f, 0int,
{
    let ghost start = out@;
    write_fn_ptr_head(out, f);
    push_str(out, "fn(");
    let ghost s1 = out@;
    write_arg_list(out, &f.inputs, f.inputs_trailing);
    let ghost s2 = out@;
    write_fn_ptr_variadic(out, f);
    let ghost s3 = out@;
    push_str(out, ")");
    let ghost s4 = out@;
    write_output(out, &f.output);
    proof {
        let head = fn_ptr_head(*f) + "fn("@;
        let args = render_arg_list(f.inputs@, 0, f.inputs_trailing);
        assert(s1 == start + head);
        assert(s2 == s1 + args);
        assert(s3 == s2 + fn_ptr_variadic(*f));
        assert(s4 == s3 + ")"@);
        assert(out@ == s4 + render_output(f.output));
        assert(out@ =~= start + (head + args + fn_ptr_variadic(*f) + ")"@ + render_output(f.output)));
    }
}

fn write_fn_ptr_variadic(out: &mut String, f: &FnPtrType)
    ensures
        final(out)@ == old(out)@ + fn_ptr_variadic(*f),
{
    let ghost start = out@;
    match &f.variadic {
        Some(v) => {
            write_opt(out, f.inputs.len() > 0, " ");
            push_str(out, v.as_str());
        },
        None => {},
    }
    assert(out@ =~= start + fn_ptr_variadic(*f));
}

fn write_fn_ptr_head(out: &mut String, f: &FnPtrType)
    ensures
        final(out)@ == old(out)@ + fn_ptr_head(*f),
{
    proof {
        reveal_strlit("");
        assert(""@ =~= Seq::<char>::empty());
    }
    let ghost start = out@;
    match &f.lifetimes {
        Some(l) => {
            push_str(out, "for<");
            write_strs(out, &l.items, "", ",", " ", l.trailing);
            push_str(out, "> ");
        },
        None => {},
    }
    write_opt(out, f.unsafety, "unsafe ");
    match &f.abi {
        Some(a) => {
            push_str(out, a.as_str());
            push_str(out, " ");
        },
        None => {},
    }
    assert(out@ =~= start + fn_ptr_head(*f));
}

/// Appends `" -> T"` for an explicit return type.
pub fn write_output(out: &mut String, output: &Option<Box<TypeTree>>)
    ensures
        final(out)@ == old(out)@ + render_output(*output),
    decreases output, 1int,
{
    match output {
        Some(t) => {
            push_str(out, " -> ");
            write_type(out, t);
        },
        None => {
            assert(out@ =~= out@ + render_output(*output));
        },
    }
}

pub fn write_named_arg(out: &mut String, a: &NamedArg)
    ensures
        final(out)@ == old(out)@ + render_named_arg(*a),
    decreases a, 0int,
{
    proof {
        reveal_strlit("");
        assert(""@ =~= Seq::<char>::empty());
    }
    let ghost start = out@;
    write_strs(out, &a.attrs, "", " ", "", true);
    match &a.name {
        Some(n) => {
            push_str(out, n.as_str());
            push_str(out, ": ");
        },
        None => {},
    }
    write_type(out, &a.ty);
    assert(out@ =~= start + render_named_arg(*a));
}

/// Appends function arguments, comma-separated.
pub fn write_arg_list(out: &mut String, args: &Vec<NamedArg>, trailing: bool)
    ensures
        final(out)@ == old(out)@ + render_arg_list(args@, 0, trailing),
    decreases args, 1int,
{
    let ghost goal = out@ + render_arg_list(args@, 0, trailing);
    let mut i: usize = 0;
    while i < args.len()
        invariant
            i <= args.len(),
            goal == out@ + render_arg_list(args@, i as int, trailing),
        decreases args.len() - i,
    {
        proof {
            assert(decreases_to!(*args => args@));
            assert(decreases_to!(args@ => args@[i as int]));
        }
        if i > 0 {
            push_str(out, " ");
        }
        write_named_arg(out, &args[i]);
        if i + 1 < args.len() || trailing {
            push_str(out, ",");
        }
        i = i + 1;
        assert(goal =~= out@ + render_arg_list(args@, i as int, trailing));
    }
    assert(goal =~= out@);
}

/// Appends a path, qualified or not.
pub fn write_path(out: &mut String, p: &TypePath)
    ensures
        final(out)@ == old(out)@ + render_path(*p),
    decreases p, 0int,
{
    let ghost start = out@;
    let n = p.segments.len();
    match &p.qself {
        None => {
            write_opt(out, p.leading_colon, "::");
            write_segments(out, &p.segments, 0);
        },
        Some(q) => {
            let pos = if q.position < n {
                q.position
            } else {
                n
            };
            push_str(out, "<");
            write_type(out, &q.ty);
            write_opt(out, q.has_as, " as ");
            if pos > 0 {
                write_opt(out, p.leading_colon, "::");
            } else {
                push_str(out, ">");
                write_opt(out, p.leading_colon, "::");
            }
            write_segments(out, &p.segments, pos);
        },
    }
    assert(out@ =~= start + render_path(*p));
}

/// Appends `segs`, `::`-separated, closing a qualified self with `>` after
/// segment `pos - 1`.
pub fn write_segments(out: &mut String, segs: &Vec<PathSegment>, pos: usize)
    ensures
        final(out)@ == old(out)@ + render_segments(segs@, 0, pos as int),
    decreases segs, 1int,
{
    let ghost goal = out@ + render_segments(segs@, 0, pos as int);
    let mut i: usize = 0;
    while i < segs.len()
        invariant
            i <= segs.len(),
            goal == out@ + render_segments(segs@, i as int, pos as int),
        decreases segs.len() - i,
    {
        proof {
            assert(decreases_to!(*segs => segs@));
            assert(decreases_to!(segs@ => segs@[i as int]));
        }
        write_segment(out, &segs[i]);
        write_opt(out, pos > 0 && i == pos - 1, ">");
        write_opt(out, i + 1 < segs.len(), "::");
        i = i + 1;
        assert(goal =~= out@ + render_segments(segs@, i as int, pos as int));
    }
    assert(goal =~= out@);
}

pub fn write_segment(out: &mut String, s: &PathSegment)
    ensures
        final(out)@ == old(out)@ + render_segment(*s),
    decreases s, 0int,
{
    let ghost start = out@;
    push_str(out, s.ident.as_str());
    match &s.args {
        PathArgs::Plain => {},
        PathArgs::Angle(a) => write_angle(out, a),
        PathArgs::Paren(inputs, trailing, output) => {
            push_str(out, "(");
            write_arg_list(out, inputs, *trailing);
            push_str(out, ")");
            write_output(out, output);
        },
    }
    assert(out@ =~= start + render_segment(*s));
}

/// Appends `::<A, B>`.
pub fn write_angle(out: &mut String, a: &AngleArgs)
    ensures
        final(out)@ == old(out)@ + render_angle(*a),
    decreases a, 0int,
{
    let ghost start = out@;
    write_opt(out, a.colon2, "::");
    push_str(out, "<");
    write_generic_list(out, &a.args, a.trailing);
    push_str(out, ">");
    assert(out@ =~= start + render_angle(*a));
}

/// Appends generic arguments, comma-separated.
pub fn write_generic_list(out: &mut String, args: &Vec<GenericArg>, trailing: bool)
    ensures
        final(out)@ == old(out)@ + render_generic_list(args@, 0, trailing),
    decreases args, 1int,
{
    let ghost goal = out@ + render_generic_list(args@, 0, trailing);
    let mut i: usize = 0;
    while i < args.len()
        invariant
            i <= args.len(),
            goal == out@ + render_generic_list(args@, i as int, trailing),
        decreases args.len() - i,
    {
        proof {
            assert(decreases_to!(*args => args@));
            assert(decreases_to!(args@ => args@[i as int]));
        }
        if i > 0 {
            push_str(out, " ");
        }
        write_generic(out, &args[i]);
        if i + 1 < args.len() || trailing {
            push_str(out, ",");
        }
        i = i + 1;
        assert(goal =~= out@ + render_generic_list(args@, i as int, trailing));
    }
    assert(goal =~= out@);
}

pub fn write_generic(out: &mut String, g: &GenericArg)
    ensures
        final(out)@ == old(out)@ + render_generic(*g),
    decreases g, 0int,
{
    let ghost start = out@;
    match g {
        GenericArg::Lifetime(l) => push_str(out, l.as_str()),
        GenericArg::Type(t) => write_type(out, t),
        GenericArg::Constraint(ident, bounds) => {
            push_str(out, ident.as_str());
            push_str(out, ": ");
            write_strs(out, &bounds.items, " ", "+", " ", bounds.trailing);
        },
        GenericArg::AssocType(ident, generics, ty) => {
            push_str(out, ident.as_str());
            match generics {
                Some(a) => write_angle(out, a),
                None => {},
            }
            push_str(out, " = ");
            write_type(out, ty);
        },
        GenericArg::Verbatim(text) => push_str(out, text.as_str()),
    }
    assert(out@ =~= start + render_generic(*g));
}

/// Types that print as Rust source text.
pub trait Pretty {
    spec fn pretty_text(&self) -> Seq<char>;

    /// The source text of `self`.
    fn pretty(&self) -> (r: String)
        ensures
            r@ == self.pretty_text(),
    ;
}

impl Pretty for TypeTree {
    open spec fn pretty_text(&self) -> Seq<char> {
        render_type(*self)
    }

    fn pretty(&self) -> (r: String) {
        let mut out = String::new();
        write_type(&mut out, self);
        out
    }
}

} // verus!

use oopsie_macros::pretty::Pretty;
use oopsie_macros::types::{
    AngleArgs, FnPtrType, GenericArg, NamedArg, PathArgs, PathSegment, PunctStrs, QSelf,
    TypePath, TypeTree,
};

fn seg(name: &str) -> PathSegment {
    PathSegment { ident: name.to_string(), args: PathArgs::Plain }
}

fn seg_args(name: &str, args: Vec<GenericArg>) -> PathSegment {
    PathSegment {
        ident: name.to_string(),
        args: PathArgs::Angle(AngleArgs { colon2: false, args, trailing: false }),
    }
}

fn path_of(leading_colon: bool, segments: Vec<PathSegment>) -> TypeTree {
    TypeTree::Path(TypePath { qself: None, leading_colon, segments })
}

fn ty(name: &str) -> TypeTree {
    path_of(false, vec![seg(name)])
}

fn strs(items: &[&str], trailing: bool) -> PunctStrs {
    PunctStrs { items: items.iter().map(|s| s.to_string()).collect(), trailing }
}

fn qualified(self_ty: TypeTree, position: usize, has_as: bool, leading_colon: bool, segments: Vec<PathSegment>) -> TypeTree {
    TypeTree::Path(TypePath {
        qself: Some(QSelf { ty: Box::new(self_ty), position, has_as }),
        leading_colon,
        segments,
    })
}

fn reference(lifetime: Option<&str>, mutable: bool, elem: TypeTree) -> TypeTree {
    TypeTree::Reference(lifetime.map(|l| l.to_string()), mutable, Box::new(elem))
}

fn arg(t: TypeTree) -> NamedArg {
    NamedArg { attrs: vec![], name: None, ty: t }
}

#[test]
fn prints_paths_and_generics() {
    assert_eq!(ty("T").pretty(), "T");
    assert_eq!(path_of(false, vec![seg_args("Vec", vec![GenericArg::Type(ty("T"))])]).pretty(), "Vec<T>");
    let nested = path_of(false, vec![seg_args("Vec", vec![GenericArg::Type(path_of(false, vec![seg_args("Vec", vec![GenericArg::Type(ty("T"))])]))])]);
    assert_eq!(nested.pretty(), "Vec<Vec<T>>");
    let map = path_of(false, vec![seg("std"), seg("collections"), seg_args("HashMap", vec![GenericArg::Type(ty("K")), GenericArg::Type(ty("V"))])]);
    assert_eq!(map.pretty(), "std::collections::HashMap<K, V>");
    let abs = path_of(true, vec![seg("std"), seg("vec"), seg_args("Vec", vec![GenericArg::Type(ty("T"))])]);
    assert_eq!(abs.pretty(), "::std::vec::Vec<T>");
    assert_eq!(path_of(false, vec![seg_args("Foo", vec![GenericArg::Verbatim("3".to_string())])]).pretty(), "Foo<3>");
    assert_eq!(
        path_of(false, vec![seg_args("Foo", vec![GenericArg::AssocType("Bar".to_string(), None, ty("u8"))])]).pretty(),
        "Foo<Bar = u8>"
    );
    assert_eq!(
        path_of(false, vec![seg_args("Cow", vec![GenericArg::Lifetime("'a".to_string()), GenericArg::Type(ty("str"))])]).pretty(),
        "Cow<'a, str>"
    );
}

#[test]
fn prints_qualified_paths() {
    // `<T>::Output` has no trait: the `::` after `>` is the path's leading colon.
    assert_eq!(qualified(ty("T"), 0, false, true, vec![seg("Output")]).pretty(), "<T>::Output");
    assert_eq!(qualified(ty("T"), 1, true, false, vec![seg("Trait"), seg("Output")]).pretty(), "<T as Trait>::Output");
    assert_eq!(
        qualified(ty("T"), 3, true, true, vec![seg("std"), seg("ops"), seg("Add"), seg("Output")]).pretty(),
        "<T as ::std::ops::Add>::Output"
    );
    let map = path_of(false, vec![seg("std"), seg("collections"), seg_args("HashMap", vec![GenericArg::Type(ty("K")), GenericArg::Type(ty("V"))])]);
    let inner = qualified(map, 1, true, false, vec![seg("Trait"), seg("AssociatedType")]);
    let outer = qualified(inner, 1, true, false, vec![seg("AnotherTrait"), seg("NestedAssociatedType")]);
    assert_eq!(
        outer.pretty(),
        "<<std::collections::HashMap<K, V> as Trait>::AssociatedType as AnotherTrait>::NestedAssociatedType"
    );
}

#[test]
fn prints_references_pointers_and_sequences() {
    assert_eq!(reference(None, false, ty("T")).pretty(), "&T");
    assert_eq!(reference(None, true, ty("T")).pretty(), "&mut T");
    assert_eq!(reference(Some("'a"), true, ty("T")).pretty(), "&'a mut T");
    assert_eq!(TypeTree::Ptr(false, Box::new(ty("T"))).pretty(), "*const T");
    assert_eq!(TypeTree::Ptr(true, Box::new(ty("T"))).pretty(), "*mut T");
    assert_eq!(TypeTree::Slice(Box::new(ty("u8"))).pretty(), "[u8]");
    assert_eq!(TypeTree::Array(Box::new(ty("T")), "3".to_string()).pretty(), "[T; 3]");
    assert_eq!(TypeTree::Tuple(vec![], false).pretty(), "()");
    assert_eq!(TypeTree::Tuple(vec![ty("T")], true).pretty(), "(T,)");
    assert_eq!(TypeTree::Tuple(vec![ty("A"), ty("B"), ty("C")], false).pretty(), "(A, B, C)");
    assert_eq!(TypeTree::Paren(Box::new(ty("T"))).pretty(), "(T)");
    assert_eq!(TypeTree::Group(Box::new(ty("T"))).pretty(), "T");
}

#[test]
fn prints_trait_objects_and_fn_pointers() {
    assert_eq!(TypeTree::TraitObject(strs(&["Trait"], false)).pretty(), "dyn Trait");
    assert_eq!(TypeTree::TraitObject(strs(&["Trait", "Send", "'a"], false)).pretty(), "dyn Trait + Send + 'a");
    assert_eq!(TypeTree::ImplTrait(strs(&["Iterator"], false)).pretty(), "impl Iterator");
    let boxed = path_of(false, vec![seg_args("Box", vec![GenericArg::Type(TypeTree::TraitObject(strs(&["Error", "Send", "Sync", "'static"], false)))])]);
    assert_eq!(boxed.pretty(), "Box<dyn Error + Send + Sync + 'static>");
    let unit_fn = TypeTree::FnPtr(FnPtrType {
        lifetimes: None, unsafety: false, abi: None, inputs: vec![], inputs_trailing: false, variadic: None, output: None,
    });
    assert_eq!(unit_fn.pretty(), "fn()");
    let simple = TypeTree::FnPtr(FnPtrType {
        lifetimes: None, unsafety: false, abi: None, inputs: vec![arg(ty("u8"))], inputs_trailing: false, variadic: None,
        output: Some(Box::new(ty("u8"))),
    });
    assert_eq!(simple.pretty(), "fn(u8) -> u8");
    let ext = TypeTree::FnPtr(FnPtrType {
        lifetimes: None, unsafety: false, abi: Some("extern \"C\"".to_string()), inputs: vec![], inputs_trailing: false,
        variadic: None, output: None,
    });
    assert_eq!(ext.pretty(), "extern \"C\" fn()");
    let hrtb = TypeTree::FnPtr(FnPtrType {
        lifetimes: Some(strs(&["'a", "'b"], false)),
        unsafety: true,
        abi: Some("extern \"C\"".to_string()),
        inputs: vec![arg(reference(Some("'a"), false, ty("T"))), arg(reference(Some("'b"), false, ty("U")))],
        inputs_trailing: true,
        variadic: Some("...".to_string()),
        output: Some(Box::new(reference(Some("'a"), false, ty("V")))),
    });
    assert_eq!(hrtb.pretty(), "for<'a, 'b> unsafe extern \"C\" fn(&'a T, &'b U, ...) -> &'a V");
    let named = NamedArg { attrs: vec!["#[a]".to_string()], name: Some("x".to_string()), ty: ty("u8") };
    let with_name = TypeTree::FnPtr(FnPtrType {
        lifetimes: None, unsafety: false, abi: None, inputs: vec![named], inputs_trailing: false, variadic: None, output: None,
    });
    assert_eq!(with_name.pretty(), "fn(#[a] x: u8)");
}

#[test]
fn prints_verbatim_types_as_tokens() {
    assert_eq!(TypeTree::Verbatim("!".to_string()).pretty(), "!");
    assert_eq!(TypeTree::Verbatim("_".to_string()).pretty(), "_");
}

#[test]
fn prints_parenthesized_path_arguments() {
    let f = path_of(false, vec![PathSegment {
        ident: "Fn".to_string(),
        args: PathArgs::Paren(vec![arg(ty("A")), arg(ty("B"))], false, Some(Box::new(ty("C")))),
    }]);
    assert_eq!(f.pretty(), "Fn(A, B) -> C");
}

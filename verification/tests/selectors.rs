use oopsie_macros::selectors::{
    free_params, free_predicates, leaf_predicate_pool, lift_into_child_module, resolve_selector_vis, scoped_predicates,
    selector_shape, unconstrained_error_param, unconstrained_message, ParamDecl, ParamKind, ParamRefs, PoolPred,
    ShapeField, Vis,
};

fn p(kind: ParamKind, name: &str, has_bounds: bool) -> ParamDecl {
    ParamDecl { kind, name: name.to_string(), has_bounds }
}

fn s(v: &[&str]) -> Vec<String> {
    v.iter().map(|x| x.to_string()).collect()
}

fn refs(types: &[&str], consts: &[&str], lifetimes: &[&str]) -> ParamRefs {
    ParamRefs { types: s(types), consts: s(consts), lifetimes: s(lifetimes) }
}

fn field(r: ParamRefs, has_cfg: bool) -> ShapeField {
    ShapeField { refs: r, has_cfg }
}

/// `enum E<'a, T: Clone, U, const N: usize>`
fn params() -> Vec<ParamDecl> {
    vec![
        p(ParamKind::Lifetime, "a", false),
        p(ParamKind::Type, "T", true),
        p(ParamKind::Type, "U", false),
        p(ParamKind::Const, "N", false),
    ]
}

#[test]
fn selector_redeclares_only_mentioned_params_in_order() {
    // fields: `val: U`, `buf: [u8; N]`, `msg: String`
    let fields = vec![
        field(refs(&["U"], &[], &[]), false),
        field(refs(&[], &["N"], &[]), false),
        field(refs(&[], &[], &[]), false),
    ];
    let shape = selector_shape(&params(), &fields);
    assert_eq!(shape.projected, vec![2, 3]);
    assert_eq!(shape.referenced_names, s(&["U", "N"]));
    assert_eq!(shape.rides_into, vec![false, false, true]);
    assert!(!shape.copyable);
}

#[test]
fn leaf_selector_without_params_is_copyable() {
    let fields = vec![field(refs(&[], &[], &[]), false), field(refs(&[], &[], &[]), false)];
    let shape = selector_shape(&params(), &fields);
    assert!(shape.projected.is_empty());
    assert_eq!(shape.rides_into, vec![true, true]);
    assert!(shape.copyable);
}

#[test]
fn cfg_gated_field_keeps_its_type() {
    let fields = vec![field(refs(&[], &[], &[]), true)];
    let shape = selector_shape(&params(), &fields);
    assert_eq!(shape.rides_into, vec![false]);
    assert!(!shape.copyable);
}

#[test]
fn kind_matters_for_projection() {
    // A type named like the lifetime does not project the lifetime.
    let fields = vec![field(refs(&["a"], &[], &[]), false)];
    assert!(selector_shape(&params(), &fields).projected.is_empty());
    let fields = vec![field(refs(&[], &[], &["a"]), false)];
    assert_eq!(selector_shape(&params(), &fields).projected, vec![0]);
}

#[test]
fn free_params_are_the_unmentioned_ones() {
    assert_eq!(free_params(&params(), &s(&["T"])), vec![0, 2, 3]);
    assert_eq!(free_params(&params(), &s(&["a", "T", "U", "N"])), Vec::<usize>::new());
}

#[test]
fn pool_lowers_bounds_of_projected_params_then_where_clause() {
    // `T: Clone` lowers when `T` is projected; `U` has no bounds; a const never lowers.
    let mut ps = params();
    ps[3].has_bounds = true;
    assert_eq!(
        leaf_predicate_pool(&ps, &s(&["T", "U", "N"]), 2),
        vec![PoolPred::Inline(1), PoolPred::Where(0), PoolPred::Where(1)]
    );
    assert_eq!(leaf_predicate_pool(&ps, &s(&["U"]), 0), Vec::<PoolPred>::new());
}

#[test]
fn each_predicate_lands_on_exactly_one_impl() {
    // Predicates naming {T}, {T, U}, {} and {U}; the selector carries T.
    let named = vec![s(&["T"]), s(&["T", "U"]), s(&[]), s(&["U"])];
    let names = s(&["T"]);
    let scoped = scoped_predicates(&named, &names);
    let free = free_predicates(&named, &params(), &names);
    assert_eq!(scoped, vec![0, 2]);
    assert_eq!(free, vec![1, 3]);
    for k in 0..named.len() {
        assert_ne!(scoped.contains(&k), free.contains(&k), "predicate {k}");
    }
}

#[test]
fn unconstrained_param_is_reported_by_name() {
    let ps = params();
    // Fields mention T; the source type mentions U: N is left.
    let k = unconstrained_error_param(&ps, &s(&["T"]), &refs(&["U"], &[], &[])).unwrap();
    assert_eq!(k, 3);
    assert_eq!(unconstrained_error_param(&ps, &s(&["T", "N"]), &refs(&["U"], &[], &[])), None);
    let m = unconstrained_message(&ps[k].name);
    assert_eq!(
        m,
        "a variant with a `source` field must reference every generic parameter of the error type in its source \
         type or its other fields; parameter `N` is used only by other variants, which would leave this \
         selector's `Contextual` impl unconstrained — split it into its own error type or add `N` to this variant"
    );
}

fn vis_text(v: &Vis) -> String {
    match v {
        Vis::Public => "pub".to_string(),
        Vis::Inherited => String::new(),
        Vis::Restricted { in_kw, path } => {
            format!("pub({}{})", if *in_kw { "in " } else { "" }, path.join("::"))
        }
    }
}

#[test]
fn lifting_a_visibility_into_a_child_module() {
    assert_eq!(vis_text(&lift_into_child_module(&Vis::Public)), "pub");
    assert_eq!(vis_text(&lift_into_child_module(&Vis::Inherited)), "pub(super)");
    let krate = Vis::Restricted { in_kw: false, path: s(&["crate"]) };
    assert_eq!(vis_text(&lift_into_child_module(&krate)), "pub(crate)");
    let this = Vis::Restricted { in_kw: false, path: s(&["self"]) };
    assert_eq!(vis_text(&lift_into_child_module(&this)), "pub(super)");
    let sup = Vis::Restricted { in_kw: false, path: s(&["super"]) };
    assert_eq!(vis_text(&lift_into_child_module(&sup)), "pub(in super::super)");
    let path = Vis::Restricted { in_kw: true, path: s(&["crate", "errors"]) };
    assert_eq!(vis_text(&lift_into_child_module(&path)), "pub(in crate::errors)");
}

#[test]
fn selector_vis_prefers_the_explicit_one() {
    let explicit = Vis::Restricted { in_kw: false, path: s(&["crate"]) };
    assert_eq!(vis_text(&resolve_selector_vis(Some(&explicit), &Vis::Public, true)), "pub(crate)");
    assert_eq!(vis_text(&resolve_selector_vis(None, &Vis::Inherited, true)), "pub(super)");
    assert_eq!(vis_text(&resolve_selector_vis(None, &Vis::Inherited, false)), "");
}

#[test]
fn pub_enum_selector_defaults_to_pub() {
    // `#[oopsie(module(false))] pub enum PubError`: no `vis`, no module.
    let v = resolve_selector_vis(None, &Vis::Public, false);
    assert_eq!(vis_text(&v), "pub");
}

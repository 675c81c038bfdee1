use oopsie_macros::cfg_atoms::{CfgAtoms, Pred, PredKind};
use oopsie_macros::cfg_view::{collect_item, keeps_field, resolve_attrs, AttrMeta, FieldCfg};
use oopsie_macros::cfg_gate::{assignment_count, cube_literals, gate, minimal_cover, Cube, Gate};
use oopsie_macros::cfg_render::gate_text;
use oopsie_macros::fields::TraceRole;
use oopsie_macros::types::{PathArgs, PathSegment, TypePath, TypeTree};

fn word(s: &str) -> Pred {
    Pred { text: s.to_string(), kind: PredKind::Word(Some(s.to_string())) }
}

fn name_value(s: &str) -> Pred {
    Pred { text: s.to_string(), kind: PredKind::NameValue }
}

fn list(op: &str, args: Vec<Pred>) -> Pred {
    let inner: Vec<String> = args.iter().map(|a| a.text.clone()).collect();
    Pred { text: format!("{op}({})", inner.join(", ")), kind: PredKind::List(Some(op.to_string()), Some(args)) }
}

fn atoms(preds: Vec<Pred>) -> Result<CfgAtoms, String> {
    CfgAtoms::collect(preds.into_iter().map(|p| (p.text.clone(), Some(p))).collect())
}


#[test]
fn constant_predicates_add_no_bases() {
    let a = atoms(vec![list("any", vec![]), list("not", vec![list("any", vec![])]), word("true")]).unwrap();
    assert!(a.bases.is_empty());
    assert_eq!(a.holds("any()", 0), Some(false));
    assert_eq!(a.holds("not(any())", 0), Some(true));
    assert_eq!(a.holds("true", 0), Some(true));
}

#[test]
fn repeated_predicates_are_interned_once() {
    let a = atoms(vec![word("unix"), word("unix")]).unwrap();
    assert_eq!(a.atoms.len(), 1);
    assert_eq!(a.bases.len(), 1);
}

#[test]
fn unparsed_predicates_are_bases() {
    let a = CfgAtoms::collect(vec![("weird tokens".to_string(), None)]).unwrap();
    assert_eq!(a.bases, vec!["weird tokens".to_string()]);
    assert_eq!(a.holds("weird tokens", 1), Some(true));
    let not2 = list("not", vec![word("a"), word("b")]);
    let a = atoms(vec![not2]).unwrap();
    assert_eq!(a.bases, vec!["a".to_string(), "b".to_string(), "not(a, b)".to_string()]);
}

#[test]
fn too_many_bases_are_listed() {
    let preds: Vec<Pred> = (0..9).map(|i| name_value(&format!("feature = \"f{i}\""))).collect();
    let err = atoms(preds).err().unwrap();
    assert!(err.starts_with("too many distinct `cfg` predicates affect trace injection here (at most 8, found 9: `feature = \"f0\"`, `feature = \"f1\"`"));
    assert!(err.ends_with("with explicit trace fields"));
}

#[test]
fn gate_is_unconditional_when_outcomes_agree() {
    assert!(matches!(gate(1, &[true, true]), Gate::On));
    assert!(gate(1, &[false, false]).is_off());
    assert!(Gate::from_bool(false).is_off());
}

fn terms(g: &Gate, n: usize) -> Vec<Vec<(usize, bool)>> {
    match g {
        Gate::Cfg(cubes) => cubes.iter().map(|c| cube_literals(*c, n)).collect(),
        _ => panic!("expected a conditional gate"),
    }
}

#[test]
fn gate_merges_adjacent_terms() {
    // Bases a, b, c: wanted when `a`, or when both `b` and `c`.
    let outcomes: Vec<bool> = (0u32..8).map(|bits| bits & 1 != 0 || bits & 0b110 == 0b110).collect();
    let g = gate(3, &outcomes);
    assert_eq!(terms(&g, 3), vec![vec![(0, true)], vec![(1, true), (2, true)]]);
    assert_eq!(gate_text(&g, &bases(&["a", "b", "c"])), Some("any(a, all(b, c))".to_string()));
}

#[test]
fn gate_drops_atoms_the_outcome_ignores() {
    // Bases a, b: wanted exactly when `a` is unset.
    let g = gate(2, &[true, false, true, false]);
    assert_eq!(terms(&g, 2), vec![vec![(0, false)]]);
    assert_eq!(gate_text(&g, &bases(&["a", "b"])), Some("not(a)".to_string()));
}

#[test]
fn gate_names_the_bases_of_a_compound_atom() {
    let a = atoms(vec![list("all", vec![name_value("feature = \"x\""), list("not", vec![word("unix")])])]).unwrap();
    assert_eq!(a.bases, vec!["feature = \"x\"".to_string(), "unix".to_string()]);
    let outcomes: Vec<bool> = (0u32..4).map(|bits| bits == 0b01).collect();
    let g = gate(a.bases.len(), &outcomes);
    assert_eq!(terms(&g, 2), vec![vec![(0, true), (1, false)]]);
    assert_eq!(gate_text(&g, &a.bases), Some("all(feature = \"x\", not(unix))".to_string()));
}

fn bases(names: &[&str]) -> Vec<String> {
    names.iter().map(|n| n.to_string()).collect()
}

#[test]
fn unconditional_gates_have_no_predicate() {
    assert_eq!(gate_text(&Gate::On, &bases(&["a"])), None);
    assert_eq!(gate_text(&Gate::Off, &bases(&["a"])), None);
}






#[test]
fn minimal_cover_covers_exactly_the_outcomes() {
    let outcomes = [true, false, false, true, true, true, false, false];
    let cover = minimal_cover(3, &outcomes);
    for x in 0u32..8 {
        assert_eq!(cover.iter().any(|c| c.covers(x)), outcomes[x as usize], "assignment {x}");
    }
    assert_eq!(assignment_count(3), 8);
    let c = Cube { care: 0b10, value: 0b10 };
    assert!(c.covers(0b11) && !c.covers(0b01));
}

#[test]
fn minimal_cover_merges_into_prime_cubes() {
    let cover = minimal_cover(2, &[true, false, true, false]);
    assert_eq!(cover, vec![Cube { care: 0b01, value: 0b00 }]);
    let outcomes: Vec<bool> = (0u32..8).map(|i| i & 1 != 0 || i & 6 == 6).collect();
    let cover = minimal_cover(3, &outcomes);
    assert_eq!(cover, vec![Cube { care: 0b001, value: 0b001 }, Cube { care: 0b110, value: 0b110 }]);
}

#[test]
fn minimal_cover_of_nothing_is_empty() {
    assert!(minimal_cover(2, &[false, false, false, false]).is_empty());
    assert!(minimal_cover(0, &[]).is_empty());
}

#[test]
fn minimal_cover_has_no_more_cubes_than_wanted_assignments() {
    let outcomes = [true, false, false, true, false, true, true, false];
    let cover = minimal_cover(3, &outcomes);
    assert!(cover.len() <= outcomes.iter().filter(|o| **o).count());
    for c in &cover {
        assert_eq!(c.value & !c.care, 0);
        assert!(c.care < 8);
    }
}

#[test]
fn gate_of_alternating_outcomes_is_one_cube() {
    match gate(2, &[true, false, true, false]) {
        Gate::Cfg(terms) => assert_eq!(terms, vec![Cube { care: 0b01, value: 0b00 }]),
        other => panic!("expected a cfg gate, got {other:?}"),
    }
}

fn path_ty(name: &str) -> TypeTree {
    TypeTree::Path(TypePath {
        qself: None,
        leading_colon: false,
        segments: vec![PathSegment { ident: name.to_string(), args: PathArgs::Plain }],
    })
}

fn system_time() -> TypeTree {
    path_ty("SystemTime")
}

fn cfg_attr(id: usize, p: Pred, inner: Vec<AttrMeta>) -> AttrMeta {
    AttrMeta::CfgAttr(id, p.text.clone(), Some(p), inner)
}

/// A field carrying `#[cfg(p)]`.
fn gated_field(ty: &str, p: Pred) -> FieldCfg {
    FieldCfg { attrs: vec![AttrMeta::Other(0)], ty: path_ty(ty), existence: Some((p.text.clone(), Some(p))) }
}

fn key(p: &Pred) -> Option<String> {
    Some(p.text.clone())
}

#[test]
fn correlated_predicates_share_their_base() {
    // `#[cfg_attr(feature = "a", oopsie(traced = false))]` on the item, and a
    // field `#[cfg(all(unix, not(feature = "a")))] bt: Backtrace`.
    let a = || name_value("feature = \"a\"");
    let exist = || list("all", vec![word("unix"), list("not", vec![name_value("feature = \"a\"")])]);
    let attrs = vec![cfg_attr(0, a(), vec![AttrMeta::Oopsie(1)])];
    let atoms = collect_item(attrs, vec![gated_field("Backtrace", exist())], &system_time()).unwrap();
    let attrs = vec![cfg_attr(0, a(), vec![AttrMeta::Oopsie(1)])];
    let exist = exist();
    let seen: Vec<(bool, bool)> = (0..assignment_count(atoms.bases.len()))
        .map(|bits| (!resolve_attrs(&atoms, &attrs, bits).is_empty(), keeps_field(&atoms, &key(&exist), bits)))
        .collect();
    assert_eq!(seen, [(false, false), (true, false), (false, true), (true, false)]);
}

#[test]
fn no_conditionals_yield_a_single_assignment() {
    // `struct S { #[cfg(feature = "x")] info: String }`: the field fills no role.
    let atoms = collect_item(vec![], vec![gated_field("String", name_value("feature = \"x\""))], &system_time()).unwrap();
    assert_eq!(assignment_count(atoms.bases.len()), 1);
}

#[test]
fn cfg_attr_oopsie_is_expanded_or_dropped() {
    // `#[cfg_attr(feature = "x", oopsie(traced = false), doc = "d")]`
    let make = || vec![cfg_attr(0, name_value("feature = \"x\""), vec![AttrMeta::Oopsie(1), AttrMeta::Other(2)])];
    let atoms = collect_item(make(), vec![], &system_time()).unwrap();
    let attrs = make();
    let resolved: Vec<Vec<usize>> = (0..assignment_count(atoms.bases.len())).map(|bits| resolve_attrs(&atoms, &attrs, bits)).collect();
    assert!(resolved[0].is_empty());
    assert_eq!(resolved[1], vec![1, 2]);
}

#[test]
fn cfg_gated_trace_field_is_an_atom() {
    // `struct S { #[cfg(feature = "x")] bt: Backtrace }`
    let p = name_value("feature = \"x\"");
    let atoms = collect_item(vec![], vec![gated_field("Backtrace", name_value("feature = \"x\""))], &system_time()).unwrap();
    let counts: Vec<usize> = (0..assignment_count(atoms.bases.len()))
        .map(|bits| if keeps_field(&atoms, &key(&p), bits) { 1 } else { 0 })
        .collect();
    assert_eq!(counts, [0, 1]);
}

#[test]
fn cfg_gated_configured_timestamp_type_is_an_atom() {
    // `struct S { #[cfg(feature = "x")] at: Stamp }` with `Stamp` configured.
    let stamp = path_ty("Stamp");
    assert!(TraceRole::of_type(&stamp, &stamp).any());
    let atoms = collect_item(vec![], vec![gated_field("Stamp", name_value("feature = \"x\""))], &stamp).unwrap();
    assert_eq!(assignment_count(atoms.bases.len()), 2);
}

#[test]
fn constant_predicates_add_no_assignments() {
    let make = || {
        vec![
            cfg_attr(0, list("all", vec![]), vec![AttrMeta::Oopsie(1)]),
            cfg_attr(2, list("any", vec![]), vec![AttrMeta::Oopsie(3)]),
        ]
    };
    let any = list("any", vec![]);
    let not_any = list("not", vec![list("any", vec![])]);
    let fields = vec![
        gated_field("Backtrace", list("any", vec![])),
        gated_field("SpanTrace", list("not", vec![list("any", vec![])])),
    ];
    let atoms = collect_item(make(), fields, &system_time()).unwrap();
    let attrs = make();
    let resolved: Vec<(usize, usize)> = (0..assignment_count(atoms.bases.len()))
        .map(|bits| {
            let kept = [keeps_field(&atoms, &key(&any), bits), keeps_field(&atoms, &key(&not_any), bits)];
            (resolve_attrs(&atoms, &attrs, bits).len(), kept.iter().filter(|k| **k).count())
        })
        .collect();
    assert_eq!(resolved, [(1, 1)]);
}

#[test]
fn unparsed_cfg_attr_predicate_is_kept_whole() {
    // A `cfg_attr` whose predicate was never recorded stays as written.
    let atoms = collect_item(vec![], vec![], &system_time()).unwrap();
    let attrs = vec![cfg_attr(0, word("unix"), vec![AttrMeta::Other(1)])];
    assert_eq!(resolve_attrs(&atoms, &attrs, 0), vec![0]);
}

use oopsie_macros::categorize::CategorizeError;
use oopsie_macros::messages::{
    boxed_self_message, display_keyword_message, fixed_text, reserved_selector_message,
    selector_collision_message, selector_matches_enum_message, selector_matches_struct_message,
    transparent_collision_message,
};
use oopsie_macros::resolve::ResolveError;

#[test]
fn fixed_texts_cover_the_unnamed_rules() {
    assert_eq!(
        fixed_text(&ResolveError::TransparentNoSource(0)),
        Some("`transparent` requires a source field (a field named `source` or marked `#[oopsie(from)]`)")
    );
    assert_eq!(
        fixed_text(&ResolveError::HelpConflict(1)),
        Some("ambiguous help: this `#[oopsie(help)]` field conflicts with the `help = ...` attribute; remove one")
    );
    assert!(fixed_text(&ResolveError::CfgOnSource(0)).unwrap().starts_with("`#[cfg(...)]` is not supported"));
    assert!(fixed_text(&ResolveError::TransparentVis(0)).unwrap().starts_with("`vis` has no effect"));
    assert!(fixed_text(&ResolveError::TransparentSuffix).unwrap().starts_with("`suffix` has no effect"));
    assert!(fixed_text(&ResolveError::TransparentModule).unwrap().contains("namespaced selector"));
    assert!(fixed_text(&ResolveError::TransparentForward(0)).unwrap().contains("already forwards all traces"));
    assert!(fixed_text(&ResolveError::TransparentUserField(0, 1)).unwrap().contains("remove this field"));
    assert_eq!(fixed_text(&ResolveError::SelectorMatchesStruct), None);
    assert_eq!(fixed_text(&ResolveError::SelectorCollision(0, 1)), None);
}

#[test]
fn boxed_self_names_the_type_three_times() {
    assert_eq!(
        boxed_self_message("AppError"),
        "`transparent` source `Box<AppError>` auto-unboxes to `From<AppError> for AppError`, colliding with the \
         standard library's blanket `impl<T> From<T> for T`; box a distinct type or drop `transparent`"
    );
}

#[test]
fn reserved_selector_names_the_generated_name() {
    assert_eq!(
        reserved_selector_message("self"),
        "cannot generate a selector named `self`; rename the item or set `#[oopsie(suffix = \"...\")]`"
    );
}

#[test]
fn transparent_collision_names_both_variants_and_the_type() {
    let (msg, note) = transparent_collision_message("A", "B", "std :: io :: Error");
    assert_eq!(
        msg,
        "variants `A` and `B` are both `transparent` over source type `std :: io :: Error`, generating two \
         `From<std :: io :: Error>` impls for the same type (E0119); merge the variants or give one a distinct \
         source type"
    );
    assert_eq!(note, "`A` also generates `From<std :: io :: Error>`");
}

#[test]
fn selector_collision_after_error_stripping_is_explained() {
    let (msg, note) = selector_collision_message("Read", "ReadError", "Read");
    assert!(msg.contains("both generate a selector named"), "{msg}");
    assert_eq!(
        msg,
        "variants `Read` and `ReadError` both generate a selector named `Read` (a trailing `Error` is stripped \
         from variant names); rename one of the variants"
    );
    assert_eq!(note, "`Read` also generates selector `Read`");
}

#[test]
fn selector_matching_its_owner_is_explained() {
    assert_eq!(
        selector_matches_enum_message("AppError", "App"),
        "variant `AppError` generates a selector named `App`, colliding with the enum's own name; rename the \
         variant or set `#[oopsie(suffix = \"...\")]`"
    );
    assert_eq!(
        selector_matches_struct_message("Oops"),
        "the selector for `Oops` would also be named `Oops` (no `Error` suffix to strip, and `suffix(false)`); set \
         `#[oopsie(suffix = \"...\")]` or enable `module`"
    );
}

#[test]
fn display_keyword_suggests_its_own_attribute() {
    assert_eq!(
        display_keyword_message("transparent", "wrapped"),
        "`transparent` is an `#[oopsie(...)]` keyword, not a display format argument; give it its own attribute: \
         `#[oopsie(\"wrapped\")] #[oopsie(transparent)]`"
    );
}

#[test]
fn categorize_errors_have_their_texts() {
    assert_eq!(CategorizeError::TupleFields.message(), "#[derive(Oopsie)] does not support tuple variants/structs");
    assert_eq!(CategorizeError::DuplicateSource(1).message(), "at most one source field per variant/struct");
}

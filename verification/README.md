# oopsie_macros

The rules behind the `oopsie` error-handling macros (`#[derive(Oopsie)]` and
the `#[oopsie]` attribute), written in Verus and proved against their
contracts.

## Layout

- `src/` — the verified library: the rules behind what the macros emit.
  - `format_str`, `display`: the format-string scanner, static display
    strings, and the `#[oopsie("...")]` short form.
  - `flags`, `fields`, `size`, `settings`, `manifest`, `workspace`: the
    attribute keys, field keys, size constraints, and the project-wide
    `[package.metadata.oopsie]` / workspace settings.
  - `types`, `pretty`, `type_eq`, `generics`: the type model, its source text,
    and generic parameters.
  - `categorize`, `resolve`, `naming`, `selectors`: field categories, the
    refusal rules of an item, selector and module names, and each selector's
    generic shape and visibility.
  - `diagnostics`, `meta`, `messages`, `fresh`: where each diagnostic of an
    error layer comes from (exit codes included), how `provide(...)` is emitted, the diagnostics'
    text, and fresh binding names.
  - `cfg_gate`, `cfg_atoms`, `cfg_view`, `cfg_exist`, `cfg_render`, `inject`,
    `plan`: trace-field injection under `cfg` — deciding per configuration,
    merging into a short sum of prime implicants, and writing it out.
  - `attr_args`, `derives`: the attribute macro's arguments and the derive
    rewrite.
- `tests/` — tests of the library on concrete values.
- `app/` — the macros over `proc_macro2` token streams: reading `syn`
  syntax into the library's models (with `darling`), code generation with
  `quote`, and reading the Cargo manifests (with `toml_edit` and `serde`).

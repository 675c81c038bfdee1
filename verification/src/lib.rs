//! Verified core of the `oopsie` error-handling macros: the format-string
//! scanner, the attribute and settings resolution rules, the cfg-gate
//! minimiser and the field classification that decide what the macros emit.

pub mod chars;
pub mod format_str;
pub mod display;
pub mod size;
pub mod flags;
pub mod cfg_gate;
pub mod types;
pub mod pretty;
pub mod type_eq;
pub mod fields;
pub mod categorize;
pub mod naming;
pub mod resolve;
pub mod settings;
pub mod manifest;
pub mod workspace;
pub mod cfg_atoms;
pub mod cfg_view;
pub mod cfg_pred;
pub mod cfg_render;
pub mod cfg_exist;
pub mod inject;
pub mod generics;
pub mod meta;
pub mod plan;
pub mod selectors;
pub mod derives;
pub mod diagnostics;
pub mod messages;
pub mod attr_args;
pub mod fresh;

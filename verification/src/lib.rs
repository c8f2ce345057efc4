//! Verified core of the guicons icon-manifest toolkit.

pub mod text;
pub mod rust_macro;
pub mod naming;
pub mod selector;
pub mod model;
pub mod toml;
pub mod fields;
pub mod paths;
pub mod parse;
pub mod providers;
pub mod graph;
pub mod load;
pub mod glyph;
pub mod materialize;
pub mod order;
pub mod builders;
pub mod registry;
pub mod slint;
pub mod net;
pub mod manifest_text;
pub mod rename;
pub mod position;
pub mod describe;
pub mod ffi;
pub mod diagnostics;
pub mod add_plan;
pub mod icon_build;
pub mod fetch_plan;
pub mod iconify_completion;
pub mod discovery;
pub mod macro_expansion;
pub mod call_sites;
pub mod manifest_scan;
pub mod iconify_api;
pub mod completion;
pub mod manifest_edit;

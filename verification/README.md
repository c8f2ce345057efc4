# guicons

Icon manifests (`*.gui.toml`) for Rust GUI code: one file declares every
icon a project uses (local files, iconify ids, URLs, font glyphs), split
across files with `[link] includes`, and build scripts, a CLI and a
language server read it.

The library under `src/` is verified with Verus. Its contracts state, over
plain mathematical models, what each function returns:

- `toml`, `fields`, `parse`, `load`, `discovery`, `graph`: reading a
  manifest's text (through `toml_span`) into entries, providers and errors,
  following includes through a `petgraph` graph;
- `selector`, `rust_macro`, `call_sites`, `naming`, `macro_expansion`:
  `icon!(...)` selectors and call sites in Rust source;
- `model`, `materialize`, `glyph`, `registry`, `slint`, `builders`,
  `icon_build`: what a build writes (registries, Slint globals, painted
  SVGs);
- `manifest_text`, `position`, `describe`, `diagnostics`, `rename`,
  `completion`, `iconify_completion`: what the language server answers;
- `net`, `fetch_plan`, `add_plan`, `manifest_edit`, `iconify_api`: cache
  paths, downloads to make, the entries `icons add` writes and the edit of
  the manifest's text through `toml_edit`, and the iconify API's JSON.

Calls into outside crates stand behind `#[verifier::external_body]`
wrappers whose doc comments say what their contracts claim.

`app/` is the unverified rest: the `icons` CLI (`clap`), file and network
I/O (reading manifests and directories, downloads, writing generated
files, the scratch-file check of an edited manifest), the `miette`
reports, and the `tower-lsp` server loop, all calling into the library for
what to compute.

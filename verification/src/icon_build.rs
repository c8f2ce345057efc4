//! What a build script asks of the library: which manifest to read, where
//! to put the generated files and the built icons, and which files to
//! generate; and, from the loaded manifest and its built icons, the text
//! of each generated file.

use crate::materialize::MaterializedIcon;
use crate::model::IconManifest;
use crate::paths::{join_path, join_path_exec};
use crate::registry::{generate_rust_icon_registry, registry};
use crate::slint::{generate_slint_icon_global, slint_file};
use vstd::prelude::*;

verus! {

/// What to generate from the manifest. File names are fixed: the
/// `include_icons!()` macro reads `OUT_DIR/icons.rs`.
#[derive(Clone, Copy, Debug, PartialEq, Eq)]
pub enum Emit {
    /// `OUT_DIR/icons.rs`: the typed registry.
    Rust,
    /// `OUT_DIR/icons.slint`: the `Icon` component and per-icon assets.
    Slint,
}

/// A build's settings.
#[derive(Debug)]
pub struct IconBuild {
    manifest_path: String,
    out_dir: String,
    materialized_root: String,
    emit_rust: bool,
    emit_slint: bool,
}

/// A build's settings as plain values.
pub struct BuildView {
    pub manifest_path: Seq<char>,
    pub out_dir: Seq<char>,
    pub materialized_root: Seq<char>,
    pub emit_rust: bool,
    pub emit_slint: bool,
}

impl View for IconBuild {
    type V = BuildView;

    closed spec fn view(&self) -> BuildView {
        BuildView {
            manifest_path: self.manifest_path@,
            out_dir: self.out_dir@,
            materialized_root: self.materialized_root@,
            emit_rust: self.emit_rust,
            emit_slint: self.emit_slint,
        }
    }
}

/// The generated files of a build: `icons.rs` when the Rust registry is
/// asked for (with the Slint image resolver when Slint output is asked for
/// too), then `icons.slint` when Slint output is.
pub open spec fn build_outputs(b: BuildView, manifest_path: Seq<char>, icons: Seq<MaterializedIcon>) -> Seq<
    (Seq<char>, Seq<char>),
> {
    let rust_file = join_path(b.out_dir, "icons.rs"@);
    let slint_out = join_path(b.out_dir, "icons.slint"@);
    let rust = if b.emit_rust {
        seq![(rust_file, registry(manifest_path, icons, b.emit_slint))]
    } else {
        seq![]
    };
    if b.emit_slint {
        rust.push((slint_out, slint_file(slint_out, icons)))
    } else {
        rust
    }
}

/// A build writes `icons.rs` exactly when the Rust registry was asked for
/// and `icons.slint` exactly when Slint output was, and nothing else.
pub proof fn lemma_build_writes_what_was_emitted(b: BuildView, manifest_path: Seq<char>, icons: Seq<MaterializedIcon>)
    ensures
        ({
            let outs = build_outputs(b, manifest_path, icons);
            &&& outs.len() == (if b.emit_rust {
                1int
            } else {
                0
            }) + (if b.emit_slint {
                1int
            } else {
                0
            })
            &&& (exists|k: int| 0 <= k < outs.len() && #[trigger] outs[k].0 == join_path(b.out_dir, "icons.rs"@))
                <==> b.emit_rust
            &&& (exists|k: int| 0 <= k < outs.len() && #[trigger] outs[k].0 == join_path(b.out_dir, "icons.slint"@))
                <==> b.emit_slint
        }),
{
    reveal_strlit("icons.rs");
    reveal_strlit("icons.slint");
    let rust_file = join_path(b.out_dir, "icons.rs"@);
    let slint_out = join_path(b.out_dir, "icons.slint"@);
    assert(rust_file.len() != slint_out.len());
    let outs = build_outputs(b, manifest_path, icons);
    if b.emit_rust {
        assert(outs[0].0 == rust_file);
    }
    if b.emit_slint {
        assert(outs[outs.len() - 1].0 == slint_out);
    }
}

/// The lines a build script prints before building: one
/// `cargo:rerun-if-changed=` per manifest file read, in order, then one
/// `cargo:rerun-if-env-changed=` for the variable that allows downloads.
pub open spec fn rerun_lines_spec(source_paths: Seq<Seq<char>>) -> Seq<Seq<char>> {
    source_paths.map_values(|s: Seq<char>| "cargo:rerun-if-changed="@ + s).push(
        "cargo:rerun-if-env-changed="@ + "GUICONS_ALLOW_NETWORK"@,
    )
}

/// See `rerun_lines_spec`.
pub fn rerun_lines(manifest: &IconManifest) -> (r: Vec<String>)
    ensures
        r@.map_values(|l: String| l@) == rerun_lines_spec(crate::fields::strings_view(manifest.source_paths@)),
{
    let mut r: Vec<String> = Vec::new();
    let mut i: usize = 0;
    let ghost sv = crate::fields::strings_view(manifest.source_paths@);
    while i < manifest.source_paths.len()
        invariant
            sv == crate::fields::strings_view(manifest.source_paths@),
            i <= sv.len(),
            r@.map_values(|l: String| l@) == sv.take(i as int).map_values(|s: Seq<char>| "cargo:rerun-if-changed="@ + s),
        decreases sv.len() - i,
    {
        let mut line: Vec<char> = Vec::new();
        crate::text::push_str(&mut line, "cargo:rerun-if-changed=");
        crate::text::push_str(&mut line, manifest.source_paths[i].as_str());
        let l = crate::text::string_of(line.as_slice());
        let ghost before = r@.map_values(|l: String| l@);
        r.push(l);
        proof {
            assert(r@.map_values(|l: String| l@) =~= before.push("cargo:rerun-if-changed="@ + sv[i as int]));
            assert(sv.take(i + 1) =~= sv.take(i as int).push(sv[i as int]));
            assert(sv.take(i + 1).map_values(|s: Seq<char>| "cargo:rerun-if-changed="@ + s) =~= sv.take(i as int).map_values(
                |s: Seq<char>| "cargo:rerun-if-changed="@ + s,
            ).push("cargo:rerun-if-changed="@ + sv[i as int]));
        }
        i += 1;
    }
    let mut last: Vec<char> = Vec::new();
    crate::text::push_str(&mut last, "cargo:rerun-if-env-changed=");
    crate::text::push_str(&mut last, "GUICONS_ALLOW_NETWORK");
    let ghost before = r@.map_values(|l: String| l@);
    r.push(crate::text::string_of(last.as_slice()));
    proof {
        assert(sv.take(sv.len() as int) =~= sv);
        assert(r@.map_values(|l: String| l@) =~= before.push("cargo:rerun-if-env-changed="@ + "GUICONS_ALLOW_NETWORK"@));
    }
    r
}

/// What a build script does with a loaded manifest that has no errors:
/// it asks to be rerun when any manifest file read changes (one line per
/// file, each file named) or the download switch does, and it writes
/// `icons.rs` exactly when the Rust registry was asked for and
/// `icons.slint` exactly when Slint output was.
pub proof fn lemma_build_script(b: BuildView, m: IconManifest, icons: Seq<MaterializedIcon>)
    ensures
        ({
            let lines = rerun_lines_spec(crate::fields::strings_view(m.source_paths@));
            &&& lines.len() == m.source_paths@.len() + 1
            &&& forall|i: int|
                0 <= i < m.source_paths@.len() ==> #[trigger] lines[i] == "cargo:rerun-if-changed="@ + m.source_paths@[i]@
        }),
        ({
            let outs = build_outputs(b, m.manifest_path@, icons);
            &&& (exists|k: int| 0 <= k < outs.len() && #[trigger] outs[k].0 == join_path(b.out_dir, "icons.rs"@))
                <==> b.emit_rust
            &&& (exists|k: int| 0 <= k < outs.len() && #[trigger] outs[k].0 == join_path(b.out_dir, "icons.slint"@))
                <==> b.emit_slint
        }),
{
    lemma_build_writes_what_was_emitted(b, m.manifest_path@, icons);
}

impl IconBuild {
    /// A build of the manifest at `manifest_path` into `out_dir` (the build
    /// script's `OUT_DIR`), icons built into `out_dir` too, nothing emitted
    /// yet.
    pub fn new(manifest_path: &str, out_dir: &str) -> (r: Self)
        ensures
            r@.manifest_path == manifest_path@,
            r@.out_dir == out_dir@,
            r@.materialized_root == out_dir@,
            !r@.emit_rust,
            !r@.emit_slint,
    {
        IconBuild {
            manifest_path: manifest_path.to_owned(),
            out_dir: out_dir.to_owned(),
            materialized_root: out_dir.to_owned(),
            emit_rust: false,
            emit_slint: false,
        }
    }

    /// A build of the workspace's own `icons.gui.toml`, at the root of the
    /// workspace found from the build's current directory.
    pub fn auto(workspace_root: &str, out_dir: &str) -> (r: Self)
        ensures
            r@.manifest_path == join_path(workspace_root@, "icons.gui.toml"@),
            r@.out_dir == out_dir@,
            r@.materialized_root == out_dir@,
            !r@.emit_rust,
            !r@.emit_slint,
    {
        let path = join_path_exec(workspace_root, "icons.gui.toml");
        Self::new(path.as_str(), out_dir)
    }

    /// Builds icons into `root` instead of `OUT_DIR`.
    pub fn materialized_root(self, root: &str) -> (r: Self)
        ensures
            r@.materialized_root == root@,
            r@.manifest_path == self@.manifest_path,
            r@.out_dir == self@.out_dir,
            r@.emit_rust == self@.emit_rust,
            r@.emit_slint == self@.emit_slint,
    {
        IconBuild { materialized_root: root.to_owned(), ..self }
    }

    /// Also generates `target`.
    pub fn emit(self, target: Emit) -> (r: Self)
        ensures
            r@.emit_rust == (self@.emit_rust || target == Emit::Rust),
            r@.emit_slint == (self@.emit_slint || target == Emit::Slint),
            r@.manifest_path == self@.manifest_path,
            r@.out_dir == self@.out_dir,
            r@.materialized_root == self@.materialized_root,
    {
        match target {
            Emit::Rust => IconBuild { emit_rust: true, ..self },
            Emit::Slint => IconBuild { emit_slint: true, ..self },
        }
    }

    /// The manifest this build reads.
    pub fn manifest_path(&self) -> (r: &str)
        ensures
            r@ == self@.manifest_path,
    {
        self.manifest_path.as_str()
    }

    /// Where the generated files go.
    pub fn out_dir(&self) -> (r: &str)
        ensures
            r@ == self@.out_dir,
    {
        self.out_dir.as_str()
    }

    /// Where the built icons go.
    pub fn icons_root(&self) -> (r: &str)
        ensures
            r@ == self@.materialized_root,
    {
        self.materialized_root.as_str()
    }

    /// The generated files, as path and content, for the loaded `manifest`
    /// and the icons built from it.
    pub fn build(&self, manifest: &IconManifest, icons: &Vec<MaterializedIcon>) -> (r: Vec<(String, String)>)
        ensures
            r@.map_values(|f: (String, String)| (f.0@, f.1@)) == build_outputs(
                self@,
                manifest.manifest_path@,
                icons@,
            ),
    {
        let mut out: Vec<(String, String)> = Vec::new();
        if self.emit_rust {
            let file = join_path_exec(self.out_dir.as_str(), "icons.rs");
            let text = generate_rust_icon_registry(manifest.manifest_path.as_str(), icons, self.emit_slint);
            out.push((file, text));
        }
        let ghost first = out@.map_values(|f: (String, String)| (f.0@, f.1@));
        if self.emit_slint {
            let file = join_path_exec(self.out_dir.as_str(), "icons.slint");
            let text = generate_slint_icon_global(file.as_str(), icons);
            out.push((file, text));
            proof {
                assert(out@.map_values(|f: (String, String)| (f.0@, f.1@)) =~= first.push((file@, text@)));
            }
        }
        proof {
            assert(out@.map_values(|f: (String, String)| (f.0@, f.1@)) =~= build_outputs(
                self@,
                manifest.manifest_path@,
                icons@,
            ));
        }
        out
    }
}

} // verus!

//! Which directories a search for manifest files passes over, and which
//! files it keeps.

use crate::fields::strings_view;
use crate::load::ends_with;
use crate::text::chars_of;
use vstd::prelude::*;

verus! {

/// Directories never worth descending into when looking for manifests.
pub open spec fn default_skip_dirs() -> Seq<Seq<char>> {
    seq![
        "target"@,
        ".git"@,
        ".hg"@,
        ".svn"@,
        ".cache"@,
        "node_modules"@,
        "vendor"@,
        "dist"@,
        "build"@,
        "out"@,
        "bin"@,
        "obj"@,
        ".idea"@,
        ".vscode"@,
        ".vs"@,
        "venv"@,
        ".venv"@,
        "__pycache__"@,
        ".next"@,
        ".nuxt"@,
        "coverage"@,
        ".terraform"@,
        ".gradle"@,
    ]
}

fn default_skip_dirs_exec() -> (r: Vec<&'static str>)
    ensures
        r@.map_values(|s: &str| s@) == default_skip_dirs(),
{
    let r = vec![
        "target",
        ".git",
        ".hg",
        ".svn",
        ".cache",
        "node_modules",
        "vendor",
        "dist",
        "build",
        "out",
        "bin",
        "obj",
        ".idea",
        ".vscode",
        ".vs",
        "venv",
        ".venv",
        "__pycache__",
        ".next",
        ".nuxt",
        "coverage",
        ".terraform",
        ".gradle",
    ];
    proof {
        assert(r@.map_values(|s: &str| s@) =~= default_skip_dirs());
    }
    r
}

/// Whether a directory named `name` is passed over: one of the defaults
/// or of the extra names configured.
pub fn is_skipped_dir_name(name: &str, extra_skip_dirs: &Vec<String>) -> (r: bool)
    ensures
        r == (default_skip_dirs().contains(name@) || strings_view(extra_skip_dirs@).contains(name@)),
{
    let defaults = default_skip_dirs_exec();
    let ghost dv = defaults@.map_values(|s: &str| s@);
    let wanted = chars_of(name);
    let mut i: usize = 0;
    while i < defaults.len()
        invariant
            dv == defaults@.map_values(|s: &str| s@),
            dv == default_skip_dirs(),
            wanted@ == name@,
            i <= defaults@.len(),
            forall|j: int| 0 <= j < i ==> dv[j] != name@,
        decreases defaults@.len() - i,
    {
        let d = chars_of(defaults[i]);
        if crate::text::chars_eq(d.as_slice(), wanted.as_slice()) {
            proof {
                assert(dv[i as int] == name@);
            }
            return true;
        }
        i += 1;
    }
    let ghost ev = strings_view(extra_skip_dirs@);
    let mut k: usize = 0;
    while k < extra_skip_dirs.len()
        invariant
            ev == strings_view(extra_skip_dirs@),
            wanted@ == name@,
            !dv.contains(name@),
            dv == default_skip_dirs(),
            k <= extra_skip_dirs@.len(),
            forall|j: int| 0 <= j < k ==> ev[j] != name@,
        decreases extra_skip_dirs@.len() - k,
    {
        let e = chars_of(extra_skip_dirs[k].as_str());
        if crate::text::chars_eq(e.as_slice(), wanted.as_slice()) {
            proof {
                assert(ev[k as int] == name@);
            }
            return true;
        }
        k += 1;
    }
    false
}

/// Whether a file named `name` is a manifest: its name ends in
/// `.gui.toml`.
pub fn is_manifest_file_name(name: &str) -> (r: bool)
    ensures
        r == ends_with(name@, ".gui.toml"@),
{
    let v = chars_of(name);
    let suffix = chars_of(".gui.toml");
    if v.len() < suffix.len() {
        return false;
    }
    let tail = crate::text::slice_vec(v.as_slice(), v.len() - suffix.len(), v.len());
    proof {
        assert(tail@ =~= name@.skip(name@.len() - ".gui.toml"@.len()));
    }
    crate::text::chars_eq(tail.as_slice(), suffix.as_slice())
}

} // verus!

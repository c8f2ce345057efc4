//! `/`-separated paths as strings: joining, resolving against roots, and
//! looking files up among candidate roots.

use crate::text::{chars_of, push_all, string_of};
use vstd::prelude::*;

verus! {

/// Whether `p` is absolute.
pub open spec fn is_absolute(p: Seq<char>) -> bool {
    p.len() > 0 && p[0] == '/'
}

/// `Path::join`: `rel` if it is absolute, else `base` and `rel` with one
/// separator between them (none after an empty base or a trailing `/`).
pub open spec fn join_path(base: Seq<char>, rel: Seq<char>) -> Seq<char> {
    if is_absolute(rel) {
        rel
    } else if base.len() == 0 || base.last() == '/' {
        base + rel
    } else {
        base + seq!['/'] + rel
    }
}

/// Where a file named `value` may be found among `roots`: `value` itself
/// if absolute, else joined to one of the roots (to `.` with no roots).
pub open spec fn file_candidate(roots: Seq<Seq<char>>, value: Seq<char>, p: Seq<char>) -> bool {
    if is_absolute(value) {
        p == value
    } else if roots.len() == 0 {
        p == join_path("."@, value)
    } else {
        exists|i: int| 0 <= i < roots.len() && p == join_path(#[trigger] roots[i], value)
    }
}

/// The first root under which `value` exists, by the answers in `exists`
/// (one per root), else the first root, else `.`.
pub open spec fn pick_root(roots: Seq<Seq<char>>, exists: Seq<bool>, value: Seq<char>) -> Seq<char>
    decreases roots.len(),
{
    if roots.len() == 0 {
        join_path("."@, value)
    } else {
        pick_root_from(roots, exists, value, 0)
    }
}

pub open spec fn pick_root_from(roots: Seq<Seq<char>>, exists: Seq<bool>, value: Seq<char>, i: int) -> Seq<char>
    decreases roots.len() - i,
{
    if i < 0 || i >= roots.len() {
        join_path(roots[0], value)
    } else if i < exists.len() && exists[i] {
        join_path(roots[i], value)
    } else {
        pick_root_from(roots, exists, value, i + 1)
    }
}

pub proof fn lemma_pick_root_from_candidate(roots: Seq<Seq<char>>, exists: Seq<bool>, value: Seq<char>, i: int)
    requires
        roots.len() > 0,
        !is_absolute(value),
        0 <= i,
    ensures
        file_candidate(roots, value, pick_root_from(roots, exists, value, i)),
    decreases roots.len() - i,
{
    if i < roots.len() && !(i < exists.len() && exists[i]) {
        lemma_pick_root_from_candidate(roots, exists, value, i + 1);
    } else if i < roots.len() {
        assert(pick_root_from(roots, exists, value, i) == join_path(roots[i], value));
    } else {
        assert(pick_root_from(roots, exists, value, i) == join_path(roots[0], value));
    }
}

proof fn lemma_pick_from_skips(roots: Seq<Seq<char>>, exists: Seq<bool>, value: Seq<char>, j: int, i: int)
    requires
        0 <= j <= i < roots.len(),
        forall|m: int| j <= m < i ==> !(m < exists.len() && #[trigger] exists[m]),
    ensures
        pick_root_from(roots, exists, value, j) == pick_root_from(roots, exists, value, i),
    decreases i - j,
{
    if j < i {
        lemma_pick_from_skips(roots, exists, value, j + 1, i);
    }
}

/// Given, for each root, whether `value` exists under it, the file is
/// looked up under the first root where it exists; under the first root
/// when it exists under none; joined to `.` when there are no roots.
pub proof fn lemma_pick_first_existing(roots: Seq<Seq<char>>, exists: Seq<bool>, value: Seq<char>)
    ensures
        roots.len() == 0 ==> pick_root(roots, exists, value) == join_path("."@, value),
        forall|i: int|
            0 <= i < roots.len() && i < exists.len() && #[trigger] exists[i] && (forall|j: int|
                0 <= j < i ==> !(j < exists.len() && exists[j])) ==> pick_root(roots, exists, value) == join_path(
                roots[i],
                value,
            ),
        roots.len() > 0 && (forall|j: int| 0 <= j < roots.len() ==> !(j < exists.len() && #[trigger] exists[j]))
            ==> pick_root(roots, exists, value) == join_path(roots[0], value),
{
    assert forall|i: int|
        0 <= i < roots.len() && i < exists.len() && #[trigger] exists[i] && (forall|j: int|
            0 <= j < i ==> !(j < exists.len() && exists[j])) implies pick_root(roots, exists, value) == join_path(
        roots[i],
        value,
    ) by {
        lemma_pick_from_skips(roots, exists, value, 0, i);
    }
    if roots.len() > 0 && (forall|j: int| 0 <= j < roots.len() ==> !(j < exists.len() && #[trigger] exists[j])) {
        lemma_pick_from_skips(roots, exists, value, 0, roots.len() - 1);
        assert(pick_root_from(roots, exists, value, roots.len() as int) == join_path(roots[0], value));
    }
}

pub fn join_path_exec(base: &str, rel: &str) -> (r: String)
    ensures
        r@ == join_path(base@, rel@),
{
    let b = chars_of(base);
    let v = chars_of(rel);
    if v.len() > 0 && v[0] == '/' {
        return rel.to_owned();
    }
    let mut out: Vec<char> = Vec::new();
    push_all(&mut out, b.as_slice());
    if b.len() > 0 && b[b.len() - 1] != '/' {
        out.push('/');
    }
    push_all(&mut out, v.as_slice());
    proof {
        if b@.len() > 0 && b@.last() != '/' {
            assert(out@ =~= base@ + seq!['/'] + rel@);
        } else {
            assert(out@ =~= base@ + rel@);
        }
    }
    string_of(out.as_slice())
}

/// The first root under which `value` exists, by the answers in `exists`
/// (one per root), else the first root, else `.`.
pub fn pick_root_exec(roots: &Vec<String>, exists: &Vec<bool>, value: &str) -> (r: String)
    ensures
        r@ == pick_root(roots@.map_values(|s: String| s@), exists@, value@),
{
    let ghost rv = roots@.map_values(|s: String| s@);
    if roots.len() == 0 {
        return join_path_exec(".", value);
    }
    let mut i: usize = 0;
    while i < roots.len()
        invariant
            rv == roots@.map_values(|s: String| s@),
            roots@.len() > 0,
            i <= roots@.len(),
            pick_root_from(rv, exists@, value@, 0) == pick_root_from(rv, exists@, value@, i as int),
        decreases roots@.len() - i,
    {
        if i < exists.len() && exists[i] {
            return join_path_exec(roots[i].as_str(), value);
        }
        i += 1;
    }
    join_path_exec(roots[0].as_str(), value)
}

/// `Path::exists`. Whether the file is there depends on the disk at the
/// moment of the call; nothing is stated of it.
#[verifier::external_body]
fn path_exists(path: &str) -> (r: bool) {
    std::path::Path::new(path).exists()
}

/// `value` found among `roots`: itself if absolute, else the first root
/// under which it exists on disk, else joined to the first root (or `.`).
pub fn resolve_file_from_roots(roots: &Vec<String>, value: &str) -> (r: String)
    ensures
        file_candidate(roots@.map_values(|s: String| s@), value@, r@),
        is_absolute(value@) ==> r@ == value@,
        !is_absolute(value@) ==> exists|e: Seq<bool>|
            e.len() == roots@.len() && r@ == #[trigger] pick_root(crate::fields::strings_view(roots@), e, value@),
{
    let v = chars_of(value);
    if v.len() > 0 && v[0] == '/' {
        return value.to_owned();
    }
    let mut exists: Vec<bool> = Vec::new();
    let mut i: usize = 0;
    while i < roots.len()
        invariant
            i <= roots@.len(),
            exists@.len() == i,
        decreases roots@.len() - i,
    {
        let candidate = join_path_exec(roots[i].as_str(), value);
        exists.push(path_exists(candidate.as_str()));
        i += 1;
    }
    let r = pick_root_exec(roots, &exists, value);
    proof {
        assert(roots@.map_values(|s: String| s@) =~= crate::fields::strings_view(roots@));
        assert(r@ == pick_root(crate::fields::strings_view(roots@), exists@, value@));
        if roots@.len() > 0 {
            lemma_pick_root_from_candidate(roots@.map_values(|s: String| s@), exists@, value@, 0);
        }
    }
    r
}

/// Whether a `Cargo.toml`'s text marks the root of a crate or workspace:
/// it holds `[workspace]` or `[package]`.
pub open spec fn declares_crate_root(cargo_toml: Seq<char>) -> bool {
    crate::describe::contains_text(cargo_toml, "[workspace]"@) || crate::describe::contains_text(cargo_toml, "[package]"@)
}

/// See `declares_crate_root`.
pub fn declares_crate_root_exec(cargo_toml: &str) -> (r: bool)
    ensures
        r == declares_crate_root(cargo_toml@),
{
    let t = chars_of(cargo_toml);
    crate::describe::contains_text_exec(t.as_slice(), chars_of("[workspace]").as_slice())
        || crate::describe::contains_text_exec(t.as_slice(), chars_of("[package]").as_slice())
}

} // verus!

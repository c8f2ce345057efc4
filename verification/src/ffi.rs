//! What the IDE bindings hand out: plain records describing manifest
//! entries, and the outcome of looking one up in a loaded manifest.

use crate::describe::{describe_source, source_text};
use crate::load::{error_view, rendered, ManifestError};
use crate::model::{
    clone_opt_string, first_index, displayed_path, is_family_variant, opt_chars, opt_str_chars, IconEntry,
    IconEntrySource, IconManifest, lemma_first_index_is,
};
use vstd::prelude::*;

verus! {

/// One manifest entry, as the IDE bindings describe it.
#[derive(Debug)]
pub struct ResolvedEntry {
    pub key: String,
    pub family: String,
    pub size: Option<u16>,
    pub variant: Option<String>,
    /// Where the image comes from, in words (`` file `x` `` ...).
    pub source_description: String,
    /// The asset file, for a `file` source only.
    pub source_file: Option<String>,
    /// The `prefix:name` id, for an `iconify` source only.
    pub iconify_id: Option<String>,
    /// The manifest file declaring the entry, as displayed.
    pub declared_in_file: String,
    /// The same file, as its raw absolute path.
    pub declared_in_file_path: String,
    /// Byte offsets of the entry's table in that file.
    pub declared_in_span_start: u32,
    pub declared_in_span_end: u32,
}

/// The outcome of looking an entry up in a manifest.
#[derive(Debug)]
pub enum ResolveOutcome {
    Found(ResolvedEntry),
    NotFound,
    /// The manifest itself failed to load: distinct from `NotFound`, so a
    /// typo in a call can be told apart from a broken manifest.
    ManifestInvalid { errors: Vec<String> },
}

/// Every entry of a manifest, or why it failed to load.
#[derive(Debug)]
pub enum ListManifestEntriesOutcome {
    Found { entries: Vec<ResolvedEntry> },
    ManifestInvalid { errors: Vec<String> },
}

/// Whether `r` describes the entry `e` of the manifest `m`.
pub open spec fn describes(r: ResolvedEntry, e: IconEntry, m: IconManifest) -> bool {
    &&& r.key@ == e.key@
    &&& r.family@ == e.family@
    &&& r.size == e.size
    &&& opt_chars(r.variant) == opt_chars(e.variant)
    &&& r.source_description@ == source_text(m, e.source)
    &&& opt_chars(r.source_file) == (match e.source {
        IconEntrySource::File(p) => Some(p@),
        _ => None,
    })
    &&& opt_chars(r.iconify_id) == (match e.source {
        IconEntrySource::Iconify(id) => Some(id@),
        _ => None,
    })
    &&& r.declared_in_file@ == displayed_path(m, e.file@)
    &&& r.declared_in_file_path@ == e.file@
    &&& r.declared_in_span_start == (e.span.start as u32)
    &&& r.declared_in_span_end == (e.span.end as u32)
}

/// Describes one entry of `manifest` for the IDE bindings.
pub fn describe_entry(entry: &IconEntry, manifest: &IconManifest) -> (r: ResolvedEntry)
    ensures
        describes(r, *entry, *manifest),
{
    let source_description = describe_source(&entry.source, manifest);
    let (source_file, iconify_id) = match &entry.source {
        IconEntrySource::File(path) => (Some(path.clone()), None),
        IconEntrySource::Iconify(id) => (None, Some(id.clone())),
        _ => (None, None),
    };
    ResolvedEntry {
        key: entry.key.clone(),
        family: entry.family.clone(),
        size: entry.size,
        variant: clone_opt_string(&entry.variant),
        source_description,
        source_file,
        iconify_id,
        declared_in_file: manifest.display_path(entry.file.as_str()),
        declared_in_file_path: entry.file.clone(),
        declared_in_span_start: entry.span.start as u32,
        declared_in_span_end: entry.span.end as u32,
    }
}

/// The rendered messages of a manifest's load errors.
pub open spec fn rendered_errors(errors: Seq<ManifestError>) -> Seq<Seq<char>> {
    errors.map_values(|e: ManifestError| rendered(error_view(e)))
}

fn render_errors(errors: &Vec<ManifestError>) -> (r: Vec<String>)
    ensures
        r@.map_values(|s: String| s@) == rendered_errors(errors@),
{
    let mut out: Vec<String> = Vec::new();
    let mut i: usize = 0;
    while i < errors.len()
        invariant
            i <= errors@.len(),
            out@.map_values(|s: String| s@) == rendered_errors(errors@).take(i as int),
        decreases errors@.len() - i,
    {
        let ghost before = out@.map_values(|s: String| s@);
        let line = errors[i].render();
        out.push(line);
        proof {
            assert(out@.map_values(|s: String| s@) =~= before.push(line@));
            assert(rendered_errors(errors@).take(i + 1) =~= rendered_errors(errors@).take(i as int).push(
                rendered(error_view(errors@[i as int])),
            ));
        }
        i += 1;
    }
    proof {
        assert(rendered_errors(errors@).take(errors@.len() as int) =~= rendered_errors(errors@));
    }
    out
}

/// Looks up `family`/`size`/`variant` in a loaded manifest: the errors it
/// loaded with when there are any (a best-effort preview lookup, not a
/// validator), else the first matching entry, else `NotFound`.
pub fn resolve_family_variant(
    manifest: &IconManifest,
    errors: &Vec<ManifestError>,
    family: String,
    size: Option<u16>,
    variant: Option<String>,
) -> (r: ResolveOutcome)
    ensures
        errors@.len() > 0 ==> (r matches ResolveOutcome::ManifestInvalid { errors: msgs } && msgs@.map_values(
            |s: String| s@,
        ) == rendered_errors(errors@)),
        errors@.len() == 0 ==> match first_index(
            manifest.entries@,
            is_family_variant(family@, size, opt_chars(variant)),
        ) {
            Some(i) => r matches ResolveOutcome::Found(found) && describes(found, manifest.entries@[i], *manifest),
            None => r is NotFound,
        },
{
    if errors.len() > 0 {
        return ResolveOutcome::ManifestInvalid { errors: render_errors(errors) };
    }
    let wanted_variant: Option<&str> = match &variant {
        Some(v) => Some(v.as_str()),
        None => None,
    };
    proof {
        assert(opt_str_chars(wanted_variant) == opt_chars(variant));
    }
    match manifest.entry_for_family_variant(family.as_str(), size, wanted_variant) {
        Some(entry) => ResolveOutcome::Found(describe_entry(entry, manifest)),
        None => ResolveOutcome::NotFound,
    }
}

/// Whether an entry's table, declared in `file`, spans byte `offset`.
pub open spec fn spans_offset(file: Seq<char>, offset: int) -> spec_fn(IconEntry) -> bool {
    |e: IconEntry| e.file@ == file && e.span.start <= offset < e.span.end
}

/// The entry whose table holds byte `offset` of the manifest file `file`
/// (one of the files a loaded manifest was read from); `None` when the
/// manifest loaded with errors or no entry spans the offset.
pub fn entry_at_offset(manifest: &IconManifest, errors: &Vec<ManifestError>, file: &str, offset: u32) -> (r: Option<
    ResolvedEntry,
>)
    ensures
        errors@.len() > 0 ==> r is None,
        errors@.len() == 0 ==> match first_index(manifest.entries@, spans_offset(file@, offset as int)) {
            Some(i) => r matches Some(found) && describes(found, manifest.entries@[i], *manifest),
            None => r is None,
        },
{
    if errors.len() > 0 {
        return None;
    }
    let ghost p = spans_offset(file@, offset as int);
    let wanted = file.to_owned();
    let off = offset as usize;
    let mut i: usize = 0;
    while i < manifest.entries.len()
        invariant
            errors@.len() == 0,
            wanted@ == file@,
            off == offset,
            p == spans_offset(file@, offset as int),
            i <= manifest.entries@.len(),
            forall|j: int| 0 <= j < i ==> !p(#[trigger] manifest.entries@[j]),
        decreases manifest.entries@.len() - i,
    {
        let e = &manifest.entries[i];
        if e.file == wanted && e.span.start <= off && off < e.span.end {
            proof {
                lemma_first_index_is(manifest.entries@, p, i as int);
            }
            return Some(describe_entry(e, manifest));
        }
        i += 1;
    }
    proof {
        lemma_first_index_is(manifest.entries@, p, i as int);
    }
    None
}

/// Every entry of a loaded manifest, described; or the errors it loaded
/// with.
pub fn list_manifest_entries(manifest: &IconManifest, errors: &Vec<ManifestError>) -> (r: ListManifestEntriesOutcome)
    ensures
        errors@.len() > 0 ==> (r matches ListManifestEntriesOutcome::ManifestInvalid { errors: msgs }
            && msgs@.map_values(|s: String| s@) == rendered_errors(errors@)),
        errors@.len() == 0 ==> (r matches ListManifestEntriesOutcome::Found { entries } && entries@.len()
            == manifest.entries@.len() && forall|i: int|
            0 <= i < entries@.len() ==> describes(#[trigger] entries@[i], manifest.entries@[i], *manifest)),
{
    if errors.len() > 0 {
        return ListManifestEntriesOutcome::ManifestInvalid { errors: render_errors(errors) };
    }
    let mut entries: Vec<ResolvedEntry> = Vec::new();
    let mut i: usize = 0;
    while i < manifest.entries.len()
        invariant
            i <= manifest.entries@.len(),
            entries@.len() == i,
            forall|j: int| 0 <= j < i ==> describes(#[trigger] entries@[j], manifest.entries@[j], *manifest),
        decreases manifest.entries@.len() - i,
    {
        entries.push(describe_entry(&manifest.entries[i], manifest));
        i += 1;
    }
    ListManifestEntriesOutcome::Found { entries }
}

} // verus!

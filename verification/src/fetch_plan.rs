//! `icons fetch`: which downloads the manifest's remote icons need, and
//! the tally of how they went.

use crate::model::{IconEntrySource, IconManifest};
use crate::net::{iconify_cache_path, iconify_url, iconify_url_spec, split_id, url_cache_path, hex_string, sha256_digest};
use crate::paths::join_path;
use crate::text::find_char;
use vstd::prelude::*;

verus! {

/// How a fetch went: what was downloaded, what was already cached, and
/// what failed with its message.
#[derive(Debug)]
pub struct FetchSummary {
    pub fetched: Vec<String>,
    pub skipped: Vec<String>,
    pub failed: Vec<(String, String)>,
}

impl FetchSummary {
    /// Whether nothing failed.
    pub fn is_success(&self) -> (r: bool)
        ensures
            r == (self.failed@.len() == 0),
    {
        self.failed.len() == 0
    }

    /// Lists a job's label under what became of it.
    pub fn record(&mut self, label: String, outcome: FetchOutcome)
        ensures
            match outcome {
                FetchOutcome::AlreadyCached => final(self).skipped@ == old(self).skipped@.push(label)
                    && final(self).fetched@ == old(self).fetched@ && final(self).failed@ == old(self).failed@,
                FetchOutcome::Downloaded => final(self).fetched@ == old(self).fetched@.push(label)
                    && final(self).skipped@ == old(self).skipped@ && final(self).failed@ == old(self).failed@,
                FetchOutcome::Failed(m) => final(self).failed@ == old(self).failed@.push((label, m))
                    && final(self).fetched@ == old(self).fetched@ && final(self).skipped@ == old(self).skipped@,
            },
    {
        match outcome {
            FetchOutcome::AlreadyCached => self.skipped.push(label),
            FetchOutcome::Downloaded => self.fetched.push(label),
            FetchOutcome::Failed(m) => self.failed.push((label, m)),
        }
    }
}

/// What became of one job: its file was cached already, it was
/// downloaded, or its download failed with this message.
#[derive(Debug)]
pub enum FetchOutcome {
    AlreadyCached,
    Downloaded,
    Failed(String),
}

/// Whether a job is downloaded: always when forced, else only when its
/// file is not cached yet.
pub fn needs_download(cached: bool, force: bool) -> (r: bool)
    ensures
        r == (force || !cached),
{
    force || !cached
}

/// One download: where it is cached, where it comes from, and the label
/// the summary lists it under (the iconify id or the URL).
#[derive(Debug)]
pub struct FetchJob {
    pub cache_path: String,
    pub url: String,
    pub label: String,
}

/// Whether every iconify id of the manifest has the `set:name` form that
/// a download address can be made from.
pub open spec fn ids_well_formed(m: IconManifest) -> bool {
    forall|i: int|
        0 <= i < m.entries@.len() ==> match #[trigger] m.entries@[i].source {
            IconEntrySource::Iconify(id) => find_char(id@, ':') is Some,
            _ => true,
        }
}

/// The download an entry's source asks for, if any.
pub open spec fn job_of(source: IconEntrySource, cache_dir: Seq<char>) -> Option<(Seq<char>, Seq<char>, Seq<char>)> {
    match source {
        IconEntrySource::Iconify(id) => Some(
            (
                join_path(join_path(cache_dir, split_id(id@).0), split_id(id@).1 + ".svg"@),
                iconify_url_spec(id@),
                id@,
            ),
        ),
        IconEntrySource::Url(u) => Some(
            (
                join_path(
                    join_path(cache_dir, "url"@),
                    hex_string(sha256_digest(vstd::utf8::encode_utf8(u@))) + ".svg"@,
                ),
                u@,
                u@,
            ),
        ),
        _ => None,
    }
}

/// The downloads of the first `n` entries, in entry order.
pub open spec fn jobs_of(m: IconManifest, cache_dir: Seq<char>, n: int) -> Seq<(Seq<char>, Seq<char>, Seq<char>)>
    decreases n,
{
    if n <= 0 {
        seq![]
    } else {
        let rest = jobs_of(m, cache_dir, n - 1);
        match job_of(m.entries@[n - 1].source, cache_dir) {
            Some(j) => rest.push(j),
            None => rest,
        }
    }
}

pub open spec fn job_view(j: FetchJob) -> (Seq<char>, Seq<char>, Seq<char>) {
    (j.cache_path@, j.url@, j.label@)
}

/// The downloads `icons fetch` considers, one per `iconify` or `url`
/// entry in entry order, cached under `cache_dir` (the workspace's
/// `.cache/guicons`).
pub fn fetch_jobs(manifest: &IconManifest, cache_dir: &str) -> (r: Vec<FetchJob>)
    requires
        ids_well_formed(*manifest),
    ensures
        r@.map_values(|j: FetchJob| job_view(j)) == jobs_of(*manifest, cache_dir@, manifest.entries@.len() as int),
{
    let mut out: Vec<FetchJob> = Vec::new();
    let mut i: usize = 0;
    while i < manifest.entries.len()
        invariant
            ids_well_formed(*manifest),
            i <= manifest.entries@.len(),
            out@.map_values(|j: FetchJob| job_view(j)) == jobs_of(*manifest, cache_dir@, i as int),
        decreases manifest.entries@.len() - i,
    {
        let ghost before = out@.map_values(|j: FetchJob| job_view(j));
        match &manifest.entries[i].source {
            IconEntrySource::Iconify(id) => {
                proof {
                    assert(find_char(id@, ':') is Some);
                }
                let job = FetchJob {
                    cache_path: iconify_cache_path(cache_dir, id.as_str()),
                    url: iconify_url(id.as_str()),
                    label: id.clone(),
                };
                out.push(job);
                proof {
                    assert(out@.map_values(|j: FetchJob| job_view(j)) =~= before.push(job_view(job)));
                }
            },
            IconEntrySource::Url(u) => {
                let job = FetchJob { cache_path: url_cache_path(cache_dir, u.as_str()), url: u.clone(), label: u.clone() };
                out.push(job);
                proof {
                    assert(out@.map_values(|j: FetchJob| job_view(j)) =~= before.push(job_view(job)));
                }
            },
            _ => {},
        }
        i += 1;
    }
    out
}

} // verus!

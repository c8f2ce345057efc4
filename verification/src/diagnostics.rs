//! Editor diagnostics beyond what loading a manifest reports: which
//! manifest errors to publish, which referenced files to look for on disk,
//! a "did you mean" suggestion by edit distance, and the notes for iconify
//! ids that cannot be confirmed offline.

use crate::model::{IconEntry, IconEntrySource, IconManifest};
use crate::text::{byte_offsets, chars_of, find_char, find_char_exec, push_str, starts_at, starts_at_exec, string_of, utf8_len};
use std::ops::Range;
use vstd::prelude::*;

verus! {

/// Whether a manifest error is published, given the setting for raw TOML
/// syntax errors: only those are ever held back, never semantic ones.
pub open spec fn reports(message: Seq<char>, report_toml_syntax_errors: bool) -> bool {
    report_toml_syntax_errors || !starts_at(message, 0, "TOML syntax error:"@)
}

/// Whether a manifest error should be published, given the
/// `reportTomlSyntaxErrors` setting: only raw TOML syntax errors are ever
/// suppressed, never semantic ones (unknown field, missing source, ...).
pub fn should_report_error(message: &str, report_toml_syntax_errors: bool) -> (r: bool)
    ensures
        r == reports(message@, report_toml_syntax_errors),
{
    if report_toml_syntax_errors {
        return true;
    }
    let m = chars_of(message);
    let p = chars_of("TOML syntax error:");
    !starts_at_exec(m.as_slice(), 0, p.as_slice())
}

pub open spec fn min3(x: int, y: int, z: int) -> int {
    let m = if x < y {
        x
    } else {
        y
    };
    if m < z {
        m
    } else {
        z
    }
}

/// The edit distance between `a` and `b`: the fewest single-character
/// insertions, deletions and substitutions that turn one into the other.
pub open spec fn lev(a: Seq<char>, b: Seq<char>) -> int
    decreases a.len() + b.len(),
{
    if a.len() == 0 {
        b.len() as int
    } else if b.len() == 0 {
        a.len() as int
    } else {
        min3(
            lev(a.drop_last(), b) + 1,
            lev(a, b.drop_last()) + 1,
            lev(a.drop_last(), b.drop_last()) + if a.last() == b.last() {
                0int
            } else {
                1int
            },
        )
    }
}

proof fn lemma_lev_bounds(a: Seq<char>, b: Seq<char>)
    ensures
        0 <= lev(a, b),
        lev(a, b) <= a.len() || lev(a, b) <= b.len(),
        lev(a, b) <= a.len() + b.len(),
        a.len() <= b.len() ==> lev(a, b) <= b.len(),
        b.len() <= a.len() ==> lev(a, b) <= a.len(),
    decreases a.len() + b.len(),
{
    if a.len() > 0 && b.len() > 0 {
        lemma_lev_bounds(a.drop_last(), b);
        lemma_lev_bounds(a, b.drop_last());
        lemma_lev_bounds(a.drop_last(), b.drop_last());
    }
}

/// The edit (Levenshtein) distance between `a` and `b`, counted in
/// characters.
pub fn levenshtein(a: &str, b: &str) -> (r: usize)
    requires
        a@.len() < usize::MAX,
        b@.len() < usize::MAX,
    ensures
        r == lev(a@, b@),
{
    let a = chars_of(a);
    let b = chars_of(b);
    let n = a.len();
    let m = b.len();
    let mut prev: Vec<usize> = Vec::new();
    let mut j: usize = 0;
    while j <= m
        invariant
            j <= m + 1,
            m == b@.len(),
            m < usize::MAX,
            prev@.len() == j,
            forall|k: int| 0 <= k < j ==> #[trigger] prev@[k] == lev(a@.take(0), b@.take(k)),
        decreases m + 1 - j,
    {
        proof {
            assert(a@.take(0).len() == 0);
        }
        prev.push(j);
        j += 1;
    }
    let mut i: usize = 1;
    while i <= n
        invariant
            1 <= i <= n + 1,
            n == a@.len(),
            m == b@.len(),
            n < usize::MAX,
            m < usize::MAX,
            prev@.len() == m + 1,
            forall|k: int| 0 <= k <= m ==> #[trigger] prev@[k] == lev(a@.take(i - 1), b@.take(k)),
        decreases n + 1 - i,
    {
        let mut curr: Vec<usize> = Vec::new();
        curr.push(i);
        proof {
            assert(b@.take(0).len() == 0);
            assert(a@.take(i as int).len() == i);
        }
        let mut j: usize = 1;
        while j <= m
            invariant
                1 <= i <= n,
                1 <= j <= m + 1,
                n == a@.len(),
                m == b@.len(),
                n < usize::MAX,
                m < usize::MAX,
                prev@.len() == m + 1,
                forall|k: int| 0 <= k <= m ==> #[trigger] prev@[k] == lev(a@.take(i - 1), b@.take(k)),
                curr@.len() == j,
                forall|k: int| 0 <= k < j ==> #[trigger] curr@[k] == lev(a@.take(i as int), b@.take(k)),
            decreases m + 1 - j,
        {
            let ghost x = a@.take(i as int);
            let ghost y = b@.take(j as int);
            proof {
                assert(x.drop_last() =~= a@.take(i - 1));
                assert(y.drop_last() =~= b@.take(j - 1));
                assert(x.last() == a@[i - 1]);
                assert(y.last() == b@[j - 1]);
                lemma_lev_bounds(a@.take(i - 1), b@.take(j as int));
                lemma_lev_bounds(a@.take(i as int), b@.take(j - 1));
                lemma_lev_bounds(a@.take(i - 1), b@.take(j - 1));
            }
            let cost: usize = if a[i - 1] != b[j - 1] {
                1
            } else {
                0
            };
            let del = prev[j] + 1;
            let ins = curr[j - 1] + 1;
            let sub = prev[j - 1] + cost;
            let best = if del < ins {
                del
            } else {
                ins
            };
            let best = if best < sub {
                best
            } else {
                sub
            };
            curr.push(best);
            j += 1;
        }
        prev = curr;
        i += 1;
    }
    proof {
        assert(a@.take(n as int) =~= a@);
        assert(b@.take(m as int) =~= b@);
    }
    prev[m]
}

/// The most distance a file name may lie from the wanted one and still be
/// offered: half its length in bytes rounded up, and at least 2.
pub open spec fn suggestion_limit(len: nat) -> int {
    let half = (len + 1) / 2;
    if half < 2 {
        2
    } else {
        half as int
    }
}

/// Among `names`, the first one at the least edit distance from `t`.
pub open spec fn closest_index(t: Seq<char>, names: Seq<Seq<char>>) -> Option<int>
    decreases names.len(),
{
    if names.len() == 0 {
        None
    } else {
        match closest_index(t, names.drop_last()) {
            None => Some(names.len() - 1),
            Some(k) => if lev(t, names.last()) < lev(t, names[k]) {
                Some(names.len() - 1)
            } else {
                Some(k)
            },
        }
    }
}

/// The "did you mean" suggestion for a missing file named `t` among the
/// sibling names `names`: the closest one, when it is close enough to be a
/// plausible typo.
pub open spec fn suggestion(t: Seq<char>, names: Seq<Seq<char>>) -> Option<Seq<char>> {
    match closest_index(t, names) {
        None => None,
        Some(k) => if lev(t, names[k]) <= suggestion_limit(utf8_len(t)) {
            Some(names[k])
        } else {
            None
        },
    }
}

proof fn lemma_closest_index(t: Seq<char>, names: Seq<Seq<char>>)
    ensures
        closest_index(t, names) matches Some(k) ==> 0 <= k < names.len(),
        names.len() > 0 ==> closest_index(t, names) is Some,
    decreases names.len(),
{
    if names.len() > 0 {
        lemma_closest_index(t, names.drop_last());
    }
}

/// The name among `names` (the files next to a missing one, in the order
/// the directory listed them) to suggest for the missing `target_name`:
/// the first at the least edit distance, if that distance is at most half
/// the target's length (and at least 2).
pub fn closest_file_name(target_name: &str, names: &Vec<String>) -> (r: Option<String>)
    requires
        utf8_len(target_name@) <= usize::MAX,
        target_name@.len() < usize::MAX,
        forall|i: int| 0 <= i < names@.len() ==> (#[trigger] names@[i])@.len() < usize::MAX,
    ensures
        match r {
            Some(s) => suggestion(target_name@, names@.map_values(|n: String| n@)) == Some(s@),
            None => suggestion(target_name@, names@.map_values(|n: String| n@)) is None,
        },
{
    let ghost views = names@.map_values(|n: String| n@);
    let mut best: Option<(usize, usize)> = None;
    let mut i: usize = 0;
    while i < names.len()
        invariant
            i <= names@.len(),
            views == names@.map_values(|n: String| n@),
            target_name@.len() < usize::MAX,
            forall|j: int| 0 <= j < names@.len() ==> (#[trigger] names@[j])@.len() < usize::MAX,
            match best {
                None => closest_index(target_name@, views.take(i as int)) is None,
                Some((d, k)) => closest_index(target_name@, views.take(i as int)) == Some(k as int) && k < i && d
                    == lev(target_name@, views[k as int]),
            },
        decreases names@.len() - i,
    {
        let d = levenshtein(target_name, names[i].as_str());
        proof {
            assert(views.take(i + 1).drop_last() =~= views.take(i as int));
            assert(views.take(i + 1).last() == views[i as int]);
            if let Some((bd, k)) = best {
                assert(views.take(i + 1)[k as int] == views[k as int]);
            }
        }
        match best {
            None => {
                best = Some((d, i));
            },
            Some((bd, k)) => {
                if d < bd {
                    best = Some((d, i));
                }
            },
        }
        i += 1;
    }
    proof {
        assert(views.take(names@.len() as int) =~= views);
    }
    match best {
        None => None,
        Some((d, k)) => {
            let t = chars_of(target_name);
            let offs = byte_offsets(&t);
            let len = offs[t.len()];
            proof {
                assert(t@.take(t@.len() as int) =~= t@);
            }
            let half = len / 2 + len % 2;
            let limit = if half < 2 {
                2
            } else {
                half
            };
            proof {
                assert((len as int + 1) / 2 == half as int);
            }
            if d <= limit {
                Some(names[k].clone())
            } else {
                None
            }
        },
    }
}

/// The diagnostic for a `file`/`windows-ico` target that does not exist:
/// which field, the path as displayed, and a suggestion when there is one.
pub open spec fn missing_file_text(field: Seq<char>, shown: Seq<char>, suggestion: Option<Seq<char>>) -> Seq<char> {
    let head = "`"@ + field + "` not found: `"@ + shown + "`"@;
    match suggestion {
        Some(s) => head + " - did you mean `"@ + s + "`?"@,
        None => head,
    }
}

/// The message for a `file`/`windows-ico` target missing on disk, with a
/// "did you mean" suggestion when one was found.
pub fn missing_file_message(field: &str, shown: &str, suggestion: Option<String>) -> (r: String)
    ensures
        r@ == missing_file_text(field@, shown@, match suggestion {
            Some(s) => Some(s@),
            None => None,
        }),
{
    let mut out: Vec<char> = Vec::new();
    push_str(&mut out, "`");
    push_str(&mut out, field);
    push_str(&mut out, "` not found: `");
    push_str(&mut out, shown);
    push_str(&mut out, "`");
    if let Some(s) = suggestion {
        push_str(&mut out, " - did you mean `");
        push_str(&mut out, s.as_str());
        push_str(&mut out, "`?");
    }
    proof {
        assert(out@ =~= missing_file_text(field@, shown@, match suggestion {
            Some(s) => Some(s@),
            None => None,
        }));
    }
    string_of(out.as_slice())
}

/// The note for an `iconify` entry: a malformed id never resolves; a
/// well-formed one that is not cached cannot be confirmed offline; a
/// cached one needs no note.
pub open spec fn iconify_note_text(id: Seq<char>, cached: bool) -> Option<Seq<char>> {
    if find_char(id, ':') is None {
        Some("iconify id `"@ + id + "` isn't in `provider:name` form - it will never resolve"@)
    } else if cached {
        None
    } else {
        Some(
            "iconify icon `"@ + id
                + "` isn't cached locally yet - can't confirm it resolves without a network fetch (`icons fetch` or `GUICONS_ALLOW_NETWORK=1`)"@,
        )
    }
}

/// The informational note for an `iconify` entry, given whether its SVG
/// is already in the local cache.
pub fn iconify_note(id: &str, cached: bool) -> (r: Option<String>)
    ensures
        match r {
            Some(t) => iconify_note_text(id@, cached) == Some(t@),
            None => iconify_note_text(id@, cached) is None,
        },
{
    let s = chars_of(id);
    let mut out: Vec<char> = Vec::new();
    if find_char_exec(s.as_slice(), ':').is_none() {
        push_str(&mut out, "iconify id `");
        push_str(&mut out, id);
        push_str(&mut out, "` isn't in `provider:name` form - it will never resolve");
        return Some(string_of(out.as_slice()));
    }
    if cached {
        return None;
    }
    push_str(&mut out, "iconify icon `");
    push_str(&mut out, id);
    push_str(
        &mut out,
        "` isn't cached locally yet - can't confirm it resolves without a network fetch (`icons fetch` or `GUICONS_ALLOW_NETWORK=1`)",
    );
    Some(string_of(out.as_slice()))
}

/// A referenced file to look for on disk: the field naming it, its path,
/// and the span of the entry that names it.
#[derive(Debug)]
pub struct FileCheck {
    pub field: String,
    pub target: String,
    pub span: Range<usize>,
}

/// The file checks one entry asks for: its `file` source, then its
/// `windows-ico`.
pub open spec fn entry_checks(e: IconEntry) -> Seq<(Seq<char>, Seq<char>, Range<usize>)> {
    match e.windows_ico {
        Some(ico) => source_check(e).push(("windows-ico"@, ico@, e.span)),
        None => source_check(e),
    }
}

/// The check of an entry's `file` source, if it has one.
pub open spec fn source_check(e: IconEntry) -> Seq<(Seq<char>, Seq<char>, Range<usize>)> {
    match e.source {
        IconEntrySource::File(p) => seq![("file"@, p@, e.span)],
        _ => seq![],
    }
}

/// The file checks of the entries of `es` declared in `path`, in order.
pub open spec fn file_checks_of(es: Seq<IconEntry>, path: Seq<char>) -> Seq<(Seq<char>, Seq<char>, Range<usize>)>
    decreases es.len(),
{
    if es.len() == 0 {
        seq![]
    } else {
        file_checks_of(es.drop_last(), path) + if es.last().file@ == path {
            entry_checks(es.last())
        } else {
            seq![]
        }
    }
}

pub open spec fn check_view(c: FileCheck) -> (Seq<char>, Seq<char>, Range<usize>) {
    (c.field@, c.target@, c.span)
}

/// The `file`/`windows-ico` targets of the entries declared in the
/// manifest file `path`, to be looked for on disk: manifest loading only
/// checks a manifest's shape, not that what it names exists.
pub fn file_checks(manifest: &IconManifest, path: &str) -> (r: Vec<FileCheck>)
    ensures
        r@.map_values(|c: FileCheck| check_view(c)) == file_checks_of(manifest.entries@, path@),
{
    let wanted = path.to_owned();
    let mut out: Vec<FileCheck> = Vec::new();
    let mut i: usize = 0;
    while i < manifest.entries.len()
        invariant
            wanted@ == path@,
            i <= manifest.entries@.len(),
            out@.map_values(|c: FileCheck| check_view(c)) == file_checks_of(manifest.entries@.take(i as int), path@),
        decreases manifest.entries@.len() - i,
    {
        let e = &manifest.entries[i];
        let ghost before = out@.map_values(|c: FileCheck| check_view(c));
        proof {
            assert(manifest.entries@.take(i + 1).drop_last() =~= manifest.entries@.take(i as int));
            assert(manifest.entries@.take(i + 1).last() == manifest.entries@[i as int]);
        }
        if e.file == wanted {
            if let IconEntrySource::File(target) = &e.source {
                out.push(FileCheck { field: "file".to_string(), target: target.clone(), span: Range { start: e.span.start, end: e.span.end } });
            }
            let ghost mid = out@.map_values(|c: FileCheck| check_view(c));
            if let Some(ico) = &e.windows_ico {
                out.push(FileCheck { field: "windows-ico".to_string(), target: ico.clone(), span: Range { start: e.span.start, end: e.span.end } });
            }
            proof {
                assert(mid =~= before + source_check(*e));
                assert(out@.map_values(|c: FileCheck| check_view(c)) =~= before + entry_checks(*e));
            }
        } else {
            proof {
                assert(before + seq![] =~= before);
            }
        }
        i += 1;
    }
    proof {
        assert(manifest.entries@.take(manifest.entries@.len() as int) =~= manifest.entries@);
    }
    out
}

} // verus!

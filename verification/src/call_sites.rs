//! The `icon!`/`icon_key!`/`icon_data!` calls of a Rust file that name a
//! given family: where they are (to list references) and how their
//! arguments read after a rename of the family.

use crate::rename::{arg_selector_ok, rename_arg, rename_family_in_arg_text};
use crate::rust_macro::{all_macro_calls, scan, SiteSpec};
use crate::selector::{parse_selector, raw_selector, IconSelector, SelectorView};
use crate::text::utf8_len;
use std::ops::Range;
use vstd::prelude::*;

verus! {

/// The argument text of a scanned call site of `t`.
pub open spec fn site_arg(t: Seq<char>, s: SiteSpec) -> Seq<char> {
    t.subrange(s.1, s.2)
}

/// The byte range of a scanned call site's argument.
pub open spec fn site_range(t: Seq<char>, s: SiteSpec) -> (int, int) {
    (utf8_len(t.take(s.1)) as int, utf8_len(t.take(s.2)) as int)
}

/// Whether a call's argument selects exactly `family` at `size` and
/// `variant`.
pub open spec fn selects(arg: Seq<char>, family: Seq<char>, size: Option<u16>, variant: Option<Seq<char>>) -> bool {
    raw_selector(arg) == Ok::<SelectorView, Seq<char>>(SelectorView::FamilyVariant { family, size, variant })
}

/// The argument ranges of the sites among `sites` that select the entry.
pub open spec fn references_in(
    t: Seq<char>,
    sites: Seq<SiteSpec>,
    family: Seq<char>,
    size: Option<u16>,
    variant: Option<Seq<char>>,
) -> Seq<(int, int)>
    decreases sites.len(),
{
    if sites.len() == 0 {
        seq![]
    } else {
        let rest = references_in(t, sites.drop_last(), family, size, variant);
        if selects(site_arg(t, sites.last()), family, size, variant) {
            rest.push(site_range(t, sites.last()))
        } else {
            rest
        }
    }
}

pub open spec fn ranges_view(v: Seq<Range<usize>>) -> Seq<(int, int)> {
    v.map_values(|r: Range<usize>| (r.start as int, r.end as int))
}

fn same_variant(a: &Option<String>, b: &Option<String>) -> (r: bool)
    ensures
        r == (crate::selector::opt_view(*a) == crate::selector::opt_view(*b)),
{
    match (a, b) {
        (Some(x), Some(y)) => *x == *y,
        (None, None) => true,
        _ => false,
    }
}

/// The argument ranges of the calls in the Rust source `text` that name
/// exactly `family` at `size` and `variant` (references to that entry), in
/// order.
pub fn reference_ranges(text: &str, family: &str, size: Option<u16>, variant: Option<String>) -> (r: Vec<Range<usize>>)
    requires
        utf8_len(text@) <= usize::MAX,
    ensures
        ranges_view(r@) == references_in(
            text@,
            scan(text@, 0),
            family@,
            size,
            crate::selector::opt_view(variant),
        ),
{
    let sites = all_macro_calls(text);
    let ghost spec_sites = scan(text@, 0);
    let wanted = family.to_owned();
    let mut out: Vec<Range<usize>> = Vec::new();
    let mut k: usize = 0;
    while k < sites.len()
        invariant
            crate::rust_macro::sites_match(sites@, text@, spec_sites),
            spec_sites == scan(text@, 0),
            wanted@ == family@,
            k <= sites@.len(),
            ranges_view(out@) == references_in(
                text@,
                spec_sites.take(k as int),
                family@,
                size,
                crate::selector::opt_view(variant),
            ),
        decreases sites@.len() - k,
    {
        let site = &sites[k];
        proof {
            assert(spec_sites.take(k + 1).drop_last() =~= spec_sites.take(k as int));
            assert(spec_sites.take(k + 1).last() == spec_sites[k as int]);
            assert(crate::rust_macro::site_matches(sites@[k as int], text@, spec_sites[k as int]));
        }
        let ghost before = ranges_view(out@);
        match parse_selector(site.arg_text.as_str()) {
            Ok(IconSelector::FamilyVariant { family: f, size: s, variant: v }) => {
                if f == wanted && s == size && same_variant(&v, &variant) {
                    out.push(Range { start: site.arg_range.start, end: site.arg_range.end });
                    proof {
                        assert(ranges_view(out@) =~= before.push(site_range(text@, spec_sites[k as int])));
                    }
                }
            },
            _ => {},
        }
        k += 1;
    }
    proof {
        assert(spec_sites.take(spec_sites.len() as int) =~= spec_sites);
    }
    out
}

/// Whether a call's argument selects some variant or size of `family`.
pub open spec fn selects_family(arg: Seq<char>, family: Seq<char>) -> bool {
    raw_selector(arg) matches Ok(SelectorView::FamilyVariant { family: f, .. }) && f == family
}

/// The rename edits of the sites among `sites`: the argument range of each
/// call naming `old` and its argument rewritten to `new`.
pub open spec fn rename_edits_in(t: Seq<char>, sites: Seq<SiteSpec>, old: Seq<char>, new: Seq<char>) -> Seq<
    ((int, int), Seq<char>),
>
    decreases sites.len(),
{
    if sites.len() == 0 {
        seq![]
    } else {
        let rest = rename_edits_in(t, sites.drop_last(), old, new);
        let arg = site_arg(t, sites.last());
        if selects_family(arg, old) {
            match rename_arg(arg, old, new) {
                Some(a) => rest.push((site_range(t, sites.last()), a)),
                None => rest,
            }
        } else {
            rest
        }
    }
}

pub open spec fn edits_view(v: Seq<(Range<usize>, String)>) -> Seq<((int, int), Seq<char>)> {
    v.map_values(|e: (Range<usize>, String)| ((e.0.start as int, e.0.end as int), e.1@))
}

/// A family selector's argument can be cut around its blank margins: what
/// selects something is not blank.
proof fn lemma_selecting_arg_ok(arg: Seq<char>)
    requires
        raw_selector(arg) is Ok,
    ensures
        arg_selector_ok(arg),
{
    crate::rename::lemma_selector_part_ok(arg);
}

/// The edits renaming `old_family` to `new_family` in the calls of the
/// Rust source `text` that name it: each call's argument range, and its
/// argument with the family replaced.
pub fn rename_edits(text: &str, old_family: &str, new_family: &str) -> (r: Vec<(Range<usize>, String)>)
    requires
        utf8_len(text@) <= usize::MAX,
    ensures
        edits_view(r@) == rename_edits_in(text@, scan(text@, 0), old_family@, new_family@),
{
    let sites = all_macro_calls(text);
    let ghost spec_sites = scan(text@, 0);
    let wanted = old_family.to_owned();
    let mut out: Vec<(Range<usize>, String)> = Vec::new();
    let mut k: usize = 0;
    while k < sites.len()
        invariant
            crate::rust_macro::sites_match(sites@, text@, spec_sites),
            spec_sites == scan(text@, 0),
            wanted@ == old_family@,
            k <= sites@.len(),
            edits_view(out@) == rename_edits_in(text@, spec_sites.take(k as int), old_family@, new_family@),
        decreases sites@.len() - k,
    {
        let site = &sites[k];
        proof {
            assert(spec_sites.take(k + 1).drop_last() =~= spec_sites.take(k as int));
            assert(spec_sites.take(k + 1).last() == spec_sites[k as int]);
            assert(crate::rust_macro::site_matches(sites@[k as int], text@, spec_sites[k as int]));
        }
        let ghost before = edits_view(out@);
        match parse_selector(site.arg_text.as_str()) {
            Ok(IconSelector::FamilyVariant { family: f, .. }) => {
                if f == wanted {
                    proof {
                        lemma_selecting_arg_ok(site.arg_text@);
                    }
                    if let Some(renamed) = rename_family_in_arg_text(site.arg_text.as_str(), old_family, new_family) {
                        let ghost text_after = renamed@;
                        out.push((Range { start: site.arg_range.start, end: site.arg_range.end }, renamed));
                        proof {
                            assert(edits_view(out@) =~= before.push((site_range(text@, spec_sites[k as int]), text_after)));
                        }
                    }
                }
            },
            _ => {},
        }
        k += 1;
    }
    proof {
        assert(spec_sites.take(spec_sites.len() as int) =~= spec_sites);
    }
    out
}

} // verus!

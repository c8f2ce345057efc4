//! Completing an `iconify = "..."` value: before a `:` the provider is
//! being picked, after it a name within that provider.

use crate::text::{byte_offsets, chars_of, find_char, find_char_exec, slice_vec, string_of, utf8_len};
use std::ops::Range;
use vstd::prelude::*;

verus! {

/// What the text typed inside an `iconify = "..."` value resolves to, with
/// the byte range a completion replaces: only the part being picked.
#[derive(Debug)]
pub enum IconifyContext {
    Provider { range: Range<usize>, typed: String },
    Name { provider: String, range: Range<usize>, typed: String },
}

/// Splits `typed` (the text already inside the quotes, spanning
/// `full_span`) at its first `:`: a provider still being picked, or a
/// name within the provider before the `:`, whose range starts just after
/// it.
pub fn classify(full_span: Range<usize>, typed: &str) -> (r: IconifyContext)
    requires
        full_span.start + utf8_len(typed@) <= usize::MAX,
    ensures
        match find_char(typed@, ':') {
            None => r matches IconifyContext::Provider { range, typed: t } && range == full_span && t@ == typed@,
            Some(k) => r matches IconifyContext::Name { provider, range, typed: t } && provider@ == typed@.take(k)
                && t@ == typed@.skip(k + 1) && range.start == full_span.start + utf8_len(typed@.take(k)) + 1
                && range.end == full_span.end,
        },
{
    let s = chars_of(typed);
    match find_char_exec(s.as_slice(), ':') {
        None => IconifyContext::Provider { range: full_span, typed: typed.to_owned() },
        Some(k) => {
            let offs = byte_offsets(&s);
            let n = s.len();
            proof {
                crate::text::lemma_utf8_len_take_mono(s@, k as int, n as int);
                crate::text::lemma_utf8_len_take_mono(s@, k + 1, n as int);
                assert(s@.take(n as int) =~= s@);
                assert(offs@[k as int] == utf8_len(s@.take(k as int)));
                assert(offs@[n as int] == utf8_len(s@.take(n as int)));
            }
            let name_start = full_span.start + offs[k] + 1;
            IconifyContext::Name {
                provider: string_of(slice_vec(s.as_slice(), 0, k).as_slice()),
                range: Range { start: name_start, end: full_span.end },
                typed: string_of(slice_vec(s.as_slice(), k + 1, n).as_slice()),
            }
        },
    }
}

} // verus!

//! `glyph = "font-family:codepoint"` specs.

use crate::model::hex_value;
use crate::text::{chars_of, find_char, find_char_exec, is_hex_digit, push_str, slice_vec, string_of};
use vstd::prelude::*;

verus! {

/// Whether `v` is a Unicode scalar value.
pub open spec fn is_scalar(v: int) -> bool {
    0 <= v <= 0xD7FF || 0xE000 <= v <= 0x10FFFF
}

/// The value of a run of hex digits.
pub open spec fn hex_digits_value(s: Seq<char>) -> nat
    decreases s.len(),
{
    if s.len() == 0 {
        0
    } else {
        hex_digits_value(s.drop_last()) * 16 + hex_value(s.last())
    }
}

/// The character a codepoint part names: `U+` and one to six hex digits
/// naming a scalar value, or a single character standing for itself.
pub open spec fn codepoint_of(cp: Seq<char>) -> Option<char> {
    if cp.len() >= 3 && cp.len() <= 8 && cp[0] == 'U' && cp[1] == '+' && (forall|i: int|
        2 <= i < cp.len() ==> is_hex_digit(#[trigger] cp[i])) {
        let v = hex_digits_value(cp.skip(2));
        if is_scalar(v as int) {
            Some(v as char)
        } else {
            None
        }
    } else if cp.len() == 1 {
        Some(cp[0])
    } else {
        None
    }
}

/// What a glyph spec names: the font family before the first `:` (not
/// empty) and the codepoint after it.
pub open spec fn glyph_parts(spec: Seq<char>) -> Option<(Seq<char>, char)> {
    match find_char(spec, ':') {
        Some(k) => if k == 0 {
            None
        } else {
            match codepoint_of(spec.skip(k + 1)) {
                Some(c) => Some((spec.take(k), c)),
                None => None,
            }
        },
        None => None,
    }
}

/// The message for a glyph spec that names no glyph.
pub open spec fn glyph_error(spec: Seq<char>) -> Seq<char> {
    "invalid glyph spec `"@ + spec + "`: expected `font-family:U+XXXX`"@
}

/// `char::from_u32`: the character with that scalar value, `None` for a
/// surrogate or a value past `0x10FFFF`.
#[verifier::external_body]
fn char_from_u32(v: u32) -> (r: Option<char>)
    ensures
        r == (if is_scalar(v as int) {
            Some(v as char)
        } else {
            None
        }),
{
    char::from_u32(v)
}

proof fn lemma_hex_digits_bound(s: Seq<char>)
    requires
        forall|i: int| 0 <= i < s.len() ==> is_hex_digit(#[trigger] s[i]),
    ensures
        hex_digits_value(s) < vstd::arithmetic::power::pow(16, s.len()),
    decreases s.len(),
{
    vstd::arithmetic::power::lemma_pow_positive(16, s.len());
    if s.len() > 0 {
        assert forall|i: int| 0 <= i < s.drop_last().len() implies is_hex_digit(#[trigger] s.drop_last()[i]) by {
            assert(s.drop_last()[i] == s[i]);
        }
        lemma_hex_digits_bound(s.drop_last());
        assert(is_hex_digit(s[s.len() - 1]));
        vstd::arithmetic::power::lemma_pow_adds(16, (s.len() - 1) as nat, 1);
        vstd::arithmetic::power::lemma_pow1(16);
        let p = vstd::arithmetic::power::pow(16, (s.len() - 1) as nat);
        assert(hex_digits_value(s.drop_last()) * 16 + hex_value(s.last()) < p * 16) by (nonlinear_arith)
            requires
                hex_digits_value(s.drop_last()) < p,
                hex_value(s.last()) < 16,
        ;
    }
}

/// Reads `font-family:codepoint`: `U+` and hex digits, or a single
/// character.
pub fn try_parse_glyph_spec(spec: &str) -> (r: Result<(String, char), String>)
    ensures
        match r {
            Ok((family, c)) => glyph_parts(spec@) == Some((family@, c)),
            Err(m) => glyph_parts(spec@) is None && m@ == glyph_error(spec@),
        },
{
    let s = chars_of(spec);
    let total = s.len();
    let parsed: Option<(String, char)> = match find_char_exec(s.as_slice(), ':') {
        Some(k) => if k == 0 {
            None
        } else {
            let cp = slice_vec(s.as_slice(), k + 1, total);
            proof {
                assert(cp@ == spec@.skip(k + 1));
            }
            let n = cp.len();
            let c: Option<char> = if n >= 3 && n <= 8 && cp[0] == 'U' && cp[1] == '+' {
                let mut v: u32 = 0;
                let mut ok = true;
                let mut i: usize = 2;
                proof {
                    vstd::arithmetic::power::lemma_pow0(16);
                    assert(cp@.subrange(2, 2) =~= Seq::<char>::empty());
                }
                while i < n
                    invariant
                        n == cp@.len(),
                        3 <= n <= 8,
                        2 <= i <= n,
                        ok ==> forall|j: int| 2 <= j < i ==> is_hex_digit(#[trigger] cp@[j]),
                        !ok ==> exists|j: int| 2 <= j < n && !is_hex_digit(#[trigger] cp@[j]),
                        ok ==> v == hex_digits_value(cp@.subrange(2, i as int)),
                        ok ==> v < vstd::arithmetic::power::pow(16, (i - 2) as nat),
                    decreases n - i,
                {
                    if ok {
                        let d = cp[i];
                        if ('0' <= d && d <= '9') || ('a' <= d && d <= 'f') || ('A' <= d && d <= 'F') {
                            let dv: u32 = if '0' <= d && d <= '9' {
                                (d as u32) - ('0' as u32)
                            } else if 'a' <= d && d <= 'f' {
                                (d as u32) - ('a' as u32) + 10
                            } else {
                                (d as u32) - ('A' as u32) + 10
                            };
                            proof {
                                let pre = cp@.subrange(2, i as int);
                                assert(cp@.subrange(2, i + 1).drop_last() =~= pre);
                                assert(cp@.subrange(2, i + 1).last() == d);
                                assert forall|j: int| 0 <= j < cp@.subrange(2, i + 1).len() implies is_hex_digit(#[trigger] cp@.subrange(2, i + 1)[j]) by {
                                    assert(cp@.subrange(2, i + 1)[j] == cp@[j + 2]);
                                }
                                lemma_hex_digits_bound(cp@.subrange(2, i + 1));
                                vstd::arithmetic::power::lemma_pow_increases(16, (i + 1 - 2) as nat, 6);
                                assert(vstd::arithmetic::power::pow(16, 6) == 16777216) by {
                                    reveal_with_fuel(vstd::arithmetic::power::pow, 7);
                                }
                            }
                            v = v * 16 + dv;
                        } else {
                            ok = false;
                        }
                    }
                    i += 1;
                }
                if ok {
                    proof {
                        assert(cp@.subrange(2, n as int) =~= cp@.skip(2));
                    }
                    char_from_u32(v)
                } else {
                    None
                }
            } else if n == 1 {
                Some(cp[0])
            } else {
                None
            };
            match c {
                Some(c) => {
                    let family = string_of(slice_vec(s.as_slice(), 0, k).as_slice());
                    proof {
                        assert(family@ == spec@.take(k as int));
                    }
                    Some((family, c))
                },
                None => None,
            }
        },
        None => None,
    };
    match parsed {
        Some(p) => Ok(p),
        None => {
            let mut m: Vec<char> = Vec::new();
            push_str(&mut m, "invalid glyph spec `");
            push_str(&mut m, spec);
            push_str(&mut m, "`: expected `font-family:U+XXXX`");
            Err(string_of(m.as_slice()))
        },
    }
}

/// Like `try_parse_glyph_spec`, with the entry's key in the message.
pub fn parse_glyph_spec(spec: &str, key: &str) -> (r: Result<(String, char), String>)
    ensures
        match r {
            Ok((family, c)) => glyph_parts(spec@) == Some((family@, c)),
            Err(m) => glyph_parts(spec@) is None && m@ == "icon `"@ + key@ + "`: "@ + glyph_error(spec@),
        },
{
    match try_parse_glyph_spec(spec) {
        Ok(p) => Ok(p),
        Err(e) => {
            let mut m: Vec<char> = Vec::new();
            push_str(&mut m, "icon `");
            push_str(&mut m, key);
            push_str(&mut m, "`: ");
            push_str(&mut m, e.as_str());
            Err(string_of(m.as_slice()))
        },
    }
}

} // verus!

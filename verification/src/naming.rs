//! Turning manifest keys and names into Rust/Slint identifiers.

use crate::text::{
    is_digit, is_digit_exec, lower, lower_exec, push_all, string_of, upper, upper_exec,
};
use vstd::prelude::*;

verus! {

/// `.`, `-` and `_` separate the segments of a manifest name.
pub open spec fn is_sep(c: char) -> bool {
    c == '.' || c == '-' || c == '_'
}

fn is_sep_exec(c: char) -> (r: bool)
    ensures
        r == is_sep(c),
{
    c == '.' || c == '-' || c == '_'
}

/// The key with `.`/`-` turned into `_`, ASCII letters uppercased.
pub open spec fn const_name(key: Seq<char>) -> Seq<char> {
    Seq::new(key.len(), |i: int| if key[i] == '.' || key[i] == '-' { '_' } else { upper(key[i]) })
}

/// A manifest key as a Rust `SCREAMING_SNAKE_CASE` constant name:
/// `settings-filled` becomes `SETTINGS_FILLED`.
pub fn rust_const_name(key: &str) -> (r: String)
    ensures
        r@ == const_name(key@),
{
    let chars = crate::text::chars_of(key);
    let mut out: Vec<char> = Vec::new();
    let mut i: usize = 0;
    while i < chars.len()
        invariant
            chars@ == key@,
            i <= chars@.len(),
            out@.len() == i,
            forall|j: int| 0 <= j < i ==> out@[j] == (if key@[j] == '.' || key@[j] == '-' { '_' } else { upper(key@[j]) }),
        decreases chars@.len() - i,
    {
        let c = chars[i];
        if c == '.' || c == '-' {
            out.push('_');
        } else {
            out.push(upper_exec(c));
        }
        i += 1;
    }
    proof {
        assert(out@ =~= const_name(key@));
    }
    string_of(out.as_slice())
}

/// The segments of `s` concatenated, each with its first character
/// uppercased: `settings-filled` becomes `SettingsFilled`.
pub open spec fn camel(s: Seq<char>) -> Seq<char>
    decreases s.len(),
{
    if s.len() == 0 {
        seq![]
    } else if is_sep(s.last()) {
        camel(s.drop_last())
    } else if s.len() == 1 || is_sep(s[s.len() - 2]) {
        camel(s.drop_last()).push(upper(s.last()))
    } else {
        camel(s.drop_last()).push(s.last())
    }
}

/// A `camel` name as a type name: `Unknown` if empty, prefixed with `Icon`
/// if it would start with a digit.
pub open spec fn variant_name(key: Seq<char>) -> Seq<char> {
    let c = camel(key);
    if c.len() == 0 {
        seq!['U', 'n', 'k', 'n', 'o', 'w', 'n']
    } else if is_digit(c[0]) {
        seq!['I', 'c', 'o', 'n'] + c
    } else {
        c
    }
}

/// A manifest key as a Rust/Slint `UpperCamelCase` type-name fragment
/// (shared by the generated Rust builders and Slint components).
pub fn rust_variant_name(key: &str) -> (r: String)
    ensures
        r@ == variant_name(key@),
{
    let chars = crate::text::chars_of(key);
    let v = camel_exec(chars.as_slice());
    if v.len() == 0 {
        let unknown = ['U', 'n', 'k', 'n', 'o', 'w', 'n'];
        proof {
            assert(unknown@ =~= seq!['U', 'n', 'k', 'n', 'o', 'w', 'n']);
        }
        string_of(unknown.as_slice())
    } else if is_digit_exec(v[0]) {
        let mut out: Vec<char> = Vec::new();
        out.push('I');
        out.push('c');
        out.push('o');
        out.push('n');
        push_all(&mut out, v.as_slice());
        proof {
            assert(out@ =~= seq!['I', 'c', 'o', 'n'] + v@);
        }
        string_of(out.as_slice())
    } else {
        string_of(v.as_slice())
    }
}

/// `camel`, computed.
pub fn camel_exec(s: &[char]) -> (r: Vec<char>)
    ensures
        r@ == camel(s@),
{
    let mut out: Vec<char> = Vec::new();
    let mut i: usize = 0;
    while i < s.len()
        invariant
            i <= s@.len(),
            out@ == camel(s@.take(i as int)),
        decreases s@.len() - i,
    {
        let c = s[i];
        proof {
            let p = s@.take(i + 1);
            assert(p.drop_last() == s@.take(i as int));
            assert(p.last() == c);
            if i > 0 {
                assert(p[p.len() - 2] == s@[i - 1]);
            }
        }
        if is_sep_exec(c) {
        } else if i == 0 || is_sep_exec(s[i - 1]) {
            out.push(upper_exec(c));
        } else {
            out.push(c);
        }
        i += 1;
    }
    proof {
        assert(s@.take(s@.len() as int) == s@);
    }
    out
}

/// The segments of `s`, lowercased and joined with `_`.
pub open spec fn snake(s: Seq<char>) -> Seq<char>
    decreases s.len(),
{
    if s.len() == 0 {
        seq![]
    } else if is_sep(s.last()) {
        snake(s.drop_last())
    } else if (s.len() == 1 || is_sep(s[s.len() - 2])) && snake(s.drop_last()).len() > 0 {
        snake(s.drop_last()).push('_').push(lower(s.last()))
    } else {
        snake(s.drop_last()).push(lower(s.last()))
    }
}

/// `snake`, computed.
pub fn snake_exec(s: &[char]) -> (r: Vec<char>)
    ensures
        r@ == snake(s@),
{
    let mut out: Vec<char> = Vec::new();
    let mut i: usize = 0;
    while i < s.len()
        invariant
            i <= s@.len(),
            out@ == snake(s@.take(i as int)),
        decreases s@.len() - i,
    {
        let c = s[i];
        proof {
            let p = s@.take(i + 1);
            assert(p.drop_last() == s@.take(i as int));
            assert(p.last() == c);
            if i > 0 {
                assert(p[p.len() - 2] == s@[i - 1]);
            }
        }
        if is_sep_exec(c) {
        } else if (i == 0 || is_sep_exec(s[i - 1])) && out.len() > 0 {
            out.push('_');
            out.push(lower_exec(c));
        } else {
            out.push(lower_exec(c));
        }
        i += 1;
    }
    proof {
        assert(s@.take(s@.len() as int) == s@);
    }
    out
}

/// What `syn::parse_str::<syn::Ident>` makes of a name: `true` when it is
/// rejected (a reserved keyword, or not an identifier at all).
pub uninterp spec fn syn_rejects_ident(name: Seq<char>) -> bool;

/// `syn::parse_str::<syn::Ident>(name).is_err()`: whether `syn` refuses
/// `name` as an identifier, which it does for every reserved keyword. The
/// result is named (`syn_rejects_ident`), not described: syn's token rules
/// are not restated here.
#[verifier::external_body]
fn syn_rejects_ident_exec(name: &str) -> (r: bool)
    ensures
        r == syn_rejects_ident(name@),
{
    syn::parse_str::<syn::Ident>(name).is_err()
}

/// `snake(name)` made into a usable identifier: `icon` if empty, `icon_`
/// before a leading digit, then `r#` before anything `syn` rejects.
pub open spec fn fn_name(name: Seq<char>) -> Seq<char> {
    let s = snake(name);
    if s.len() == 0 {
        seq!['i', 'c', 'o', 'n']
    } else {
        let s2 = if is_digit(s[0]) {
            seq!['i', 'c', 'o', 'n', '_'] + s
        } else {
            s
        };
        if syn_rejects_ident(s2) {
            seq!['r', '#'] + s2
        } else {
            s2
        }
    }
}

/// A manifest name (family or variant) as a Rust `snake_case` fn/method
/// name: `group-list` becomes `group_list`, `20` becomes `icon_20`, `type`
/// becomes `r#type`.
pub fn rust_fn_name(name: &str) -> (r: String)
    ensures
        r@ == fn_name(name@),
{
    let chars = crate::text::chars_of(name);
    let s = snake_exec(chars.as_slice());
    if s.len() == 0 {
        let icon = ['i', 'c', 'o', 'n'];
        proof {
            assert(icon@ =~= seq!['i', 'c', 'o', 'n']);
        }
        return string_of(icon.as_slice());
    }
    let mut s2: Vec<char> = Vec::new();
    if is_digit_exec(s[0]) {
        s2.push('i');
        s2.push('c');
        s2.push('o');
        s2.push('n');
        s2.push('_');
    }
    push_all(&mut s2, s.as_slice());
    proof {
        if is_digit(s@[0]) {
            assert(s2@ =~= seq!['i', 'c', 'o', 'n', '_'] + s@);
        } else {
            assert(s2@ =~= s@);
        }
    }
    let candidate = string_of(s2.as_slice());
    if syn_rejects_ident_exec(candidate.as_str()) {
        let mut out: Vec<char> = Vec::new();
        out.push('r');
        out.push('#');
        push_all(&mut out, s2.as_slice());
        proof {
            assert(out@ =~= seq!['r', '#'] + s2@);
        }
        string_of(out.as_slice())
    } else {
        candidate
    }
}

} // verus!

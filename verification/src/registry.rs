//! The generated Rust registry (`icons.rs`): key, family and variant
//! constants, lookups by name and by family/size/variant, each key's data,
//! and the typed builders.

use crate::builders::{builders, generate_builders};
use crate::fields::strings_view;
use crate::materialize::{file_name, ImageKind, MaterializedIcon, MaterializedIconBackend};
use crate::naming::{const_name, rust_const_name};
use crate::order::{sorted_names, sorted_names_exec};
use crate::text::{chars_of, decimal, decimal_exec, join, join_exec, push_all, push_str, string_of};
use vstd::prelude::*;

verus! {

/// `Some(inner)` or `None`, as a pattern.
pub open spec fn option_pattern(inner: Option<Seq<char>>) -> Seq<char> {
    match inner {
        Some(x) => "Some("@ + x + ")"@,
        None => "None"@,
    }
}

/// `s` with every `\` doubled and every `"` escaped.
pub open spec fn escape_rust(s: Seq<char>) -> Seq<char>
    decreases s.len(),
{
    if s.len() == 0 {
        Seq::empty()
    } else {
        escape_rust(s.drop_last()) + if s.last() == '\\' {
            seq!['\\', '\\']
        } else if s.last() == '"' {
            seq!['\\', '"']
        } else {
            seq![s.last()]
        }
    }
}

/// `s` with every `\` doubled.
pub open spec fn double_backslashes(s: Seq<char>) -> Seq<char>
    decreases s.len(),
{
    if s.len() == 0 {
        Seq::empty()
    } else {
        double_backslashes(s.drop_last()) + if s.last() == '\\' {
            seq!['\\', '\\']
        } else {
            seq![s.last()]
        }
    }
}

/// `format!("{c:?}")`: std's `Debug` form of a character, quotes and
/// escapes included.
pub uninterp spec fn debug_char(c: char) -> Seq<char>;

/// `format!("{c:?}")` for a character: a function of the character alone.
#[verifier::external_body]
pub(crate) fn debug_char_exec(c: char) -> (r: String)
    ensures
        r@ == debug_char(c),
{
    format!("{c:?}")
}

/// What the registry names the manifest by: its file name, else the whole
/// path.
pub open spec fn manifest_file_name(p: Seq<char>) -> Seq<char> {
    let name = file_name(p);
    if name.len() == 0 || name == ".."@ || name == "."@ {
        p
    } else {
        name
    }
}

pub open spec fn key_const(i: MaterializedIcon) -> Seq<char> {
    "    pub const "@ + const_name(i.key@) + ": IconKey = IconKey::new(\""@ + i.key@ + "\");"@
}

pub open spec fn key_ref(i: MaterializedIcon) -> Seq<char> {
    "keys::"@ + const_name(i.key@)
}

pub open spec fn from_name_arm(i: MaterializedIcon) -> Seq<char> {
    "        \""@ + i.key@ + "\" => Some(keys::"@ + const_name(i.key@) + "),"@
}

pub open spec fn name_arm(i: MaterializedIcon) -> Seq<char> {
    "        keys::"@ + const_name(i.key@) + " => Some(\""@ + i.key@ + "\"),"@
}

pub open spec fn family_const(f: Seq<char>) -> Seq<char> {
    "    pub const "@ + const_name(f) + ": IconFamily = IconFamily::new(\""@ + f + "\");"@
}

pub open spec fn variant_const(v: Seq<char>) -> Seq<char> {
    "    pub const "@ + const_name(v) + ": IconVariant = IconVariant::new(\""@ + v + "\");"@
}

pub open spec fn size_pattern(i: MaterializedIcon) -> Seq<char> {
    option_pattern(
        match i.size {
            Some(n) => Some(decimal(n as nat)),
            None => None,
        },
    )
}

pub open spec fn family_variant_arm(i: MaterializedIcon) -> Seq<char> {
    "        (families::"@ + const_name(i.family@) + ", "@ + size_pattern(i) + ", "@ + option_pattern(
        match i.variant {
            Some(v) => Some("variants::"@ + const_name(v@)),
            None => None,
        },
    ) + ") => Some(keys::"@ + const_name(i.key@) + "),"@
}

pub open spec fn dynamic_arm(i: MaterializedIcon) -> Seq<char> {
    "        (\""@ + i.family@ + "\", "@ + size_pattern(i) + ", "@ + option_pattern(
        match i.variant {
            Some(v) => Some("\""@ + v@ + "\""@),
            None => None,
        },
    ) + ") => Some(keys::"@ + const_name(i.key@) + "),"@
}

/// What `data_for` gives for an icon: its image's bytes (unless it is
/// dynamic), its glyph, or nothing.
pub open spec fn data_arm(i: MaterializedIcon) -> Seq<char> {
    match i.backend {
        MaterializedIconBackend::Image { path, kind, .. } => if !i.dynamic {
            "        keys::"@ + const_name(i.key@) + " => Some(IconData::"@ + (match kind {
                ImageKind::Svg => "Svg"@,
                ImageKind::Png => "Png"@,
            }) + "(include_bytes!(\""@ + double_backslashes(path@) + "\"))),"@
        } else {
            "        keys::"@ + const_name(i.key@) + " => None,"@
        },
        MaterializedIconBackend::Glyph { font_family, codepoint } => "        keys::"@ + const_name(i.key@)
            + " => Some(IconData::Glyph { codepoint: "@ + debug_char(codepoint) + ", font_family: \""@ + escape_rust(
            font_family@,
        ) + "\" }),"@,
    }
}

/// The kinds of per-icon lines of the registry.
#[derive(Clone, Copy, PartialEq, Eq, Structural)]
pub enum Line {
    KeyConst,
    KeyRef,
    FromName,
    Name,
    FamilyVariant,
    Dynamic,
    Data,
}

pub open spec fn line_spec(which: Line, i: MaterializedIcon) -> Seq<char> {
    match which {
        Line::KeyConst => key_const(i),
        Line::KeyRef => key_ref(i),
        Line::FromName => from_name_arm(i),
        Line::Name => name_arm(i),
        Line::FamilyVariant => family_variant_arm(i),
        Line::Dynamic => dynamic_arm(i),
        Line::Data => data_arm(i),
    }
}

/// One line per icon, joined with `sep`.
pub open spec fn lines(icons: Seq<MaterializedIcon>, which: Line, sep: Seq<char>) -> Seq<char> {
    join(icons.map_values(|i: MaterializedIcon| line_spec(which, i)), sep)
}

pub open spec fn variants_of(icons: Seq<MaterializedIcon>) -> Seq<Seq<char>>
    decreases icons.len(),
{
    if icons.len() == 0 {
        Seq::empty()
    } else {
        match icons.last().variant {
            Some(v) => variants_of(icons.drop_last()).push(v@),
            None => variants_of(icons.drop_last()),
        }
    }
}

pub open spec fn slint_resolver_text() -> Seq<char> {
    "\npub fn resolve_image<'a>(icon: impl Into<IconRef<'a>>) -> slint::Image {\n    resolve(icon).and_then(guicons::slint::image_from_data).unwrap_or_default()\n}\n"@
}

/// The head of `icons.rs`: the key, family and variant constants.
pub open spec fn registry_head(manifest_path: Seq<char>, icons: Seq<MaterializedIcon>) -> Seq<char> {
    let families = sorted_names(icons.map_values(|i: MaterializedIcon| i.family@));
    let variants = sorted_names(variants_of(icons));
    "// AUTO-GENERATED from "@ + manifest_file_name(manifest_path)
        + "\nuse guicons::{IconData, IconFamily, IconKey, IconRef, IconVariant};\n\npub mod keys {\n    use super::IconKey;\n\n"@
        + lines(icons, Line::KeyConst, "\n"@) + "\n}\n\npub mod families {\n    use super::IconFamily;\n\n"@ + join(
        families.map_values(|f: Seq<char>| family_const(f)),
        "\n"@,
    ) + "\n}\n\npub mod variants {\n    use super::IconVariant;\n\n"@ + join(
        variants.map_values(|v: Seq<char>| variant_const(v)),
        "\n"@,
    ) + "\n}\n\n"@
}

/// The middle of `icons.rs`: the builders and the lookups by key and name.
pub open spec fn registry_middle(icons: Seq<MaterializedIcon>) -> Seq<char> {
    builders(icons) + "\npub const ALL_KEYS: &[IconKey] = &["@ + lines(icons, Line::KeyRef, ", "@)
        + "];\n\npub fn name_for_key(key: IconKey) -> Option<&'static str> {\n    match key {\n"@ + lines(
        icons,
        Line::Name,
        "\n"@,
    ) + "\n        _ => None,\n    }\n}\n\npub fn key_from_name(name: &str) -> Option<IconKey> {\n    match name {\n"@
        + lines(icons, Line::FromName, "\n"@)
}

/// The tail of `icons.rs`: the lookups by family/size/variant, each key's
/// data, and `resolve`.
pub open spec fn registry_tail(icons: Seq<MaterializedIcon>, slint_image_resolver: bool) -> Seq<char> {
    "\n        _ => None,\n    }\n}\n\npub fn key_from_family_variant(family: IconFamily, size: Option<u16>, variant: Option<IconVariant>) -> Option<IconKey> {\n    match (family, size, variant) {\n"@
        + lines(icons, Line::FamilyVariant, "\n"@)
        + "\n        _ => None,\n    }\n}\n\npub fn key_from_dynamic_family_variant(family: &str, size: Option<u16>, variant: Option<&str>) -> Option<IconKey> {\n    match (family, size, variant) {\n"@
        + lines(icons, Line::Dynamic, "\n"@)
        + "\n        _ => None,\n    }\n}\n\npub fn key_from_ref(icon: IconRef<'_>) -> Option<IconKey> {\n    match icon {\n        IconRef::Key(key) => Some(key),\n        IconRef::Name(name) => key_from_name(name),\n        IconRef::FamilyVariant { family, size, variant } => key_from_family_variant(family, size, variant),\n        IconRef::DynamicFamilyVariant { family, size, variant } => key_from_dynamic_family_variant(family, size, variant),\n    }\n}\n\npub fn data_for(key: IconKey) -> Option<IconData> {\n    match key {\n"@
        + lines(icons, Line::Data, "\n"@)
        + "\n        _ => None,\n    }\n}\n\npub fn resolve<'a>(icon: impl Into<IconRef<'a>>) -> Option<IconData> {\n    key_from_ref(icon.into()).and_then(data_for)\n}\n"@
        + if slint_image_resolver {
        slint_resolver_text()
    } else {
        Seq::empty()
    }
}

/// The whole `icons.rs`.
pub open spec fn registry(manifest_path: Seq<char>, icons: Seq<MaterializedIcon>, slint_image_resolver: bool) -> Seq<
    char,
> {
    registry_head(manifest_path, icons) + registry_middle(icons) + registry_tail(icons, slint_image_resolver)
}

fn option_pattern_exec(inner: Option<Vec<char>>) -> (r: Vec<char>)
    ensures
        r@ == option_pattern(match inner {
            Some(x) => Some(x@),
            None => None,
        }),
{
    let mut m: Vec<char> = Vec::new();
    match inner {
        Some(x) => {
            push_str(&mut m, "Some(");
            push_all(&mut m, x.as_slice());
            push_str(&mut m, ")");
        },
        None => push_str(&mut m, "None"),
    }
    m
}

/// `s` with `\` (and, when `quotes`, `"`) escaped.
fn escape_exec(s: &str, quotes: bool) -> (r: Vec<char>)
    ensures
        quotes ==> r@ == escape_rust(s@),
        !quotes ==> r@ == double_backslashes(s@),
{
    let c = chars_of(s);
    let mut out: Vec<char> = Vec::new();
    let mut i: usize = 0;
    proof {
        assert(s@.take(0) =~= Seq::<char>::empty());
    }
    while i < c.len()
        invariant
            c@ == s@,
            i <= c@.len(),
            quotes ==> out@ == escape_rust(s@.take(i as int)),
            !quotes ==> out@ == double_backslashes(s@.take(i as int)),
        decreases c@.len() - i,
    {
        proof {
            assert(s@.take(i + 1).drop_last() =~= s@.take(i as int));
            assert(s@.take(i + 1).last() == c@[i as int]);
        }
        let ch = c[i];
        let ghost before = out@;
        if ch == '\\' {
            out.push('\\');
            out.push('\\');
        } else if ch == '"' && quotes {
            out.push('\\');
            out.push('"');
        } else {
            out.push(ch);
        }
        proof {
            if quotes {
                assert(out@ =~= escape_rust(s@.take(i + 1)));
            } else {
                assert(out@ =~= double_backslashes(s@.take(i + 1)));
            }
        }
        i += 1;
    }
    proof {
        assert(s@.take(c@.len() as int) =~= s@);
    }
    out
}

fn size_pattern_exec(i: &MaterializedIcon) -> (r: Vec<char>)
    ensures
        r@ == size_pattern(*i),
{
    match i.size {
        Some(n) => option_pattern_exec(Some(decimal_exec(n as u64))),
        None => option_pattern_exec(None),
    }
}

fn line_exec(which: Line, i: &MaterializedIcon) -> (r: Vec<char>)
    ensures
        r@ == line_spec(which, *i),
{
    let c = rust_const_name(i.key.as_str());
    let mut m: Vec<char> = Vec::new();
    match which {
        Line::KeyConst => {
            push_str(&mut m, "    pub const ");
            push_str(&mut m, c.as_str());
            push_str(&mut m, ": IconKey = IconKey::new(\"");
            push_str(&mut m, i.key.as_str());
            push_str(&mut m, "\");");
        },
        Line::KeyRef => {
            push_str(&mut m, "keys::");
            push_str(&mut m, c.as_str());
        },
        Line::FromName => {
            push_str(&mut m, "        \"");
            push_str(&mut m, i.key.as_str());
            push_str(&mut m, "\" => Some(keys::");
            push_str(&mut m, c.as_str());
            push_str(&mut m, "),");
        },
        Line::Name => {
            push_str(&mut m, "        keys::");
            push_str(&mut m, c.as_str());
            push_str(&mut m, " => Some(\"");
            push_str(&mut m, i.key.as_str());
            push_str(&mut m, "\"),");
        },
        Line::FamilyVariant => {
            push_str(&mut m, "        (families::");
            push_str(&mut m, rust_const_name(i.family.as_str()).as_str());
            push_str(&mut m, ", ");
            push_all(&mut m, size_pattern_exec(i).as_slice());
            push_str(&mut m, ", ");
            let v = match &i.variant {
                Some(v) => {
                    let mut x: Vec<char> = Vec::new();
                    push_str(&mut x, "variants::");
                    push_str(&mut x, rust_const_name(v.as_str()).as_str());
                    Some(x)
                },
                None => None,
            };
            push_all(&mut m, option_pattern_exec(v).as_slice());
            push_str(&mut m, ") => Some(keys::");
            push_str(&mut m, c.as_str());
            push_str(&mut m, "),");
        },
        Line::Dynamic => {
            push_str(&mut m, "        (\"");
            push_str(&mut m, i.family.as_str());
            push_str(&mut m, "\", ");
            push_all(&mut m, size_pattern_exec(i).as_slice());
            push_str(&mut m, ", ");
            let v = match &i.variant {
                Some(v) => {
                    let mut x: Vec<char> = Vec::new();
                    push_str(&mut x, "\"");
                    push_str(&mut x, v.as_str());
                    push_str(&mut x, "\"");
                    Some(x)
                },
                None => None,
            };
            push_all(&mut m, option_pattern_exec(v).as_slice());
            push_str(&mut m, ") => Some(keys::");
            push_str(&mut m, c.as_str());
            push_str(&mut m, "),");
        },
        Line::Data => {
            push_str(&mut m, "        keys::");
            push_str(&mut m, c.as_str());
            match &i.backend {
                MaterializedIconBackend::Image { path, kind, .. } => {
                    if !i.dynamic {
                        push_str(&mut m, " => Some(IconData::");
                        push_str(&mut m, match kind {
                            ImageKind::Svg => "Svg",
                            ImageKind::Png => "Png",
                        });
                        push_str(&mut m, "(include_bytes!(\"");
                        push_all(&mut m, escape_exec(path.as_str(), false).as_slice());
                        push_str(&mut m, "\"))),");
                    } else {
                        push_str(&mut m, " => None,");
                    }
                },
                MaterializedIconBackend::Glyph { font_family, codepoint } => {
                    push_str(&mut m, " => Some(IconData::Glyph { codepoint: ");
                    push_str(&mut m, debug_char_exec(*codepoint).as_str());
                    push_str(&mut m, ", font_family: \"");
                    push_all(&mut m, escape_exec(font_family.as_str(), true).as_slice());
                    push_str(&mut m, "\" }),");
                },
            }
        },
    }
    m
}

/// One line per icon, joined with `sep`.
pub fn lines_exec(icons: &Vec<MaterializedIcon>, which: Line, sep: &str) -> (r: Vec<char>)
    ensures
        r@ == lines(icons@, which, sep@),
{
    let mut parts: Vec<Vec<char>> = Vec::new();
    let mut k: usize = 0;
    while k < icons.len()
        invariant
            k <= icons@.len(),
            parts@.len() == k,
            forall|j: int| 0 <= j < k ==> #[trigger] parts@[j]@ == line_spec(which, icons@[j]),
        decreases icons@.len() - k,
    {
        parts.push(line_exec(which, &icons[k]));
        k += 1;
    }
    let sv = chars_of(sep);
    let r = join_exec(&parts, sv.as_slice());
    proof {
        assert(parts@.map_values(|p: Vec<char>| p@) =~= icons@.map_values(|i: MaterializedIcon| line_spec(which, i)));
    }
    r
}

/// What the registry names the manifest by: its file name, else the whole
/// path.
pub fn manifest_file_name_exec(p: &str) -> (r: String)
    ensures
        r@ == manifest_file_name(p@),
{
    let s = chars_of(p);
    let mut k = s.len();
    proof {
        assert(s@.take(k as int) =~= s@);
    }
    while k > 0 && s[k - 1] != '/'
        invariant
            s@ == p@,
            k <= s@.len(),
            crate::load::last_slash(s@) == crate::load::last_slash(s@.take(k as int)),
        decreases k,
    {
        proof {
            assert(s@.take(k as int).drop_last() =~= s@.take(k - 1));
        }
        k -= 1;
    }
    let name = crate::text::slice_vec(s.as_slice(), k, s.len());
    proof {
        if k == 0 {
            assert(s@.take(0) =~= Seq::<char>::empty());
            assert(name@ =~= p@);
        } else {
            assert(s@.take(k as int).last() == '/');
            assert(name@ =~= p@.skip(k as int));
        }
        assert(name@ == file_name(p@));
    }
    let dots = chars_of("..");
    let dot = chars_of(".");
    if name.len() == 0 || crate::text::chars_eq(name.as_slice(), dots.as_slice()) || crate::text::chars_eq(
        name.as_slice(),
        dot.as_slice(),
    ) {
        p.to_owned()
    } else {
        string_of(name.as_slice())
    }
}

fn name_lines(names: &Vec<String>, family: bool) -> (r: Vec<char>)
    ensures
        family ==> r@ == join(strings_view(names@).map_values(|f: Seq<char>| family_const(f)), "\n"@),
        !family ==> r@ == join(strings_view(names@).map_values(|v: Seq<char>| variant_const(v)), "\n"@),
{
    let mut parts: Vec<Vec<char>> = Vec::new();
    let mut k: usize = 0;
    while k < names.len()
        invariant
            k <= names@.len(),
            parts@.len() == k,
            forall|j: int| 0 <= j < k ==> #[trigger] parts@[j]@ == (if family {
                family_const(names@[j]@)
            } else {
                variant_const(names@[j]@)
            }),
        decreases names@.len() - k,
    {
        let mut m: Vec<char> = Vec::new();
        push_str(&mut m, "    pub const ");
        push_str(&mut m, rust_const_name(names[k].as_str()).as_str());
        if family {
            push_str(&mut m, ": IconFamily = IconFamily::new(\"");
        } else {
            push_str(&mut m, ": IconVariant = IconVariant::new(\"");
        }
        push_str(&mut m, names[k].as_str());
        push_str(&mut m, "\");");
        parts.push(m);
        k += 1;
    }
    let sv = chars_of("\n");
    let r = join_exec(&parts, sv.as_slice());
    proof {
        if family {
            assert(parts@.map_values(|p: Vec<char>| p@) =~= strings_view(names@).map_values(|f: Seq<char>| family_const(f)));
        } else {
            assert(parts@.map_values(|p: Vec<char>| p@) =~= strings_view(names@).map_values(|v: Seq<char>| variant_const(v)));
        }
    }
    r
}

fn names_of(icons: &Vec<MaterializedIcon>) -> (r: (Vec<String>, Vec<String>))
    ensures
        strings_view(r.0@) == icons@.map_values(|i: MaterializedIcon| i.family@),
        strings_view(r.1@) == variants_of(icons@),
{
    let mut fams: Vec<String> = Vec::new();
    let mut vars: Vec<String> = Vec::new();
    let mut k: usize = 0;
    proof {
        assert(icons@.take(0) =~= Seq::<MaterializedIcon>::empty());
        assert(strings_view(fams@) =~= icons@.take(0).map_values(|i: MaterializedIcon| i.family@));
        assert(strings_view(vars@) =~= variants_of(icons@.take(0)));
    }
    while k < icons.len()
        invariant
            k <= icons@.len(),
            fams@.len() == k,
            strings_view(fams@) == icons@.take(k as int).map_values(|i: MaterializedIcon| i.family@),
            strings_view(vars@) == variants_of(icons@.take(k as int)),
        decreases icons@.len() - k,
    {
        proof {
            assert(icons@.take(k + 1).drop_last() =~= icons@.take(k as int));
            assert(icons@.take(k + 1).last() == icons@[k as int]);
        }
        let ghost f0 = fams@;
        let ghost v0 = vars@;
        let fam = icons[k].family.clone();
        fams.push(fam);
        if let Some(v) = &icons[k].variant {
            let vc = v.clone();
            vars.push(vc);
            proof {
                assert(strings_view(vars@) =~= strings_view(v0).push(v@));
            }
        }
        proof {
            assert forall|j: int| 0 <= j < k + 1 implies strings_view(fams@)[j] == icons@.take(k + 1).map_values(
                |i: MaterializedIcon| i.family@,
            )[j] by {
                if j < k {
                    assert(fams@[j] == f0[j]);
                    assert(strings_view(f0)[j] == icons@.take(k as int).map_values(|i: MaterializedIcon| i.family@)[j]);
                }
            }
            assert(strings_view(fams@) =~= icons@.take(k + 1).map_values(|i: MaterializedIcon| i.family@));
            assert(strings_view(vars@) =~= variants_of(icons@.take(k + 1)));
        }
        k += 1;
    }
    proof {
        assert(icons@.take(icons@.len() as int) =~= icons@);
    }
    (fams, vars)
}

fn registry_head_exec(manifest_path: &str, icons: &Vec<MaterializedIcon>) -> (r: Vec<char>)
    ensures
        r@ == registry_head(manifest_path@, icons@),
{
    let (fams, vars) = names_of(icons);
    let families = sorted_names_exec(&fams);
    let variants = sorted_names_exec(&vars);
    let mut out: Vec<char> = Vec::new();
    push_str(&mut out, "// AUTO-GENERATED from ");
    push_str(&mut out, manifest_file_name_exec(manifest_path).as_str());
    push_str(
        &mut out,
        "\nuse guicons::{IconData, IconFamily, IconKey, IconRef, IconVariant};\n\npub mod keys {\n    use super::IconKey;\n\n",
    );
    push_all(&mut out, lines_exec(icons, Line::KeyConst, "\n").as_slice());
    push_str(&mut out, "\n}\n\npub mod families {\n    use super::IconFamily;\n\n");
    push_all(&mut out, name_lines(&families, true).as_slice());
    push_str(&mut out, "\n}\n\npub mod variants {\n    use super::IconVariant;\n\n");
    push_all(&mut out, name_lines(&variants, false).as_slice());
    push_str(&mut out, "\n}\n\n");
    out
}

fn registry_middle_exec(icons: &Vec<MaterializedIcon>) -> (r: Vec<char>)
    ensures
        r@ == registry_middle(icons@),
{
    let mut out: Vec<char> = Vec::new();
    push_str(&mut out, generate_builders(icons).as_str());
    push_str(&mut out, "\npub const ALL_KEYS: &[IconKey] = &[");
    push_all(&mut out, lines_exec(icons, Line::KeyRef, ", ").as_slice());
    push_str(&mut out, "];\n\npub fn name_for_key(key: IconKey) -> Option<&'static str> {\n    match key {\n");
    push_all(&mut out, lines_exec(icons, Line::Name, "\n").as_slice());
    push_str(&mut out, "\n        _ => None,\n    }\n}\n\npub fn key_from_name(name: &str) -> Option<IconKey> {\n    match name {\n");
    push_all(&mut out, lines_exec(icons, Line::FromName, "\n").as_slice());
    out
}

fn registry_tail_exec(icons: &Vec<MaterializedIcon>, slint_image_resolver: bool) -> (r: Vec<char>)
    ensures
        r@ == registry_tail(icons@, slint_image_resolver),
{
    let mut out: Vec<char> = Vec::new();
    push_str(
        &mut out,
        "\n        _ => None,\n    }\n}\n\npub fn key_from_family_variant(family: IconFamily, size: Option<u16>, variant: Option<IconVariant>) -> Option<IconKey> {\n    match (family, size, variant) {\n",
    );
    push_all(&mut out, lines_exec(icons, Line::FamilyVariant, "\n").as_slice());
    push_str(
        &mut out,
        "\n        _ => None,\n    }\n}\n\npub fn key_from_dynamic_family_variant(family: &str, size: Option<u16>, variant: Option<&str>) -> Option<IconKey> {\n    match (family, size, variant) {\n",
    );
    push_all(&mut out, lines_exec(icons, Line::Dynamic, "\n").as_slice());
    push_str(
        &mut out,
        "\n        _ => None,\n    }\n}\n\npub fn key_from_ref(icon: IconRef<'_>) -> Option<IconKey> {\n    match icon {\n        IconRef::Key(key) => Some(key),\n        IconRef::Name(name) => key_from_name(name),\n        IconRef::FamilyVariant { family, size, variant } => key_from_family_variant(family, size, variant),\n        IconRef::DynamicFamilyVariant { family, size, variant } => key_from_dynamic_family_variant(family, size, variant),\n    }\n}\n\npub fn data_for(key: IconKey) -> Option<IconData> {\n    match key {\n",
    );
    push_all(&mut out, lines_exec(icons, Line::Data, "\n").as_slice());
    push_str(
        &mut out,
        "\n        _ => None,\n    }\n}\n\npub fn resolve<'a>(icon: impl Into<IconRef<'a>>) -> Option<IconData> {\n    key_from_ref(icon.into()).and_then(data_for)\n}\n",
    );
    if slint_image_resolver {
        push_str(
            &mut out,
            "\npub fn resolve_image<'a>(icon: impl Into<IconRef<'a>>) -> slint::Image {\n    resolve(icon).and_then(guicons::slint::image_from_data).unwrap_or_default()\n}\n",
        );
    } else {
        proof {
            assert(out@ =~= out@ + Seq::<char>::empty());
        }
    }
    out
}

/// The full text of `icons.rs` for the built icons, with the
/// `resolve_image` helper for Slint when asked for.
pub fn generate_rust_icon_registry(manifest_path: &str, icons: &Vec<MaterializedIcon>, slint_image_resolver: bool) -> (r:
    String)
    ensures
        r@ == registry(manifest_path@, icons@, slint_image_resolver),
{
    let mut out = registry_head_exec(manifest_path, icons);
    push_all(&mut out, registry_middle_exec(icons).as_slice());
    push_all(&mut out, registry_tail_exec(icons, slint_image_resolver).as_slice());
    string_of(out.as_slice())
}

/// In `data_for`, the arm of an image icon that is not dynamic hands out
/// the image's bytes under the `IconData` constructor of the image's
/// kind: `Png` for a PNG, `Svg` for an SVG, right after the arm's
/// `keys::<KEY> => Some(IconData::` and followed by `(include_bytes!(`.
pub proof fn lemma_data_arm_names_kind(i: MaterializedIcon)
    ensures
        ({
            let head = "        keys::"@ + const_name(i.key@) + " => Some(IconData::"@;
            let arm = line_spec(Line::Data, i);
            let n = head.len() as int;
            match i.backend {
                MaterializedIconBackend::Image { kind, .. } => !i.dynamic ==> {
                    &&& arm.take(n) == head
                    &&& kind == ImageKind::Png ==> arm.subrange(n, n + 3) == "Png"@
                    &&& kind == ImageKind::Svg ==> arm.subrange(n, n + 3) == "Svg"@
                    &&& arm.subrange(n + 3, n + 19) == "(include_bytes!("@
                },
                _ => true,
            }
        }),
{
    reveal_strlit("Png");
    reveal_strlit("Svg");
    reveal_strlit("(include_bytes!(");
    reveal_strlit("(include_bytes!(\"");
    let head = "        keys::"@ + const_name(i.key@) + " => Some(IconData::"@;
    let arm = line_spec(Line::Data, i);
    let n = head.len() as int;
    match i.backend {
        MaterializedIconBackend::Image { path, kind, .. } => {
            if !i.dynamic {
                let c = match kind {
                    ImageKind::Svg => "Svg"@,
                    ImageKind::Png => "Png"@,
                };
                let rest = "(include_bytes!(\""@ + double_backslashes(path@) + "\"))),"@;
                assert(arm == head + c + rest);
                assert(arm.take(n) =~= head);
                assert(arm.subrange(n, n + 3) =~= c);
                assert(arm.subrange(n + 3, n + 19) =~= "(include_bytes!("@);
            }
        },
        _ => {},
    }
}

} // verus!

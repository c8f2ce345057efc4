//! What the `icon!`, `icon_data!` and `icon_key!` macros expand to: the
//! entry a selector names, the image, painted SVG or glyph it resolves to,
//! and the Rust expression emitted for the active GUI target, as source
//! text; plus the messages of the selectors that name nothing.

use crate::materialize::{image_kind, image_kind_exec, ImageKind};
use crate::model::{
    first_index, is_family_variant, opt_str_chars, uses_current_color, IconEntry, IconEntrySource, IconManifest,
    PaintColor, ThemePaint,
};
use crate::naming::{const_name, rust_const_name};
use crate::selector::{opt_view, IconSelector};
use crate::registry::{debug_char, debug_char_exec};
use crate::text::{decimal, decimal_exec, join, join_exec, push_all, push_str, string_of, chars_of};
use vstd::prelude::*;

verus! {

/// The native type `icon!` emits, by the active GUI feature; plain
/// `IconData` without one.
#[derive(Clone, Copy, Debug, PartialEq, Eq)]
pub enum Target {
    Data,
    Slint,
    Iced,
    WindowsReactor,
    Egui,
}

/// What an entry's source resolves to, before it is wrapped for a target.
/// `color` is the source text of a caller's `color = ...` expression.
#[derive(Debug)]
pub enum ResolvedSource {
    Image { path: String, kind: ImageKind },
    Painted { path: String, colors: ThemePaint, color: Option<String> },
    Glyph { font_family: String, codepoint: char },
}

/// `format!("{s:?}")` for a string: std's `Debug` form, a Rust string
/// literal with the same value, a function of the string alone.
pub uninterp spec fn debug_str(s: Seq<char>) -> Seq<char>;

/// `format!("{s:?}")` for a string.
#[verifier::external_body]
fn debug_str_exec(s: &str) -> (r: String)
    ensures
        r@ == debug_str(s@),
{
    format!("{s:?}")
}

pub open spec fn kind_text(k: ImageKind) -> Seq<char> {
    match k {
        ImageKind::Svg => "Svg"@,
        ImageKind::Png => "Png"@,
    }
}

/// `guicons::Color::rgb(r, g, b)` for a color.
pub open spec fn rgb_text(c: PaintColor) -> Seq<char> {
    "guicons::Color::rgb("@ + decimal(c.r as nat) + "u8, "@ + decimal(c.g as nat) + "u8, "@ + decimal(c.b as nat)
        + "u8)"@
}

/// The caller's color, as an `Option<guicons::Color>` expression.
pub open spec fn color_text(color: Option<String>) -> Seq<char> {
    match color {
        Some(e) => "::core::option::Option::Some(guicons::Color::from("@ + e@ + "))"@,
        None => "::core::option::Option::None"@,
    }
}

/// The `IconData` expression for a resolved source.
pub open spec fn data_text(r: ResolvedSource) -> Seq<char> {
    match r {
        ResolvedSource::Image { path, kind } => "guicons::IconData::"@ + kind_text(kind) + "(include_bytes!("@
            + debug_str(path@) + "))"@,
        ResolvedSource::Painted { path, colors, color } => "guicons::IconData::PaintedSvg { template: include_bytes!("@
            + debug_str(path@) + "), colors: guicons::ThemeColors { light: "@ + rgb_text(colors.light)
            + ", dark: "@ + rgb_text(colors.dark) + " }, color: "@ + color_text(color) + " }"@,
        ResolvedSource::Glyph { font_family, codepoint } => "guicons::IconData::Glyph { codepoint: "@ + debug_char(
            codepoint,
        ) + ", font_family: "@ + debug_str(font_family@) + " }"@,
    }
}

pub open spec fn decoded(helper: Seq<char>, data: Seq<char>) -> Seq<char> {
    helper + "("@ + data + ").expect(\"guicons: cached icon asset failed to decode\")"@
}

pub open spec fn glyph_call(helper: Seq<char>, data: Seq<char>) -> Seq<char> {
    helper + "("@ + data + ").expect(\"guicons: icon entry is not a glyph\")"@
}

/// The expression emitted for a resolved source and a target: the
/// `IconData` itself, or a call of the target's conversion helper on it
/// (a direct builder call for an unpainted image on `windows-reactor`).
pub open spec fn emitted(r: ResolvedSource, t: Target) -> Seq<char> {
    let data = data_text(r);
    match t {
        Target::Data => data,
        Target::Slint => match r {
            ResolvedSource::Glyph { .. } => glyph_call("guicons::slint::glyph_from_data"@, data),
            _ => decoded("guicons::slint::image_from_data"@, data),
        },
        Target::Iced => match r {
            ResolvedSource::Image { kind: ImageKind::Png, .. } => decoded("guicons::iced::image_handle_from_data"@, data),
            ResolvedSource::Glyph { .. } => glyph_call("guicons::iced::glyph_from_data"@, data),
            _ => decoded("guicons::iced::svg_handle_from_data"@, data),
        },
        Target::WindowsReactor => match r {
            ResolvedSource::Image { path, .. } => "guicons::windows_reactor::icon_builder("@ + debug_str(path@)
                + ")"@,
            ResolvedSource::Painted { .. } => "guicons::windows_reactor::painted_icon_builder("@ + data + ")"@,
            ResolvedSource::Glyph { codepoint, .. } => "guicons::windows_reactor::glyph_icon("@ + debug_char(
                codepoint,
            ) + ")"@,
        },
        Target::Egui => match r {
            ResolvedSource::Glyph { .. } => glyph_call("guicons::egui::glyph_from_data"@, data),
            _ => decoded("guicons::egui::image_source_from_data"@, data),
        },
    }
}

fn rgb_exec(c: PaintColor) -> (r: Vec<char>)
    ensures
        r@ == rgb_text(c),
{
    let mut out: Vec<char> = Vec::new();
    push_str(&mut out, "guicons::Color::rgb(");
    push_all(&mut out, decimal_exec(c.r as u64).as_slice());
    push_str(&mut out, "u8, ");
    push_all(&mut out, decimal_exec(c.g as u64).as_slice());
    push_str(&mut out, "u8, ");
    push_all(&mut out, decimal_exec(c.b as u64).as_slice());
    push_str(&mut out, "u8)");
    proof {
        assert(out@ =~= rgb_text(c));
    }
    out
}

fn data_exec(r: &ResolvedSource) -> (out: Vec<char>)
    ensures
        out@ == data_text(*r),
{
    let mut out: Vec<char> = Vec::new();
    match r {
        ResolvedSource::Image { path, kind } => {
            push_str(&mut out, "guicons::IconData::");
            match kind {
                ImageKind::Svg => push_str(&mut out, "Svg"),
                ImageKind::Png => push_str(&mut out, "Png"),
            }
            push_str(&mut out, "(include_bytes!(");
            push_str(&mut out, debug_str_exec(path.as_str()).as_str());
            push_str(&mut out, "))");
        },
        ResolvedSource::Painted { path, colors, color } => {
            push_str(&mut out, "guicons::IconData::PaintedSvg { template: include_bytes!(");
            push_str(&mut out, debug_str_exec(path.as_str()).as_str());
            push_str(&mut out, "), colors: guicons::ThemeColors { light: ");
            push_all(&mut out, rgb_exec(colors.light).as_slice());
            push_str(&mut out, ", dark: ");
            push_all(&mut out, rgb_exec(colors.dark).as_slice());
            push_str(&mut out, " }, color: ");
            match color {
                Some(e) => {
                    push_str(&mut out, "::core::option::Option::Some(guicons::Color::from(");
                    push_str(&mut out, e.as_str());
                    push_str(&mut out, "))");
                },
                None => push_str(&mut out, "::core::option::Option::None"),
            }
            push_str(&mut out, " }");
        },
        ResolvedSource::Glyph { font_family, codepoint } => {
            push_str(&mut out, "guicons::IconData::Glyph { codepoint: ");
            push_str(&mut out, debug_char_exec(*codepoint).as_str());
            push_str(&mut out, ", font_family: ");
            push_str(&mut out, debug_str_exec(font_family.as_str()).as_str());
            push_str(&mut out, " }");
        },
    }
    proof {
        assert(out@ =~= data_text(*r));
    }
    out
}

fn wrap(helper: &str, data: &Vec<char>, glyph: bool) -> (r: Vec<char>)
    ensures
        r@ == if glyph {
            glyph_call(helper@, data@)
        } else {
            decoded(helper@, data@)
        },
{
    let mut out: Vec<char> = Vec::new();
    push_str(&mut out, helper);
    push_str(&mut out, "(");
    push_all(&mut out, data.as_slice());
    if glyph {
        push_str(&mut out, ").expect(\"guicons: icon entry is not a glyph\")");
    } else {
        push_str(&mut out, ").expect(\"guicons: cached icon asset failed to decode\")");
    }
    out
}

/// The expression `icon!`/`icon_data!` expands to for a resolved source
/// and the active target, as Rust source text.
pub fn emit_for_target(resolved: &ResolvedSource, target: Target) -> (r: String)
    ensures
        r@ == emitted(*resolved, target),
{
    let data = data_exec(resolved);
    let is_glyph = match resolved {
        ResolvedSource::Glyph { .. } => true,
        _ => false,
    };
    let out = match target {
        Target::Data => data,
        Target::Slint => if is_glyph {
            wrap("guicons::slint::glyph_from_data", &data, true)
        } else {
            wrap("guicons::slint::image_from_data", &data, false)
        },
        Target::Iced => match resolved {
            ResolvedSource::Image { kind: ImageKind::Png, .. } => wrap("guicons::iced::image_handle_from_data", &data, false),
            ResolvedSource::Glyph { .. } => wrap("guicons::iced::glyph_from_data", &data, true),
            _ => wrap("guicons::iced::svg_handle_from_data", &data, false),
        },
        Target::WindowsReactor => {
            let mut out: Vec<char> = Vec::new();
            match resolved {
                ResolvedSource::Image { path, .. } => {
                    push_str(&mut out, "guicons::windows_reactor::icon_builder(");
                    push_str(&mut out, debug_str_exec(path.as_str()).as_str());
                },
                ResolvedSource::Painted { .. } => {
                    push_str(&mut out, "guicons::windows_reactor::painted_icon_builder(");
                    push_all(&mut out, data.as_slice());
                },
                ResolvedSource::Glyph { codepoint, .. } => {
                    push_str(&mut out, "guicons::windows_reactor::glyph_icon(");
                    push_str(&mut out, debug_char_exec(*codepoint).as_str());
                },
            }
            push_str(&mut out, ")");
            out
        },
        Target::Egui => if is_glyph {
            wrap("guicons::egui::glyph_from_data", &data, true)
        } else {
            wrap("guicons::egui::image_source_from_data", &data, false)
        },
    };
    proof {
        assert(out@ =~= emitted(*resolved, target));
    }
    string_of(out.as_slice())
}

/// How a selector is shown in a message: `family`, then `/size` and
/// `/variant` when it has them.
pub open spec fn selector_text(family: Seq<char>, size: Option<u16>, variant: Option<Seq<char>>) -> Seq<char> {
    family + match size {
        Some(n) => seq!['/'] + decimal(n as nat),
        None => Seq::empty(),
    } + match variant {
        Some(v) => seq!['/'] + v,
        None => Seq::empty(),
    }
}

/// The variants the manifest has for `family` at `size`, in entry order.
pub open spec fn known_variants(es: Seq<IconEntry>, family: Seq<char>, size: Option<u16>) -> Seq<Seq<char>>
    decreases es.len(),
{
    if es.len() == 0 {
        seq![]
    } else {
        let rest = known_variants(es.drop_last(), family, size);
        let e = es.last();
        if e.family@ == family && e.size == size {
            match e.variant {
                Some(v) => rest.push(v@),
                None => rest,
            }
        } else {
            rest
        }
    }
}

/// The error of a selector that names no entry, listing the variants the
/// family has at that size when it has some.
pub open spec fn unknown_icon_text(
    m: IconManifest,
    family: Seq<char>,
    size: Option<u16>,
    variant: Option<Seq<char>>,
) -> Seq<char> {
    let head = "unknown guicons icon `"@ + selector_text(family, size, variant) + "`"@;
    let known = known_variants(m.entries@, family, size);
    if known.len() == 0 {
        head
    } else {
        head + "; known variants for `"@ + family + "`"@ + match size {
            Some(n) => seq!['/'] + decimal(n as nat),
            None => Seq::empty(),
        } + ": "@ + join(known, ", "@)
    }
}

/// The error of a selector that names no entry of `manifest`.
pub fn unknown_icon_message(manifest: &IconManifest, family: &str, size: Option<u16>, variant: Option<&str>) -> (r: String)
    ensures
        r@ == unknown_icon_text(*manifest, family@, size, opt_str_chars(variant)),
{
    let mut out: Vec<char> = Vec::new();
    push_str(&mut out, "unknown guicons icon `");
    push_str(&mut out, family);
    if let Some(n) = size {
        out.push('/');
        push_all(&mut out, decimal_exec(n as u64).as_slice());
    }
    if let Some(v) = variant {
        out.push('/');
        push_str(&mut out, v);
    }
    push_str(&mut out, "`");
    proof {
        assert(out@ =~= "unknown guicons icon `"@ + selector_text(family@, size, opt_str_chars(variant)) + "`"@);
    }
    let wanted = family.to_owned();
    let mut known: Vec<Vec<char>> = Vec::new();
    let mut i: usize = 0;
    while i < manifest.entries.len()
        invariant
            wanted@ == family@,
            i <= manifest.entries@.len(),
            known@.map_values(|p: Vec<char>| p@) == known_variants(manifest.entries@.take(i as int), family@, size),
        decreases manifest.entries@.len() - i,
    {
        let e = &manifest.entries[i];
        proof {
            assert(manifest.entries@.take(i + 1).drop_last() =~= manifest.entries@.take(i as int));
            assert(manifest.entries@.take(i + 1).last() == manifest.entries@[i as int]);
        }
        if e.family == wanted && e.size == size {
            if let Some(v) = &e.variant {
                let ghost before = known@.map_values(|p: Vec<char>| p@);
                let item = chars_of(v.as_str());
                known.push(item);
                proof {
                    assert(known@.map_values(|p: Vec<char>| p@) =~= before.push(v@));
                }
            }
        }
        i += 1;
    }
    proof {
        assert(manifest.entries@.take(manifest.entries@.len() as int) =~= manifest.entries@);
    }
    if known.len() > 0 {
        let ghost head = out@;
        push_str(&mut out, "; known variants for `");
        push_str(&mut out, family);
        push_str(&mut out, "`");
        if let Some(n) = size {
            out.push('/');
            push_all(&mut out, decimal_exec(n as u64).as_slice());
        }
        push_str(&mut out, ": ");
        let sep = chars_of(", ");
        push_all(&mut out, join_exec(&known, sep.as_slice()).as_slice());
        proof {
            assert(out@ =~= unknown_icon_text(*manifest, family@, size, opt_str_chars(variant)));
        }
    }
    string_of(out.as_slice())
}

/// Whether `r` is what the source of `entry` resolves to: a file as is,
/// an iconify or URL icon at its place in the cache (`cache_dir`), a glyph
/// by its spec.
pub open spec fn resolves(entry: IconEntry, cache_dir: Seq<char>, r: Result<ResolvedSource, String>) -> bool {
        match entry.source {
            IconEntrySource::File(p) => r matches Ok(ResolvedSource::Image { path, kind }) && path@ == p@ && kind
                == image_kind(p@),
            IconEntrySource::Iconify(id) => r matches Ok(ResolvedSource::Image { path, kind }) && kind
                == ImageKind::Svg && path@ == crate::paths::join_path(
                crate::paths::join_path(cache_dir, crate::net::split_id(id@).0),
                crate::net::split_id(id@).1 + ".svg"@,
            ),
            IconEntrySource::Url(u) => r matches Ok(ResolvedSource::Image { path, kind }) && kind == ImageKind::Svg
                && path@ == crate::paths::join_path(
                crate::paths::join_path(cache_dir, "url"@),
                crate::net::hex_string(crate::net::sha256_digest(vstd::utf8::encode_utf8(u@))) + ".svg"@,
            ),
            IconEntrySource::Glyph(g) => match crate::glyph::glyph_parts(g@) {
                Some((family, c)) => r matches Ok(ResolvedSource::Glyph { font_family, codepoint }) && font_family@
                    == family && codepoint == c,
                None => r matches Err(m) && m@ == "icon `"@ + entry.key@ + "`: "@ + crate::glyph::glyph_error(g@),
            },
        }
}

/// What an entry's source resolves to, as `resolves` states.
pub fn resolve_source(entry: &IconEntry, cache_dir: &str) -> (r: Result<ResolvedSource, String>)
    requires
        entry.source matches IconEntrySource::Iconify(id) ==> crate::text::find_char(id@, ':') is Some,
    ensures
        resolves(*entry, cache_dir@, r),
{
    match &entry.source {
        IconEntrySource::File(p) => Ok(ResolvedSource::Image { path: p.clone(), kind: image_kind_exec(p.as_str()) }),
        IconEntrySource::Iconify(id) => Ok(
            ResolvedSource::Image { path: crate::net::iconify_cache_path(cache_dir, id.as_str()), kind: ImageKind::Svg },
        ),
        IconEntrySource::Url(u) => Ok(
            ResolvedSource::Image { path: crate::net::url_cache_path(cache_dir, u.as_str()), kind: ImageKind::Svg },
        ),
        IconEntrySource::Glyph(g) => match crate::glyph::parse_glyph_spec(g.as_str(), entry.key.as_str()) {
            Ok((font_family, codepoint)) => Ok(ResolvedSource::Glyph { font_family, codepoint }),
            Err(m) => Err(m),
        },
    }
}

/// `paint` applied to a resolved source: an SVG declared with `paint`
/// becomes a painted SVG in the declared colors (or the caller's `color`),
/// unless its text (`svg`, when it could be read) has no `currentColor`;
/// a caller's color on an icon without `paint` is refused.
pub open spec fn painted(
    r: ResolvedSource,
    paint: Option<ThemePaint>,
    color: Option<String>,
    name: Seq<char>,
    svg: Option<Seq<u8>>,
) -> Result<ResolvedSource, Seq<char>> {
    match paint {
        None => if color is Some {
            Err("icon `"@ + name + "` isn't declared with `paint`, there is nothing to recolor"@)
        } else {
            Ok(r)
        },
        Some(colors) => match r {
            ResolvedSource::Image { path, .. } => if svg matches Some(bytes) && !uses_current_color(bytes) {
                Err(
                    "icon `"@ + name + "` is declared with `paint`, but "@ + path@
                        + " has no `currentColor` to paint; declare `paint = \"none\"` for it"@,
                )
            } else {
                Ok(ResolvedSource::Painted { path, colors, color })
            },
            _ => Ok(r),
        },
    }
}

pub open spec fn painted_view(r: Result<ResolvedSource, String>) -> Result<ResolvedSource, Seq<char>> {
    match r {
        Ok(x) => Ok(x),
        Err(m) => Err(m@),
    }
}

/// Applies an entry's `paint` (and a caller's `color = ...`) to what its
/// source resolved to; `svg` is the image's text when it could be read.
pub fn apply_paint(
    resolved: ResolvedSource,
    paint: Option<ThemePaint>,
    color: Option<String>,
    name: &str,
    svg: Option<Vec<u8>>,
) -> (r: Result<ResolvedSource, String>)
    ensures
        painted_view(r) == painted(resolved, paint, color, name@, match svg {
            Some(b) => Some(b@),
            None => None,
        }),
{
    match paint {
        None => {
            if color.is_some() {
                let mut m: Vec<char> = Vec::new();
                push_str(&mut m, "icon `");
                push_str(&mut m, name);
                push_str(&mut m, "` isn't declared with `paint`, there is nothing to recolor");
                return Err(string_of(m.as_slice()));
            }
            Ok(resolved)
        },
        Some(colors) => match resolved {
            ResolvedSource::Image { path, kind } => {
                if let Some(bytes) = &svg {
                    if !crate::model::svg_uses_current_color(bytes.as_slice()) {
                        let mut m: Vec<char> = Vec::new();
                        push_str(&mut m, "icon `");
                        push_str(&mut m, name);
                        push_str(&mut m, "` is declared with `paint`, but ");
                        push_str(&mut m, path.as_str());
                        push_str(&mut m, " has no `currentColor` to paint; declare `paint = \"none\"` for it");
                        return Err(string_of(m.as_slice()));
                    }
                }
                Ok(ResolvedSource::Painted { path, colors, color })
            },
            other => Ok(other),
        },
    }
}

/// What a resolved, painted source expands to for `target`, or the error
/// that stops it.
pub open spec fn expansion(
    res: Result<ResolvedSource, String>,
    entry: IconEntry,
    color: Option<String>,
    target: Target,
    svg: Option<Seq<u8>>,
) -> Result<Seq<char>, Seq<char>> {
    match res {
        Err(m) => Err(m@),
        Ok(x) => match painted(x, entry.paint, color, entry.key@, svg) {
            Err(m) => Err(m),
            Ok(p) => Ok(emitted(p, target)),
        },
    }
}

pub open spec fn text_result(r: Result<String, String>) -> Result<Seq<char>, Seq<char>> {
    match r {
        Ok(t) => Ok(t@),
        Err(m) => Err(m@),
    }
}

/// What `icon!`/`icon_data!` expands to for a family selector: the named
/// entry's source resolved (iconify and URL icons in `cache_dir`), its
/// `paint` and the caller's `color` applied, wrapped for `target`; or the
/// unknown-icon or paint error. `svg` is the text of the image the entry
/// resolves to, when it could be read.
pub fn expand_family_variant_data(
    manifest: &IconManifest,
    family: &str,
    size: Option<u16>,
    variant: Option<&str>,
    color: Option<String>,
    target: Target,
    cache_dir: &str,
    svg: Option<Vec<u8>>,
) -> (r: Result<String, String>)
    requires
        first_index(manifest.entries@, is_family_variant(family@, size, opt_str_chars(variant))) matches Some(i)
            ==> (manifest.entries@[i].source matches IconEntrySource::Iconify(id) ==> crate::text::find_char(id@, ':') is Some),
    ensures
        match first_index(manifest.entries@, is_family_variant(family@, size, opt_str_chars(variant))) {
            Some(i) => exists|res: Result<ResolvedSource, String>|
                #[trigger] resolves(manifest.entries@[i], cache_dir@, res) && text_result(r) == expansion(
                    res,
                    manifest.entries@[i],
                    color,
                    target,
                    match svg {
                        Some(b) => Some(b@),
                        None => None,
                    },
                ),
            None => r matches Err(m) && m@ == unknown_icon_text(*manifest, family@, size, opt_str_chars(variant)),
        },
{
    let entry = match manifest.entry_for_family_variant(family, size, variant) {
        Some(entry) => entry,
        None => return Err(unknown_icon_message(manifest, family, size, variant)),
    };
    let res = resolve_source(entry, cache_dir);
    let ghost res_ghost = res;
    let resolved = match res {
        Ok(x) => x,
        Err(m) => {
            proof {
                assert(resolves(*entry, cache_dir@, res_ghost));
            }
            return Err(m);
        },
    };
    let r = match apply_paint(resolved, entry.paint, color, entry.key.as_str(), svg) {
        Ok(p) => Ok(emit_for_target(&p, target)),
        Err(m) => Err(m),
    };
    proof {
        assert(resolves(*entry, cache_dir@, res_ghost));
    }
    r
}

/// What `icon!`/`icon_data!` expands to for a raw iconify id: the icon in
/// the cache (`cache_dir`), painted as the manifest paints that id, wrapped
/// for `target`; or the paint error. `svg` is the cached icon's text, when
/// it could be read.
pub fn expand_iconify_literal(
    manifest: &IconManifest,
    id: &str,
    color: Option<String>,
    target: Target,
    cache_dir: &str,
    svg: Option<Vec<u8>>,
) -> (r: Result<String, String>)
    requires
        crate::text::find_char(id@, ':') is Some,
    ensures
        exists|path: String|
            (#[trigger] path@) == crate::paths::join_path(
                crate::paths::join_path(cache_dir@, crate::net::split_id(id@).0),
                crate::net::split_id(id@).1 + ".svg"@,
            ) && text_result(r) == match painted(
                ResolvedSource::Image { path, kind: ImageKind::Svg },
                crate::model::iconify_paint(*manifest, id@),
                color,
                id@,
                match svg {
                    Some(b) => Some(b@),
                    None => None,
                },
            ) {
                Err(m) => Err(m),
                Ok(p) => Ok(emitted(p, target)),
            },
{
    let path = crate::net::iconify_cache_path(cache_dir, id);
    let ghost path_ghost = path;
    let resolved = ResolvedSource::Image { path, kind: ImageKind::Svg };
    let r = match apply_paint(resolved, manifest.paint_for_iconify(id), color, id, svg) {
        Ok(p) => Ok(emit_for_target(&p, target)),
        Err(m) => Err(m),
    };
    proof {
        assert(path_ghost@ == crate::paths::join_path(
            crate::paths::join_path(cache_dir@, crate::net::split_id(id@).0),
            crate::net::split_id(id@).1 + ".svg"@,
        ));
    }
    r
}

/// What `icon_key!` expands to: the named entry's key constant in the
/// generated `module`, or the unknown-icon error.
pub fn expand_family_variant_key(
    manifest: &IconManifest,
    family: &str,
    size: Option<u16>,
    variant: Option<&str>,
    module: &str,
) -> (r: Result<String, String>)
    ensures
        match first_index(manifest.entries@, is_family_variant(family@, size, opt_str_chars(variant))) {
            Some(i) => r matches Ok(t) && t@ == module@ + "::keys::"@ + const_name(manifest.entries@[i].key@),
            None => r matches Err(m) && m@ == unknown_icon_text(*manifest, family@, size, opt_str_chars(variant)),
        },
{
    match manifest.entry_for_family_variant(family, size, variant) {
        Some(entry) => {
            let mut out: Vec<char> = Vec::new();
            push_str(&mut out, module);
            push_str(&mut out, "::keys::");
            push_str(&mut out, rust_const_name(entry.key.as_str()).as_str());
            Ok(string_of(out.as_slice()))
        },
        None => Err(unknown_icon_message(manifest, family, size, variant)),
    }
}

/// The error `icon_key!` gives for a raw iconify id.
pub open spec fn iconify_key_error(id: Seq<char>) -> Seq<char> {
    "`icon_key!` doesn't support iconify literals - there's no manifest key for a raw iconify id `"@ + id
        + "`, use `icon!` instead"@
}

/// What `icon_key!` expands to for `selector`: a key has no color, and a
/// raw iconify id has no key; a family selector names its entry's key
/// constant in `module`.
pub fn expand_icon_key(
    manifest: &IconManifest,
    selector: &IconSelector,
    has_color: bool,
    module: &str,
) -> (r: Result<String, String>)
    ensures
        has_color ==> (r matches Err(m) && m@ == "`icon_key!` names an icon, it has no color"@),
        !has_color ==> match selector {
            IconSelector::Iconify(id) => r matches Err(m) && m@ == iconify_key_error(id@),
            IconSelector::FamilyVariant { family, size, variant } => match first_index(
                manifest.entries@,
                is_family_variant(family@, *size, opt_view(*variant)),
            ) {
                Some(i) => r matches Ok(t) && t@ == module@ + "::keys::"@ + const_name(manifest.entries@[i].key@),
                None => r matches Err(m) && m@ == unknown_icon_text(*manifest, family@, *size, opt_view(*variant)),
            },
        },
{
    if has_color {
        return Err("`icon_key!` names an icon, it has no color".to_string());
    }
    match selector {
        IconSelector::FamilyVariant { family, size, variant } => {
            let v: Option<&str> = match variant {
                Some(v) => Some(v.as_str()),
                None => None,
            };
            proof {
                assert(opt_str_chars(v) == opt_view(*variant));
            }
            expand_family_variant_key(manifest, family.as_str(), *size, v, module)
        },
        IconSelector::Iconify(id) => {
            let mut m: Vec<char> = Vec::new();
            push_str(&mut m, "`icon_key!` doesn't support iconify literals - there's no manifest key for a raw iconify id `");
            push_str(&mut m, id.as_str());
            push_str(&mut m, "`, use `icon!` instead");
            Err(string_of(m.as_slice()))
        },
    }
}

/// What `icon!`/`icon_data!` expands to for `selector`: a family selector
/// as `expand_family_variant_data` states, a raw iconify id as
/// `expand_iconify_literal` states.
pub fn expand_icon(
    manifest: &IconManifest,
    selector: &IconSelector,
    color: Option<String>,
    target: Target,
    cache_dir: &str,
    svg: Option<Vec<u8>>,
) -> (r: Result<String, String>)
    requires
        match selector {
            IconSelector::Iconify(id) => crate::text::find_char(id@, ':') is Some,
            IconSelector::FamilyVariant { family, size, variant } => first_index(
                manifest.entries@,
                is_family_variant(family@, *size, opt_view(*variant)),
            ) matches Some(i) ==> (manifest.entries@[i].source matches IconEntrySource::Iconify(id)
                ==> crate::text::find_char(id@, ':') is Some),
        },
    ensures
        match selector {
            IconSelector::FamilyVariant { family, size, variant } => match first_index(
                manifest.entries@,
                is_family_variant(family@, *size, opt_view(*variant)),
            ) {
                Some(i) => exists|res: Result<ResolvedSource, String>|
                    #[trigger] resolves(manifest.entries@[i], cache_dir@, res) && text_result(r) == expansion(
                        res,
                        manifest.entries@[i],
                        color,
                        target,
                        match svg {
                            Some(b) => Some(b@),
                            None => None,
                        },
                    ),
                None => r matches Err(m) && m@ == unknown_icon_text(*manifest, family@, *size, opt_view(*variant)),
            },
            IconSelector::Iconify(id) => exists|path: String|
                (#[trigger] path@) == crate::paths::join_path(
                    crate::paths::join_path(cache_dir@, crate::net::split_id(id@).0),
                    crate::net::split_id(id@).1 + ".svg"@,
                ) && text_result(r) == match painted(
                    ResolvedSource::Image { path, kind: ImageKind::Svg },
                    crate::model::iconify_paint(*manifest, id@),
                    color,
                    id@,
                    match svg {
                        Some(b) => Some(b@),
                        None => None,
                    },
                ) {
                    Err(m) => Err(m),
                    Ok(p) => Ok(emitted(p, target)),
                },
        },
{
    match selector {
        IconSelector::FamilyVariant { family, size, variant } => {
            let v: Option<&str> = match variant {
                Some(v) => Some(v.as_str()),
                None => None,
            };
            proof {
                assert(opt_str_chars(v) == opt_view(*variant));
            }
            expand_family_variant_data(manifest, family.as_str(), *size, v, color, target, cache_dir, svg)
        },
        IconSelector::Iconify(id) => expand_iconify_literal(manifest, id.as_str(), color, target, cache_dir, svg),
    }
}

/// For the iced target, the helper an image goes through names its kind:
/// an SVG image or a painted SVG is turned into an SVG handle, only a PNG
/// image into a raster image handle, and a glyph goes through the glyph
/// helper. The expansion starts with that helper's call and holds the
/// source's `IconData` as its argument.
pub proof fn lemma_iced_helper_by_kind(r: ResolvedSource)
    ensures
        ({
            let svg = "guicons::iced::svg_handle_from_data("@;
            let raster = "guicons::iced::image_handle_from_data("@;
            let e = emitted(r, Target::Iced);
            let tail = ").expect(\"guicons: cached icon asset failed to decode\")"@;
            &&& (r matches ResolvedSource::Image { kind: ImageKind::Png, .. }) ==> e.take(raster.len() as int) == raster
                && e.take(svg.len() as int) != svg
            &&& ((r matches ResolvedSource::Image { kind: ImageKind::Svg, .. }) || r is Painted) ==> e.take(
                svg.len() as int,
            ) == svg && e.take(raster.len() as int) != raster
            &&& !(r is Glyph) ==> e.subrange(e.len() - data_text(r).len() - tail.len(), e.len() - tail.len()) == data_text(r)
        }),
{
    reveal_strlit("guicons::iced::svg_handle_from_data(");
    reveal_strlit("guicons::iced::image_handle_from_data(");
    reveal_strlit("guicons::iced::svg_handle_from_data");
    reveal_strlit("guicons::iced::image_handle_from_data");
    reveal_strlit("(");
    reveal_strlit(").expect(\"guicons: cached icon asset failed to decode\")");
    let svg = "guicons::iced::svg_handle_from_data("@;
    let raster = "guicons::iced::image_handle_from_data("@;
    let e = emitted(r, Target::Iced);
    let d = data_text(r);
    let tail = ").expect(\"guicons: cached icon asset failed to decode\")"@;
    match r {
        ResolvedSource::Image { kind: ImageKind::Png, .. } => {
            assert(e == "guicons::iced::image_handle_from_data"@ + "("@ + d + tail);
            assert(e.take(raster.len() as int) =~= raster);
            assert(e[15] != svg[15]);
            assert(e.subrange(e.len() - d.len() - tail.len(), e.len() - tail.len()) =~= d);
        },
        ResolvedSource::Glyph { .. } => {},
        _ => {
            assert(e == "guicons::iced::svg_handle_from_data"@ + "("@ + d + tail);
            assert(e.take(svg.len() as int) =~= svg);
            assert(e[15] != raster[15]);
            assert(e.subrange(e.len() - d.len() - tail.len(), e.len() - tail.len()) =~= d);
        },
    }
}

/// For the Slint and egui targets, a glyph goes through the target's glyph
/// helper and every image (painted or not) through its image helper; on
/// `windows-reactor` an unpainted image is built from its path.
pub proof fn lemma_target_helpers(r: ResolvedSource)
    ensures
        ({
            let slint = emitted(r, Target::Slint);
            let egui = emitted(r, Target::Egui);
            let sg = "guicons::slint::glyph_from_data("@;
            let si = "guicons::slint::image_from_data("@;
            let eg = "guicons::egui::glyph_from_data("@;
            let ei = "guicons::egui::image_source_from_data("@;
            &&& r is Glyph ==> slint.take(sg.len() as int) == sg && egui.take(eg.len() as int) == eg
            &&& !(r is Glyph) ==> slint.take(si.len() as int) == si && egui.take(ei.len() as int) == ei
            &&& (r matches ResolvedSource::Image { path, .. }) ==> emitted(r, Target::WindowsReactor)
                == "guicons::windows_reactor::icon_builder("@ + debug_str(r->Image_path@) + ")"@
            &&& emitted(r, Target::Data) == data_text(r)
        }),
{
    let d = data_text(r);
    match r {
        ResolvedSource::Glyph { .. } => {
            assert(emitted(r, Target::Slint).take("guicons::slint::glyph_from_data("@.len() as int) =~= "guicons::slint::glyph_from_data("@) by {
                reveal_strlit("guicons::slint::glyph_from_data(");
                reveal_strlit("guicons::slint::glyph_from_data");
                reveal_strlit("(");
            }
            assert(emitted(r, Target::Egui).take("guicons::egui::glyph_from_data("@.len() as int) =~= "guicons::egui::glyph_from_data("@) by {
                reveal_strlit("guicons::egui::glyph_from_data(");
                reveal_strlit("guicons::egui::glyph_from_data");
                reveal_strlit("(");
            }
        },
        _ => {
            assert(emitted(r, Target::Slint).take("guicons::slint::image_from_data("@.len() as int) =~= "guicons::slint::image_from_data("@) by {
                reveal_strlit("guicons::slint::image_from_data(");
                reveal_strlit("guicons::slint::image_from_data");
                reveal_strlit("(");
            }
            assert(emitted(r, Target::Egui).take("guicons::egui::image_source_from_data("@.len() as int) =~= "guicons::egui::image_source_from_data("@) by {
                reveal_strlit("guicons::egui::image_source_from_data(");
                reveal_strlit("guicons::egui::image_source_from_data");
                reveal_strlit("(");
            }
        },
    }
}

} // verus!

//! What building the icons produces for each manifest entry: the image or
//! glyph each one becomes, and the files it is written to.

use crate::model::{
    color_hex_bytes, paint_svg, painted_from, svg_uses_current_color, uses_current_color, IconEntry, IconEntrySource, ThemePaint,
};
use crate::paths::join_path;
use crate::text::{chars_of, push_str, string_of};
use vstd::prelude::*;

verus! {

/// The kind of an image file.
#[derive(Clone, Copy, Debug, PartialEq, Eq, Structural)]
pub enum ImageKind {
    Svg,
    Png,
}

/// The unpainted SVG, kept so the color can change at runtime, and the
/// dark theme's copy.
#[derive(Debug)]
pub struct MaterializedPaint {
    pub template: String,
    pub dark_path: String,
    pub colors: ThemePaint,
}

/// What an icon becomes: an image file (drawn in the light theme's color
/// when painted), or a font glyph.
#[derive(Debug)]
pub enum MaterializedIconBackend {
    Image { path: String, kind: ImageKind, paint: Option<MaterializedPaint> },
    Glyph { font_family: String, codepoint: char },
}

/// One built icon.
#[derive(Debug)]
pub struct MaterializedIcon {
    pub key: String,
    pub family: String,
    pub variant: Option<String>,
    pub size: Option<u16>,
    pub dynamic: bool,
    pub backend: MaterializedIconBackend,
}

/// A key with `.` and `_` turned into `-`, for file names.
pub open spec fn output_stem(key: Seq<char>) -> Seq<char> {
    key.map_values(|c: char| if c == '.' || c == '_' { '-' } else { c })
}

/// A key with `.` and `_` turned into `-`, for file names.
pub fn output_stem_exec(key: &str) -> (r: String)
    ensures
        r@ == output_stem(key@),
{
    let s = chars_of(key);
    let mut out: Vec<char> = Vec::new();
    let mut i: usize = 0;
    while i < s.len()
        invariant
            s@ == key@,
            i <= s@.len(),
            out@ == output_stem(key@).take(i as int),
        decreases s@.len() - i,
    {
        let c = s[i];
        out.push(if c == '.' || c == '_' { '-' } else { c });
        proof {
            assert(output_stem(key@).take(i + 1) =~= output_stem(key@).take(i as int).push(output_stem(key@)[i as int]));
        }
        i += 1;
    }
    proof {
        assert(output_stem(key@).take(s@.len() as int) =~= output_stem(key@));
    }
    string_of(out.as_slice())
}

/// The last component of a `/`-separated path.
pub open spec fn file_name(p: Seq<char>) -> Seq<char> {
    match crate::load::last_slash(p) {
        Some(k) => p.skip(k + 1),
        None => p,
    }
}

/// The index of the last `.` in `s`.
pub open spec fn last_dot(s: Seq<char>) -> Option<int>
    decreases s.len(),
{
    if s.len() == 0 {
        None
    } else if s.last() == '.' {
        Some(s.len() - 1)
    } else {
        last_dot(s.drop_last())
    }
}

/// `Path::extension`: what follows the last `.` of the file name, unless
/// that `.` starts it (or there is none, or the name is `..`).
pub open spec fn extension(p: Seq<char>) -> Option<Seq<char>> {
    let name = file_name(p);
    if name == ".."@ {
        None
    } else {
        match last_dot(name) {
            Some(k) => if k == 0 {
                None
            } else {
                Some(name.skip(k + 1))
            },
            None => None,
        }
    }
}

/// `png` for a `.png` file, else `svg`.
pub open spec fn image_ext(p: Seq<char>) -> Seq<char> {
    if extension(p) == Some("png"@) {
        "png"@
    } else {
        "svg"@
    }
}

pub open spec fn image_kind(p: Seq<char>) -> ImageKind {
    if extension(p) == Some("png"@) {
        ImageKind::Png
    } else {
        ImageKind::Svg
    }
}

fn extension_is_png(p: &str) -> (r: bool)
    ensures
        r == (extension(p@) == Some("png"@)),
{
    let s = chars_of(p);
    let mut k = s.len();
    proof {
        assert(s@.take(k as int) =~= s@);
    }
    while k > 0 && s[k - 1] != '/'
        invariant
            s@ == p@,
            k <= s@.len(),
            crate::load::last_slash(s@) == crate::load::last_slash(s@.take(k as int)),
        decreases k,
    {
        proof {
            assert(s@.take(k as int).drop_last() =~= s@.take(k - 1));
        }
        k -= 1;
    }
    let name = crate::text::slice_vec(s.as_slice(), k, s.len());
    proof {
        if k == 0 {
            assert(s@.take(0) =~= Seq::<char>::empty());
            assert(name@ =~= p@);
        } else {
            assert(s@.take(k as int).last() == '/');
            assert(name@ =~= p@.skip(k as int));
        }
        assert(name@ == file_name(p@));
    }
    let dots = chars_of("..");
    if crate::text::chars_eq(name.as_slice(), dots.as_slice()) {
        return false;
    }
    let mut j = name.len();
    proof {
        assert(name@.take(j as int) =~= name@);
    }
    while j > 0 && name[j - 1] != '.'
        invariant
            j <= name@.len(),
            last_dot(name@) == last_dot(name@.take(j as int)),
        decreases j,
    {
        proof {
            assert(name@.take(j as int).drop_last() =~= name@.take(j - 1));
        }
        j -= 1;
    }
    if j <= 1 {
        proof {
            if j == 0 {
                assert(name@.take(0) =~= Seq::<char>::empty());
            } else {
                assert(name@.take(1).last() == '.');
            }
        }
        return false;
    }
    proof {
        assert(name@.take(j as int).last() == '.');
    }
    let ext = crate::text::slice_vec(name.as_slice(), j, name.len());
    let png = chars_of("png");
    proof {
        assert(ext@ =~= name@.skip(j as int));
    }
    crate::text::chars_eq(ext.as_slice(), png.as_slice())
}

/// `png` for a `.png` file, else `svg`.
pub fn image_ext_exec(p: &str) -> (r: &'static str)
    ensures
        r@ == image_ext(p@),
{
    if extension_is_png(p) {
        "png"
    } else {
        "svg"
    }
}

pub fn image_kind_exec(p: &str) -> (r: ImageKind)
    ensures
        r == image_kind(p@),
{
    if extension_is_png(p) {
        ImageKind::Png
    } else {
        ImageKind::Svg
    }
}

/// Where an entry's image is written under `icons_dir`: `<stem>.png` or
/// `<stem>.svg` for a file (by its extension), `<stem>.svg` for iconify
/// and URL sources; glyphs have no file.
pub open spec fn output_path(icons_dir: Seq<char>, key: Seq<char>, source: IconEntrySource) -> Option<Seq<char>> {
    match source {
        IconEntrySource::File(p) => Some(join_path(icons_dir, output_stem(key) + "."@ + image_ext(p@))),
        IconEntrySource::Glyph(_) => None,
        _ => Some(join_path(icons_dir, output_stem(key) + ".svg"@)),
    }
}

/// Where an entry's image is written under `icons_dir`, if it has one.
pub fn output_path_exec(icons_dir: &str, entry: &IconEntry) -> (r: Option<String>)
    ensures
        match r {
            Some(p) => output_path(icons_dir@, entry.key@, entry.source) == Some(p@),
            None => output_path(icons_dir@, entry.key@, entry.source) is None,
        },
{
    let stem = output_stem_exec(entry.key.as_str());
    let mut name: Vec<char> = Vec::new();
    push_str(&mut name, stem.as_str());
    match &entry.source {
        IconEntrySource::File(p) => {
            push_str(&mut name, ".");
            push_str(&mut name, image_ext_exec(p.as_str()));
        },
        IconEntrySource::Glyph(_) => {
            return None;
        },
        _ => {
            push_str(&mut name, ".svg");
        },
    }
    let name = string_of(name.as_slice());
    Some(crate::paths::join_path_exec(icons_dir, name.as_str()))
}

/// The two extra files a painted icon gets: `<stem>.template.svg` and
/// `<stem>.dark.svg` under `icons_dir`.
pub fn paint_paths(icons_dir: &str, key: &str) -> (r: (String, String))
    ensures
        r.0@ == join_path(icons_dir@, output_stem(key@) + ".template.svg"@),
        r.1@ == join_path(icons_dir@, output_stem(key@) + ".dark.svg"@),
{
    let stem = output_stem_exec(key);
    let mut t: Vec<char> = Vec::new();
    push_str(&mut t, stem.as_str());
    push_str(&mut t, ".template.svg");
    let mut d: Vec<char> = Vec::new();
    push_str(&mut d, stem.as_str());
    push_str(&mut d, ".dark.svg");
    let t = string_of(t.as_slice());
    let d = string_of(d.as_slice());
    (crate::paths::join_path_exec(icons_dir, t.as_str()), crate::paths::join_path_exec(icons_dir, d.as_str()))
}

/// The message for an icon declared with `paint` whose SVG has no
/// `currentColor` to paint.
pub fn unpaintable_message(key: &str, source: &str) -> (r: String)
    ensures
        r@ == "icon `"@ + key@ + "` is declared with `paint`, but "@ + source@
            + " has no `currentColor` to paint; declare `paint = \"none\"` for it"@,
{
    let mut m: Vec<char> = Vec::new();
    push_str(&mut m, "icon `");
    push_str(&mut m, key);
    push_str(&mut m, "` is declared with `paint`, but ");
    push_str(&mut m, source);
    push_str(&mut m, " has no `currentColor` to paint; declare `paint = \"none\"` for it");
    string_of(m.as_slice())
}

pub open spec fn writes_view(w: Seq<(String, Vec<u8>)>) -> Seq<(Seq<char>, Seq<u8>)> {
    w.map_values(|x: (String, Vec<u8>)| (x.0@, x.1@))
}

/// The files building an entry's image writes (path and bytes), with the
/// icon it becomes, read from the image's bytes at `source`: the bytes as
/// they are at the output path; or, for a painted entry, the bytes as the
/// template, painted in the light color at the output path and in the dark
/// color beside it. A painted SVG without `currentColor` has nothing to
/// paint and is refused with its message.
pub fn image_build(entry: &IconEntry, source: &str, icons_dir: &str, bytes: &Vec<u8>) -> (r: Result<
    (MaterializedIconBackend, Vec<(String, Vec<u8>)>),
    String,
>)
    requires
        output_path(icons_dir@, entry.key@, entry.source) is Some,
    ensures
        ({
            let out = output_path(icons_dir@, entry.key@, entry.source)->0;
            match entry.paint {
                None => r matches Ok((MaterializedIconBackend::Image { path, kind, paint: None }, w)) && path@ == out
                    && kind == image_kind(out) && writes_view(w@) == seq![(out, bytes@)],
                Some(c) => if !uses_current_color(bytes@) {
                    r matches Err(m) && m@ == "icon `"@ + entry.key@ + "` is declared with `paint`, but "@ + source@
                        + " has no `currentColor` to paint; declare `paint = \"none\"` for it"@
                } else {
                    r matches Ok((MaterializedIconBackend::Image { path, kind, paint: Some(mp) }, w)) && path@ == out
                        && kind == image_kind(out) && mp.colors == c
                        && mp.template@ == join_path(icons_dir@, output_stem(entry.key@) + ".template.svg"@)
                        && mp.dark_path@ == join_path(icons_dir@, output_stem(entry.key@) + ".dark.svg"@)
                        && writes_view(w@) == seq![
                        (mp.template@, bytes@),
                        (out, painted_from(bytes@, 0, color_hex_bytes(c.light))),
                        (mp.dark_path@, painted_from(bytes@, 0, color_hex_bytes(c.dark))),
                    ]
                },
            }
        }),
{
    let out = output_path_exec(icons_dir, entry).unwrap();
    let kind = image_kind_exec(out.as_str());
    let mut writes: Vec<(String, Vec<u8>)> = Vec::new();
    match entry.paint {
        None => {
            writes.push((out.clone(), bytes.clone()));
            proof {
                assert(writes_view(writes@) =~= seq![(out@, bytes@)]);
            }
            Ok((MaterializedIconBackend::Image { path: out, kind, paint: None }, writes))
        },
        Some(colors) => {
            if !svg_uses_current_color(bytes.as_slice()) {
                return Err(unpaintable_message(entry.key.as_str(), source));
            }
            let (template, dark_path) = paint_paths(icons_dir, entry.key.as_str());
            let light = paint_svg(bytes.as_slice(), colors.light);
            let dark = paint_svg(bytes.as_slice(), colors.dark);
            writes.push((template.clone(), bytes.clone()));
            writes.push((out.clone(), light));
            writes.push((dark_path.clone(), dark));
            proof {
                assert(writes_view(writes@) =~= seq![
                    (template@, bytes@),
                    (out@, painted_from(bytes@, 0, color_hex_bytes(colors.light))),
                    (dark_path@, painted_from(bytes@, 0, color_hex_bytes(colors.dark))),
                ]);
            }
            let paint = MaterializedPaint { template, dark_path, colors };
            Ok((MaterializedIconBackend::Image { path: out, kind, paint: Some(paint) }, writes))
        },
    }
}


} // verus!

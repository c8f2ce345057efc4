//! The generated Slint file (`icons.slint`): one component per icon and an
//! `Icon` component that picks one by name.

use crate::load::dir_of;
use crate::materialize::{MaterializedIcon, MaterializedIconBackend};
use crate::naming::{rust_variant_name, variant_name};
use crate::text::{chars_of, join, join_exec, push_all, push_str, string_of};
use vstd::prelude::*;

verus! {

/// What `pathdiff::diff_paths(target, base)` gives, as a string.
pub uninterp spec fn path_diff(target: Seq<char>, base: Seq<char>) -> Option<Seq<char>>;

/// `pathdiff::diff_paths(target, base)`, lossily as a string: `target`
/// relative to `base`, when there is such a path. Named, not restated.
#[verifier::external_body]
fn diff_paths_exec(target: &str, base: &str) -> (r: Option<String>)
    ensures
        match r {
            Some(p) => path_diff(target@, base@) == Some(p@),
            None => path_diff(target@, base@) is None,
        },
{
    pathdiff::diff_paths(target, base).map(|p| p.to_string_lossy().to_string())
}

/// `Path::parent` of a `/`-separated path without a trailing `/`.
pub open spec fn parent_of(p: Seq<char>) -> Option<Seq<char>> {
    if p.len() == 0 || p == seq!['/'] {
        None
    } else {
        Some(dir_of(p))
    }
}

/// `target` relative to the directory of `base_file` when pathdiff finds
/// such a path, else `target` itself.
pub open spec fn relative_or_absolute(base_file: Seq<char>, target: Seq<char>) -> Seq<char> {
    match parent_of(base_file) {
        Some(dir) => match path_diff(target, dir) {
            Some(rel) => rel,
            None => target,
        },
        None => target,
    }
}

/// `\`, `"`, newline, carriage return and tab escaped for a Slint string.
pub open spec fn escape_slint(s: Seq<char>) -> Seq<char>
    decreases s.len(),
{
    if s.len() == 0 {
        Seq::empty()
    } else {
        escape_slint(s.drop_last()) + if s.last() == '\\' {
            seq!['\\', '\\']
        } else if s.last() == '"' {
            seq!['\\', '"']
        } else if s.last() == '\n' {
            seq!['\\', 'n']
        } else if s.last() == '\r' {
            seq!['\\', 'r']
        } else if s.last() == '\t' {
            seq!['\\', 't']
        } else {
            seq![s.last()]
        }
    }
}

/// The Slint component of the icon `key`: `settings-filled` becomes
/// `SettingsFilledIcon`.
pub open spec fn component_name(key: Seq<char>) -> Seq<char> {
    variant_name(key) + "Icon"@
}

pub open spec fn component(out_file: Seq<char>, i: MaterializedIcon) -> Seq<char> {
    match i.backend {
        MaterializedIconBackend::Image { path, .. } => "export component "@ + component_name(i.key@)
            + " inherits Image {\n    source: @image-url(\""@ + escape_slint(
            crate::text::replace_char(relative_or_absolute(out_file, path@), '\\', '/'),
        ) + "\");\n}\n"@,
        MaterializedIconBackend::Glyph { font_family, codepoint } => "export component "@ + component_name(i.key@)
            + " inherits Text {\n    text: \""@ + escape_slint(seq![codepoint]) + "\";\n    font-family: \""@
            + escape_slint(font_family@)
            + "\";\n    horizontal-alignment: center;\n    vertical-alignment: center;\n    font-size: Math.min(self.width, self.height);\n    wrap: no-wrap;\n}\n"@,
    }
}

pub open spec fn case(i: MaterializedIcon) -> Seq<char> {
    match i.backend {
        MaterializedIconBackend::Image { .. } => "    if (root.name == \""@ + i.key@ + "\") : "@ + component_name(i.key@)
            + " {\n        width: parent.width;\n        height: parent.height;\n        image-fit: contain;\n        colorize: root.colorize;\n    }"@,
        MaterializedIconBackend::Glyph { .. } => "    if (root.name == \""@ + i.key@ + "\") : "@ + component_name(i.key@)
            + " {\n        width: parent.width;\n        height: parent.height;\n        color: root.colorize;\n    }"@,
    }
}

/// The whole `icons.slint`, for a file written at `out_file`.
pub open spec fn slint_file(out_file: Seq<char>, icons: Seq<MaterializedIcon>) -> Seq<char> {
    "// AUTO-GENERATED - do not edit manually\n"@ + join(
        icons.map_values(|i: MaterializedIcon| component(out_file, i)),
        "\n"@,
    )
        + "\nexport component Icon inherits Rectangle {\n    in property <string> name;\n    in property <color> colorize: transparent;\n\n"@
        + join(icons.map_values(|i: MaterializedIcon| case(i)), "\n"@) + "\n}\n"@
}

/// `\`, `"`, newline, carriage return and tab escaped for a Slint string.
pub fn escape_slint_string(s: &[char]) -> (r: Vec<char>)
    ensures
        r@ == escape_slint(s@),
{
    let mut out: Vec<char> = Vec::new();
    let mut i: usize = 0;
    proof {
        assert(s@.take(0) =~= Seq::<char>::empty());
    }
    while i < s.len()
        invariant
            i <= s@.len(),
            out@ == escape_slint(s@.take(i as int)),
        decreases s@.len() - i,
    {
        proof {
            assert(s@.take(i + 1).drop_last() =~= s@.take(i as int));
            assert(s@.take(i + 1).last() == s@[i as int]);
        }
        let c = s[i];
        let ghost before = out@;
        if c == '\\' {
            out.push('\\');
            out.push('\\');
        } else if c == '"' {
            out.push('\\');
            out.push('"');
        } else if c == '\n' {
            out.push('\\');
            out.push('n');
        } else if c == '\r' {
            out.push('\\');
            out.push('r');
        } else if c == '\t' {
            out.push('\\');
            out.push('t');
        } else {
            out.push(c);
        }
        proof {
            assert(out@ =~= escape_slint(s@.take(i + 1)));
        }
        i += 1;
    }
    proof {
        assert(s@.take(s@.len() as int) =~= s@);
    }
    out
}

/// The Slint component of the icon `key`.
pub fn slint_component_name(key: &str) -> (r: String)
    ensures
        r@ == component_name(key@),
{
    let mut m: Vec<char> = Vec::new();
    push_str(&mut m, rust_variant_name(key).as_str());
    push_str(&mut m, "Icon");
    string_of(m.as_slice())
}

/// `target` relative to the directory of `base_file` when pathdiff finds
/// such a path, else `target` itself.
pub fn relative_or_absolute_icon_path(base_file: &str, target: &str) -> (r: String)
    ensures
        r@ == relative_or_absolute(base_file@, target@),
{
    let b = chars_of(base_file);
    if b.len() == 0 || (b.len() == 1 && b[0] == '/') {
        proof {
            if b@.len() == 1 {
                assert(base_file@ =~= seq!['/']);
            }
        }
        return target.to_owned();
    }
    proof {
        if base_file@ == seq!['/'] {
            assert(b@.len() == 1 && b@[0] == '/');
        }
    }
    let dir = crate::load::dir_of_exec(base_file);
    match diff_paths_exec(target, dir.as_str()) {
        Some(rel) => rel,
        None => target.to_owned(),
    }
}

fn component_exec(out_file: &str, i: &MaterializedIcon) -> (r: Vec<char>)
    ensures
        r@ == component(out_file@, *i),
{
    let name = slint_component_name(i.key.as_str());
    let mut m: Vec<char> = Vec::new();
    push_str(&mut m, "export component ");
    push_str(&mut m, name.as_str());
    match &i.backend {
        MaterializedIconBackend::Image { path, .. } => {
            let rel = relative_or_absolute_icon_path(out_file, path.as_str());
            let rc = chars_of(rel.as_str());
            let slashed = crate::text::replace_char_exec(rc.as_slice(), '\\', '/');
            push_str(&mut m, " inherits Image {\n    source: @image-url(\"");
            push_all(&mut m, escape_slint_string(slashed.as_slice()).as_slice());
            push_str(&mut m, "\");\n}\n");
        },
        MaterializedIconBackend::Glyph { font_family, codepoint } => {
            let mut cp: Vec<char> = Vec::new();
            cp.push(*codepoint);
            let ff = chars_of(font_family.as_str());
            push_str(&mut m, " inherits Text {\n    text: \"");
            push_all(&mut m, escape_slint_string(cp.as_slice()).as_slice());
            push_str(&mut m, "\";\n    font-family: \"");
            push_all(&mut m, escape_slint_string(ff.as_slice()).as_slice());
            push_str(
                &mut m,
                "\";\n    horizontal-alignment: center;\n    vertical-alignment: center;\n    font-size: Math.min(self.width, self.height);\n    wrap: no-wrap;\n}\n",
            );
            proof {
                assert(cp@ =~= seq![*codepoint]);
            }
        },
    }
    m
}

fn case_exec(i: &MaterializedIcon) -> (r: Vec<char>)
    ensures
        r@ == case(*i),
{
    let name = slint_component_name(i.key.as_str());
    let mut m: Vec<char> = Vec::new();
    push_str(&mut m, "    if (root.name == \"");
    push_str(&mut m, i.key.as_str());
    push_str(&mut m, "\") : ");
    push_str(&mut m, name.as_str());
    match &i.backend {
        MaterializedIconBackend::Image { .. } => {
            push_str(
                &mut m,
                " {\n        width: parent.width;\n        height: parent.height;\n        image-fit: contain;\n        colorize: root.colorize;\n    }",
            );
        },
        MaterializedIconBackend::Glyph { .. } => {
            push_str(
                &mut m,
                " {\n        width: parent.width;\n        height: parent.height;\n        color: root.colorize;\n    }",
            );
        },
    }
    m
}

/// The full text of `icons.slint`, for a file written at `out_file`.
pub fn generate_slint_icon_global(out_file: &str, icons: &Vec<MaterializedIcon>) -> (r: String)
    ensures
        r@ == slint_file(out_file@, icons@),
{
    let mut comps: Vec<Vec<char>> = Vec::new();
    let mut cases: Vec<Vec<char>> = Vec::new();
    let mut k: usize = 0;
    while k < icons.len()
        invariant
            k <= icons@.len(),
            comps@.len() == k,
            cases@.len() == k,
            forall|j: int| 0 <= j < k ==> #[trigger] comps@[j]@ == component(out_file@, icons@[j]),
            forall|j: int| 0 <= j < k ==> #[trigger] cases@[j]@ == case(icons@[j]),
        decreases icons@.len() - k,
    {
        comps.push(component_exec(out_file, &icons[k]));
        cases.push(case_exec(&icons[k]));
        k += 1;
    }
    let nl = chars_of("\n");
    let components = join_exec(&comps, nl.as_slice());
    let case_text = join_exec(&cases, nl.as_slice());
    proof {
        assert(comps@.map_values(|p: Vec<char>| p@) =~= icons@.map_values(|i: MaterializedIcon| component(out_file@, i)));
        assert(cases@.map_values(|p: Vec<char>| p@) =~= icons@.map_values(|i: MaterializedIcon| case(i)));
    }
    let mut out: Vec<char> = Vec::new();
    push_str(&mut out, "// AUTO-GENERATED - do not edit manually\n");
    push_all(&mut out, components.as_slice());
    push_str(
        &mut out,
        "\nexport component Icon inherits Rectangle {\n    in property <string> name;\n    in property <color> colorize: transparent;\n\n",
    );
    push_all(&mut out, case_text.as_slice());
    push_str(&mut out, "\n}\n");
    string_of(out.as_slice())
}

} // verus!

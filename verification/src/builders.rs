//! The typed builder API of the generated Rust registry: one entry point
//! per family, narrowing by size and then variant down to an `IconKey`.

use crate::fields::strings_view;
use crate::materialize::MaterializedIcon;
use crate::naming::{const_name, fn_name, rust_const_name, rust_fn_name, rust_variant_name, variant_name};
use crate::order::{sorted_names, sorted_names_exec, sorted_sizes, sorted_sizes_exec};
use crate::text::{decimal, decimal_exec, join, join_exec, push_all, push_str, string_of};
use vstd::prelude::*;

verus! {

/// The pieces, one after the other.
pub open spec fn concat(parts: Seq<Seq<char>>) -> Seq<char>
    decreases parts.len(),
{
    if parts.len() == 0 {
        Seq::empty()
    } else {
        concat(parts.drop_last()) + parts.last()
    }
}

/// One builder method returning an icon's key: named after its variant,
/// or `default` without one.
pub open spec fn group_method(icon: MaterializedIcon) -> Seq<char> {
    let name = match icon.variant {
        Some(v) => fn_name(v@),
        None => "default"@,
    };
    "    pub const fn "@ + name + "(self) -> IconKey {\n        keys::"@ + const_name(icon.key@) + "\n    }\n"@
}

pub open spec fn group_methods(icons: Seq<MaterializedIcon>) -> Seq<char> {
    concat(icons.map_values(|i: MaterializedIcon| group_method(i)))
}

/// A family without sizes: a bare fn for a single variant-less icon, else
/// a builder with one method per icon.
pub open spec fn leaf(fname: Seq<char>, builder: Seq<char>, icons: Seq<MaterializedIcon>) -> Seq<char> {
    if icons.len() == 1 && icons[0].variant is None {
        "pub const fn "@ + fname + "() -> IconKey {\n    keys::"@ + const_name(icons[0].key@) + "\n}\n"@
    } else {
        "pub struct "@ + builder + ";\n\npub const fn "@ + fname + "() -> "@ + builder + " {\n    "@ + builder
            + "\n}\n\nimpl "@ + builder + " {\n"@ + group_methods(icons) + "}\n"@
    }
}

pub open spec fn sized_as(n: u16) -> spec_fn(MaterializedIcon) -> bool {
    |i: MaterializedIcon| i.size == Some(n)
}

pub open spec fn is_unsized() -> spec_fn(MaterializedIcon) -> bool {
    |i: MaterializedIcon| i.size is None
}

pub open spec fn icon_sizes(icons: Seq<MaterializedIcon>) -> Seq<u16>
    decreases icons.len(),
{
    if icons.len() == 0 {
        Seq::empty()
    } else {
        match icons.last().size {
            Some(n) => icon_sizes(icons.drop_last()).push(n),
            None => icon_sizes(icons.drop_last()),
        }
    }
}

pub open spec fn size_type(tname: Seq<char>, n: u16) -> Seq<char> {
    tname + decimal(n as nat) + "VariantBuilder"@
}

/// Whether a size group is one variant-less icon, reached directly.
pub open spec fn single_plain(group: Seq<MaterializedIcon>) -> bool {
    group.len() == 1 && group[0].variant is None
}

/// The method a family builder has for size `n`.
pub open spec fn size_method(tname: Seq<char>, n: u16, group: Seq<MaterializedIcon>) -> Seq<char> {
    if single_plain(group) {
        "    pub const fn size_"@ + decimal(n as nat) + "(self) -> IconKey {\n        keys::"@ + const_name(group[0].key@)
            + "\n    }\n"@
    } else {
        "    pub const fn size_"@ + decimal(n as nat) + "(self) -> "@ + size_type(tname, n) + " {\n        "@
            + size_type(tname, n) + "\n    }\n"@
    }
}

/// The variant builder type for size `n`, if it has one.
pub open spec fn size_nested(tname: Seq<char>, n: u16, group: Seq<MaterializedIcon>) -> Seq<char> {
    if single_plain(group) {
        Seq::empty()
    } else {
        "pub struct "@ + size_type(tname, n) + ";\n\nimpl "@ + size_type(tname, n) + " {\n"@ + group_methods(group)
            + "}\n\n"@
    }
}

/// The builder of one family.
pub open spec fn family_builder(family: Seq<char>, members: Seq<MaterializedIcon>) -> Seq<char> {
    let unsized_icons = members.filter(is_unsized());
    let sizes = sorted_sizes(icon_sizes(members));
    let fname = fn_name(family);
    let tname = variant_name(family);
    let builder = tname + "Builder"@;
    if sizes.len() == 0 {
        leaf(fname, builder, unsized_icons)
    } else {
        let methods = group_methods(unsized_icons) + concat(
            sizes.map_values(|n: u16| size_method(tname, n, members.filter(sized_as(n)))),
        );
        let nested = concat(sizes.map_values(|n: u16| size_nested(tname, n, members.filter(sized_as(n)))));
        nested + "pub struct "@ + builder + ";\n\npub const fn "@ + fname + "() -> "@ + builder + " {\n    "@ + builder
            + "\n}\n\nimpl "@ + builder + " {\n"@ + methods + "}\n"@
    }
}

pub open spec fn of_family(f: Seq<char>) -> spec_fn(MaterializedIcon) -> bool {
    |i: MaterializedIcon| i.family@ == f
}

pub open spec fn families_of(icons: Seq<MaterializedIcon>) -> Seq<Seq<char>> {
    icons.map_values(|i: MaterializedIcon| i.family@)
}

/// Every family's builder, families in name order, separated by blank lines.
pub open spec fn builders(icons: Seq<MaterializedIcon>) -> Seq<char> {
    join(
        sorted_names(families_of(icons)).map_values(|f: Seq<char>| family_builder(f, icons.filter(of_family(f)))),
        "\n"@,
    )
}

fn group_method_exec(icon: &MaterializedIcon) -> (r: Vec<char>)
    ensures
        r@ == group_method(*icon),
{
    let name = match &icon.variant {
        Some(v) => rust_fn_name(v.as_str()),
        None => "default".to_owned(),
    };
    let mut m: Vec<char> = Vec::new();
    push_str(&mut m, "    pub const fn ");
    push_str(&mut m, name.as_str());
    push_str(&mut m, "(self) -> IconKey {\n        keys::");
    push_str(&mut m, rust_const_name(icon.key.as_str()).as_str());
    push_str(&mut m, "\n    }\n");
    m
}

fn group_methods_exec(icons: &Vec<&MaterializedIcon>) -> (r: Vec<char>)
    ensures
        r@ == group_methods(icons@.map_values(|i: &MaterializedIcon| *i)),
{
    let ghost iv = icons@.map_values(|i: &MaterializedIcon| *i);
    let mut out: Vec<char> = Vec::new();
    let mut k: usize = 0;
    proof {
        assert(iv.take(0).map_values(|i: MaterializedIcon| group_method(i)) =~= Seq::<Seq<char>>::empty());
    }
    while k < icons.len()
        invariant
            iv == icons@.map_values(|i: &MaterializedIcon| *i),
            k <= icons@.len(),
            out@ == concat(iv.take(k as int).map_values(|i: MaterializedIcon| group_method(i))),
        decreases icons@.len() - k,
    {
        let piece = group_method_exec(icons[k]);
        push_all(&mut out, piece.as_slice());
        proof {
            let parts = iv.take(k + 1).map_values(|i: MaterializedIcon| group_method(i));
            assert(parts.drop_last() =~= iv.take(k as int).map_values(|i: MaterializedIcon| group_method(i)));
            assert(parts.last() == group_method(iv[k as int]));
        }
        k += 1;
    }
    proof {
        assert(iv.take(icons@.len() as int) =~= iv);
    }
    out
}

pub open spec fn derefs(v: Seq<&MaterializedIcon>) -> Seq<MaterializedIcon> {
    v.map_values(|i: &MaterializedIcon| *i)
}

/// Which icons to pick.
pub enum Pick {
    Family(String),
    Sized(u16),
    Unsized,
}

pub open spec fn pick_pred(p: Pick) -> spec_fn(MaterializedIcon) -> bool {
    match p {
        Pick::Family(f) => of_family(f@),
        Pick::Sized(n) => sized_as(n),
        Pick::Unsized => is_unsized(),
    }
}

/// The icons `pick` picks, in order, by reference.
fn select<'a>(icons: &Vec<&'a MaterializedIcon>, pick: &Pick) -> (r: Vec<&'a MaterializedIcon>)
    ensures
        derefs(r@) == derefs(icons@).filter(pick_pred(*pick)),
{
    let ghost p = pick_pred(*pick);
    let ghost iv = derefs(icons@);
    let mut out: Vec<&MaterializedIcon> = Vec::new();
    let mut k: usize = 0;
    proof {
        reveal(Seq::filter);
        assert(iv.take(0) =~= Seq::<MaterializedIcon>::empty());
        assert(derefs(out@) =~= iv.take(0).filter(p));
    }
    while k < icons.len()
        invariant
            iv == derefs(icons@),
            p == pick_pred(*pick),
            k <= icons@.len(),
            derefs(out@) == iv.take(k as int).filter(p),
        decreases icons@.len() - k,
    {
        let icon = icons[k];
        let keep = match pick {
            Pick::Family(f) => icon.family == *f,
            Pick::Sized(n) => icon.size == Some(*n),
            Pick::Unsized => icon.size.is_none(),
        };
        proof {
            reveal(Seq::filter);
            assert(iv.take(k + 1).drop_last() =~= iv.take(k as int));
            assert(iv.take(k + 1).last() == *icon);
            assert(keep == p(*icon));
        }
        if keep {
            out.push(icon);
            proof {
                assert(derefs(out@) =~= iv.take(k as int).filter(p).push(*icon));
            }
        }
        k += 1;
    }
    proof {
        assert(iv.take(icons@.len() as int) =~= iv);
    }
    out
}

fn leaf_exec(fname: &String, builder: &String, icons: &Vec<&MaterializedIcon>) -> (r: Vec<char>)
    ensures
        r@ == leaf(fname@, builder@, derefs(icons@)),
{
    let mut m: Vec<char> = Vec::new();
    if icons.len() == 1 && icons[0].variant.is_none() {
        push_str(&mut m, "pub const fn ");
        push_str(&mut m, fname.as_str());
        push_str(&mut m, "() -> IconKey {\n    keys::");
        push_str(&mut m, rust_const_name(icons[0].key.as_str()).as_str());
        push_str(&mut m, "\n}\n");
        return m;
    }
    push_str(&mut m, "pub struct ");
    push_str(&mut m, builder.as_str());
    push_str(&mut m, ";\n\npub const fn ");
    push_str(&mut m, fname.as_str());
    push_str(&mut m, "() -> ");
    push_str(&mut m, builder.as_str());
    push_str(&mut m, " {\n    ");
    push_str(&mut m, builder.as_str());
    push_str(&mut m, "\n}\n\nimpl ");
    push_str(&mut m, builder.as_str());
    push_str(&mut m, " {\n");
    push_all(&mut m, group_methods_exec(icons).as_slice());
    push_str(&mut m, "}\n");
    m
}

fn sizes_of(icons: &Vec<&MaterializedIcon>) -> (r: Vec<u16>)
    ensures
        r@ == icon_sizes(derefs(icons@)),
{
    let ghost iv = derefs(icons@);
    let mut out: Vec<u16> = Vec::new();
    let mut k: usize = 0;
    proof {
        assert(iv.take(0) =~= Seq::<MaterializedIcon>::empty());
    }
    while k < icons.len()
        invariant
            iv == derefs(icons@),
            k <= icons@.len(),
            out@ == icon_sizes(iv.take(k as int)),
        decreases icons@.len() - k,
    {
        proof {
            assert(iv.take(k + 1).drop_last() =~= iv.take(k as int));
            assert(iv.take(k + 1).last() == *icons@[k as int]);
        }
        if let Some(n) = icons[k].size {
            out.push(n);
        }
        k += 1;
    }
    proof {
        assert(iv.take(icons@.len() as int) =~= iv);
    }
    out
}

/// The size method and nested builder for the size group `group`.
fn size_pieces(tname: &String, n: u16, group: &Vec<&MaterializedIcon>) -> (r: (Vec<char>, Vec<char>))
    ensures
        r.0@ == size_method(tname@, n, derefs(group@)),
        r.1@ == size_nested(tname@, n, derefs(group@)),
{
    let d = decimal_exec(n as u64);
    let mut methods: Vec<char> = Vec::new();
    let mut nested: Vec<char> = Vec::new();
    if group.len() == 1 && group[0].variant.is_none() {
        push_str(&mut methods, "    pub const fn size_");
        push_all(&mut methods, d.as_slice());
        push_str(&mut methods, "(self) -> IconKey {\n        keys::");
        push_str(&mut methods, rust_const_name(group[0].key.as_str()).as_str());
        push_str(&mut methods, "\n    }\n");
        proof {
            assert(nested@ =~= Seq::<char>::empty());
        }
    } else {
        let mut st: Vec<char> = Vec::new();
        push_str(&mut st, tname.as_str());
        push_all(&mut st, d.as_slice());
        push_str(&mut st, "VariantBuilder");
        push_str(&mut nested, "pub struct ");
        push_all(&mut nested, st.as_slice());
        push_str(&mut nested, ";\n\nimpl ");
        push_all(&mut nested, st.as_slice());
        push_str(&mut nested, " {\n");
        push_all(&mut nested, group_methods_exec(group).as_slice());
        push_str(&mut nested, "}\n\n");
        push_str(&mut methods, "    pub const fn size_");
        push_all(&mut methods, d.as_slice());
        push_str(&mut methods, "(self) -> ");
        push_all(&mut methods, st.as_slice());
        push_str(&mut methods, " {\n        ");
        push_all(&mut methods, st.as_slice());
        push_str(&mut methods, "\n    }\n");
    }
    (methods, nested)
}

/// The builder of one family, from its members in manifest order.
pub fn family_builder_exec(family: &String, members: &Vec<&MaterializedIcon>) -> (r: Vec<char>)
    ensures
        r@ == family_builder(family@, derefs(members@)),
{
    let ghost mv = derefs(members@);
    let unsized_icons = select(members, &Pick::Unsized);
    let sizes = sorted_sizes_exec(&sizes_of(members));
    let fname = rust_fn_name(family.as_str());
    let tname = rust_variant_name(family.as_str());
    let mut b: Vec<char> = Vec::new();
    push_str(&mut b, tname.as_str());
    push_str(&mut b, "Builder");
    let builder = string_of(b.as_slice());
    if sizes.len() == 0 {
        return leaf_exec(&fname, &builder, &unsized_icons);
    }
    let mut methods = group_methods_exec(&unsized_icons);
    let ghost base_methods = methods@;
    let mut nested: Vec<char> = Vec::new();
    let mut k: usize = 0;
    proof {
        assert(sizes@.take(0).map_values(|n: u16| size_method(tname@, n, mv.filter(sized_as(n)))) =~= Seq::<Seq<char>>::empty());
        assert(sizes@.take(0).map_values(|n: u16| size_nested(tname@, n, mv.filter(sized_as(n)))) =~= Seq::<Seq<char>>::empty());
        assert(methods@ =~= base_methods + Seq::<char>::empty());
    }
    while k < sizes.len()
        invariant
            mv == derefs(members@),
            k <= sizes@.len(),
            methods@ == base_methods + concat(sizes@.take(k as int).map_values(|n: u16| size_method(tname@, n, mv.filter(sized_as(n))))),
            nested@ == concat(sizes@.take(k as int).map_values(|n: u16| size_nested(tname@, n, mv.filter(sized_as(n))))),
        decreases sizes@.len() - k,
    {
        let n = sizes[k];
        let group = select(members, &Pick::Sized(n));
        let ghost gv = derefs(group@);
        let ghost m0 = methods@;
        let ghost n0 = nested@;
        let (method, nest) = size_pieces(&tname, n, &group);
        push_all(&mut methods, method.as_slice());
        push_all(&mut nested, nest.as_slice());
        proof {
            let a = sizes@.take(k + 1).map_values(|n: u16| size_method(tname@, n, mv.filter(sized_as(n))));
            let b = sizes@.take(k + 1).map_values(|n: u16| size_nested(tname@, n, mv.filter(sized_as(n))));
            assert(a.drop_last() =~= sizes@.take(k as int).map_values(|n: u16| size_method(tname@, n, mv.filter(sized_as(n)))));
            assert(b.drop_last() =~= sizes@.take(k as int).map_values(|n: u16| size_nested(tname@, n, mv.filter(sized_as(n)))));
            assert(a.last() == size_method(tname@, n, gv));
            assert(b.last() == size_nested(tname@, n, gv));
            assert(methods@ =~= base_methods + concat(a));
        }
        k += 1;
    }
    proof {
        assert(sizes@.take(sizes@.len() as int) =~= sizes@);
    }
    let mut out: Vec<char> = Vec::new();
    push_all(&mut out, nested.as_slice());
    push_str(&mut out, "pub struct ");
    push_str(&mut out, builder.as_str());
    push_str(&mut out, ";\n\npub const fn ");
    push_str(&mut out, fname.as_str());
    push_str(&mut out, "() -> ");
    push_str(&mut out, builder.as_str());
    push_str(&mut out, " {\n    ");
    push_str(&mut out, builder.as_str());
    push_str(&mut out, "\n}\n\nimpl ");
    push_str(&mut out, builder.as_str());
    push_str(&mut out, " {\n");
    push_all(&mut out, methods.as_slice());
    push_str(&mut out, "}\n");
    out
}

/// Every family's builder, families in name order, separated by blank
/// lines.
pub fn generate_builders(icons: &Vec<MaterializedIcon>) -> (r: String)
    ensures
        r@ == builders(icons@),
{
    let mut refs: Vec<&MaterializedIcon> = Vec::new();
    let mut names: Vec<String> = Vec::new();
    let mut k: usize = 0;
    while k < icons.len()
        invariant
            k <= icons@.len(),
            derefs(refs@) == icons@.take(k as int),
            names@.len() == k,
            strings_view(names@) == families_of(icons@.take(k as int)),
        decreases icons@.len() - k,
    {
        refs.push(&icons[k]);
        let ghost prev = names@;
        let fam = icons[k].family.clone();
        names.push(fam);
        proof {
            assert forall|j: int| 0 <= j < k + 1 implies strings_view(names@)[j] == families_of(icons@.take(k + 1))[j] by {
                if j < k {
                    assert(names@[j] == prev[j]);
                    assert(strings_view(prev)[j] == families_of(icons@.take(k as int))[j]);
                }
            }
            assert(derefs(refs@) =~= icons@.take(k + 1));
            assert(strings_view(names@) =~= families_of(icons@.take(k + 1)));
        }
        k += 1;
    }
    proof {
        assert(icons@.take(icons@.len() as int) =~= icons@);
    }
    let families = sorted_names_exec(&names);
    let mut parts: Vec<Vec<char>> = Vec::new();
    let mut f: usize = 0;
    while f < families.len()
        invariant
            derefs(refs@) == icons@,
            f <= families@.len(),
            parts@.len() == f,
            forall|j: int| 0 <= j < f ==> #[trigger] parts@[j]@ == family_builder(families@[j]@, icons@.filter(of_family(families@[j]@))),
        decreases families@.len() - f,
    {
        let members = select(&refs, &Pick::Family(families[f].clone()));
        parts.push(family_builder_exec(&families[f], &members));
        f += 1;
    }
    let sep = crate::text::chars_of("\n");
    let joined = join_exec(&parts, sep.as_slice());
    proof {
        assert(parts@.map_values(|p: Vec<char>| p@) =~= sorted_names(families_of(icons@)).map_values(
            |f: Seq<char>| family_builder(f, icons@.filter(of_family(f))),
        ));
    }
    string_of(joined.as_slice())
}

} // verus!

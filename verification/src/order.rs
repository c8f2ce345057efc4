//! Sorted, duplicate-free lists of names and sizes, as a `BTreeMap`'s keys
//! come out.

use crate::fields::strings_view;
use crate::load::{key_le, key_le_exec};
use crate::model::{first_index, lemma_first_index_is};
use vstd::prelude::*;

verus! {

/// `a` comes strictly before `b`.
pub open spec fn key_lt(a: Seq<char>, b: Seq<char>) -> bool {
    key_le(a, b) && a != b
}

pub open spec fn not_before(x: Seq<char>) -> spec_fn(Seq<char>) -> bool {
    |y: Seq<char>| !key_lt(y, x)
}

/// `r` with `x` put before the first item not before it, unless that item
/// is `x` itself.
pub open spec fn insert_name(r: Seq<Seq<char>>, x: Seq<char>) -> Seq<Seq<char>> {
    let k = match first_index(r, not_before(x)) {
        Some(k) => k,
        None => r.len() as int,
    };
    if k < r.len() && r[k] == x {
        r
    } else {
        r.insert(k, x)
    }
}

/// The names of `s`, sorted and without duplicates.
pub open spec fn sorted_names(s: Seq<Seq<char>>) -> Seq<Seq<char>>
    decreases s.len(),
{
    if s.len() == 0 {
        Seq::empty()
    } else {
        insert_name(sorted_names(s.drop_last()), s.last())
    }
}

fn key_lt_exec(a: &String, b: &String) -> (r: bool)
    ensures
        r == key_lt(a@, b@),
{
    key_le_exec(a, b) && !(*a == *b)
}

/// `insert_name`, on a vector.
pub fn insert_name_exec(r: &mut Vec<String>, x: String)
    ensures
        strings_view(final(r)@) == insert_name(strings_view(old(r)@), x@),
{
    let ghost rv = strings_view(r@);
    let mut k: usize = 0;
    while k < r.len() && key_lt_exec(&r[k], &x)
        invariant
            rv == strings_view(r@),
            k <= r@.len(),
            forall|j: int| 0 <= j < k ==> !not_before(x@)(#[trigger] rv[j]),
        decreases r@.len() - k,
    {
        k += 1;
    }
    proof {
        lemma_first_index_is(rv, not_before(x@), k as int);
    }
    if k < r.len() && r[k] == x {
        return;
    }
    let ghost before = r@;
    r.insert(k, x);
    proof {
        assert(strings_view(r@) =~= rv.insert(k as int, x@));
    }
}

/// The names, sorted and without duplicates.
pub fn sorted_names_exec(s: &Vec<String>) -> (r: Vec<String>)
    ensures
        strings_view(r@) == sorted_names(strings_view(s@)),
{
    let mut r: Vec<String> = Vec::new();
    let mut i: usize = 0;
    proof {
        assert(strings_view(s@).take(0) =~= Seq::<Seq<char>>::empty());
        assert(strings_view(r@) =~= Seq::<Seq<char>>::empty());
    }
    while i < s.len()
        invariant
            i <= s@.len(),
            strings_view(r@) == sorted_names(strings_view(s@).take(i as int)),
        decreases s@.len() - i,
    {
        proof {
            assert(strings_view(s@).take(i + 1).drop_last() =~= strings_view(s@).take(i as int));
            assert(strings_view(s@).take(i + 1).last() == s@[i as int]@);
        }
        insert_name_exec(&mut r, s[i].clone());
        i += 1;
    }
    proof {
        assert(strings_view(s@).take(s@.len() as int) =~= strings_view(s@));
    }
    r
}

pub open spec fn size_not_before(x: u16) -> spec_fn(u16) -> bool {
    |y: u16| !(y < x)
}

/// `r` with `x` put before the first size not below it, unless that is `x`.
pub open spec fn insert_size(r: Seq<u16>, x: u16) -> Seq<u16> {
    let k = match first_index(r, size_not_before(x)) {
        Some(k) => k,
        None => r.len() as int,
    };
    if k < r.len() && r[k] == x {
        r
    } else {
        r.insert(k, x)
    }
}

/// The sizes of `s`, ascending and without duplicates.
pub open spec fn sorted_sizes(s: Seq<u16>) -> Seq<u16>
    decreases s.len(),
{
    if s.len() == 0 {
        Seq::empty()
    } else {
        insert_size(sorted_sizes(s.drop_last()), s.last())
    }
}

/// The sizes, ascending and without duplicates.
pub fn sorted_sizes_exec(s: &Vec<u16>) -> (r: Vec<u16>)
    ensures
        r@ == sorted_sizes(s@),
{
    let mut r: Vec<u16> = Vec::new();
    let mut i: usize = 0;
    proof {
        assert(s@.take(0) =~= Seq::<u16>::empty());
    }
    while i < s.len()
        invariant
            i <= s@.len(),
            r@ == sorted_sizes(s@.take(i as int)),
        decreases s@.len() - i,
    {
        proof {
            assert(s@.take(i + 1).drop_last() =~= s@.take(i as int));
            assert(s@.take(i + 1).last() == s@[i as int]);
        }
        let x = s[i];
        let ghost rv = r@;
        let mut k: usize = 0;
        while k < r.len() && r[k] < x
            invariant
                rv == r@,
                k <= r@.len(),
                forall|j: int| 0 <= j < k ==> !size_not_before(x)(#[trigger] rv[j]),
            decreases r@.len() - k,
        {
            k += 1;
        }
        proof {
            lemma_first_index_is(rv, size_not_before(x), k as int);
        }
        if !(k < r.len() && r[k] == x) {
            r.insert(k, x);
        }
        i += 1;
    }
    proof {
        assert(s@.take(s@.len() as int) =~= s@);
    }
    r
}

} // verus!

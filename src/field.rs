//! Pulling a field's value out of text: the span between a prefix and the
//! nearest of several terminators.
use vstd::prelude::*;
use crate::conv::char_vec;
use crate::text::{find, find_chars};

verus! {

/// The character sequences of a list of vectors.
pub open spec fn views(v: Seq<Vec<char>>) -> Seq<Seq<char>> {
    v.map_values(|t: Vec<char>| t@)
}

/// The character sequences of a list of string slices.
pub open spec fn str_views(v: Seq<&str>) -> Seq<Seq<char>> {
    v.map_values(|t: &str| t@)
}

/// Offset in `rest` of the earliest occurrence of any terminator, or the
/// length of `rest` when none occurs.
pub open spec fn min_offset(rest: Seq<char>, terms: Seq<Seq<char>>) -> int
    decreases terms.len(),
{
    if terms.len() == 0 {
        rest.len() as int
    } else {
        let m = min_offset(rest, terms.drop_last());
        match find(rest, terms.last()) {
            Some(o) => if o < m {
                o
            } else {
                m
            },
            None => m,
        }
    }
}

/// Bounds of the value after the first `prefix` in `text`, up to the nearest
/// terminator; none when the prefix is missing or the span is empty.
pub open spec fn field_bounds(text: Seq<char>, prefix: Seq<char>, terms: Seq<Seq<char>>) -> Option<
    (int, int),
> {
    match find(text, prefix) {
        None => None,
        Some(st) => {
            let vs = st + prefix.len();
            if vs >= text.len() {
                None
            } else {
                let ve = vs + min_offset(text.subrange(vs, text.len() as int), terms);
                if vs >= ve {
                    None
                } else {
                    Some((vs, ve))
                }
            }
        },
    }
}

/// The value of a field, as `field_bounds` delimits it.
pub open spec fn field_value(text: Seq<char>, prefix: Seq<char>, terms: Seq<Seq<char>>) -> Option<
    Seq<char>,
> {
    match field_bounds(text, prefix, terms) {
        Some((a, b)) => Some(text.subrange(a, b)),
        None => None,
    }
}

/// The earliest-terminator offset is within `rest`.
pub proof fn lemma_min_offset_bounds(rest: Seq<char>, terms: Seq<Seq<char>>)
    ensures
        0 <= min_offset(rest, terms) <= rest.len(),
    decreases terms.len(),
{
    if terms.len() > 0 {
        lemma_min_offset_bounds(rest, terms.drop_last());
        crate::text::lemma_find_from(rest, terms.last(), 0);
    }
}

/// The earliest-terminator offset is below every terminator's first
/// occurrence, and is either the length of `rest` or one such occurrence.
pub proof fn lemma_min_offset_is_least(rest: Seq<char>, terms: Seq<Seq<char>>)
    ensures
        forall|t: Seq<char>|
            terms.contains(t) ==> (find(rest, t) matches Some(o) ==> min_offset(rest, terms) <= o),
        min_offset(rest, terms) == rest.len() || exists|t: Seq<char>|
            terms.contains(t) && find(rest, t) == Some(min_offset(rest, terms)),
    decreases terms.len(),
{
    if terms.len() > 0 {
        let init = terms.drop_last();
        lemma_min_offset_is_least(rest, init);
        assert forall|t: Seq<char>| terms.contains(t) implies (find(rest, t) matches Some(o)
            ==> min_offset(rest, terms) <= o) by {
            if t != terms.last() {
                let k = choose|k: int| 0 <= k < terms.len() && terms[k] == t;
                assert(k != terms.len() - 1);
                assert(init[k] == t);
                assert(init.contains(t));
            }
            if let Some(o) = find(rest, t) {
                assert(min_offset(rest, terms) <= o);
            }
        }
        if min_offset(rest, terms) != rest.len() {
            if min_offset(rest, terms) == min_offset(rest, init) {
                let t = choose|t: Seq<char>|
                    init.contains(t) && find(rest, t) == Some(min_offset(rest, init));
                let k = choose|k: int| 0 <= k < init.len() && init[k] == t;
                assert(terms[k] == t);
            } else {
                assert(terms[terms.len() - 1] == terms.last());
            }
        }
    }
}

/// The order of the terminators does not matter: two lists that hold the same
/// terminators delimit the same field.
pub proof fn lemma_terminator_order(
    text: Seq<char>,
    prefix: Seq<char>,
    terms1: Seq<Seq<char>>,
    terms2: Seq<Seq<char>>,
)
    requires
        forall|t: Seq<char>| terms1.contains(t) <==> terms2.contains(t),
    ensures
        field_value(text, prefix, terms1) == field_value(text, prefix, terms2),
{
    if let Some(st) = find(text, prefix) {
        let vs = st + prefix.len();
        if vs < text.len() {
            let rest = text.subrange(vs, text.len() as int);
            lemma_min_offset_is_least(rest, terms1);
            lemma_min_offset_is_least(rest, terms2);
            lemma_min_offset_bounds(rest, terms1);
            lemma_min_offset_bounds(rest, terms2);
            let m1 = min_offset(rest, terms1);
            let m2 = min_offset(rest, terms2);
            if m2 != rest.len() {
                let t = choose|t: Seq<char>| terms2.contains(t) && find(rest, t) == Some(m2);
                assert(terms1.contains(t));
            }
            if m1 != rest.len() {
                let t = choose|t: Seq<char>| terms1.contains(t) && find(rest, t) == Some(m1);
                assert(terms2.contains(t));
            }
            assert(m1 == m2);
        }
    }
}

/// A field's bounds lie within the text.
pub proof fn lemma_field_bounds(text: Seq<char>, prefix: Seq<char>, terms: Seq<Seq<char>>)
    ensures
        field_bounds(text, prefix, terms) matches Some((a, b)) ==> 0 <= a < b <= text.len(),
{
    crate::text::lemma_find_from(text, prefix, 0);
    if let Some(st) = find(text, prefix) {
        let vs = st + prefix.len();
        if vs < text.len() {
            lemma_min_offset_bounds(text.subrange(vs, text.len() as int), terms);
        }
    }
}

/// Bounds of the field after `prefix` in `text`, as `field_bounds` gives them.
pub fn field_span(text: &[char], prefix: &[char], terms: &Vec<Vec<char>>) -> (r: Option<
    (usize, usize),
>)
    ensures
        match r {
            Some((a, b)) => field_bounds(text@, prefix@, views(terms@)) == Some(
                (a as int, b as int),
            ),
            None => field_bounds(text@, prefix@, views(terms@)) is None,
        },
{
    let start = match find_chars(text, prefix, 0) {
        None => return None,
        Some(st) => st,
    };
    proof {
        crate::text::lemma_find_from(text@, prefix@, 0);
        assert(find(text@, prefix@) == Some(start as int));
    }
    assert(start + prefix@.len() <= text.len());
    let vs = start + prefix.len();
    if vs >= text.len() {
        return None;
    }
    let rest = &text[vs..text.len()];
    assert(rest@ == text@.subrange(vs as int, text.len() as int));
    let mut m: usize = rest.len();
    let mut i: usize = 0;
    assert(views(terms@).subrange(0, 0) =~= Seq::<Seq<char>>::empty());
    while i < terms.len()
        invariant
            i <= terms.len(),
            m as int == min_offset(rest@, views(terms@).subrange(0, i as int)),
        decreases terms.len() - i,
    {
        let t: &Vec<char> = &terms[i];
        let found = find_chars(rest, t.as_slice(), 0);
        assert(views(terms@).subrange(0, i + 1).drop_last() =~= views(terms@).subrange(
            0,
            i as int,
        ));
        assert(views(terms@).subrange(0, i + 1).last() == t@);
        match found {
            Some(o) => {
                if o < m {
                    m = o;
                }
            },
            None => {},
        }
        i = i + 1;
    }
    assert(views(terms@).subrange(0, terms.len() as int) =~= views(terms@));
    proof {
        lemma_min_offset_bounds(rest@, views(terms@));
    }
    let ve = vs + m;
    if vs >= ve {
        None
    } else {
        Some((vs, ve))
    }
}

/// The characters of each string.
pub fn char_lists(items: &[&str]) -> (r: Vec<Vec<char>>)
    ensures
        views(r@) == str_views(items@),
{
    let mut terms: Vec<Vec<char>> = Vec::new();
    let mut i: usize = 0;
    while i < items.len()
        invariant
            i <= items.len(),
            views(terms@) =~= str_views(items@).subrange(0, i as int),
        decreases items.len() - i,
    {
        let v = char_vec(items[i]);
        proof {
            assert(views(terms@.push(v)) =~= views(terms@).push(v@));
            assert(str_views(items@).subrange(0, i + 1) =~= str_views(items@).subrange(
                0,
                i as int,
            ).push(items@[i as int]@));
        }
        terms.push(v);
        i = i + 1;
    }
    assert(str_views(items@).subrange(0, i as int) =~= str_views(items@));
    terms
}

/// The text between the first `prefix` in `text` and the nearest following
/// terminator; none when the prefix is missing or nothing lies between.
pub fn extract_field<'a>(text: &'a str, prefix: &str, terminators: &[&str]) -> (r: Option<&'a str>)
    ensures
        match r {
            Some(v) => field_value(text@, prefix@, str_views(terminators@)) == Some(v@),
            None => field_value(text@, prefix@, str_views(terminators@)) is None,
        },
{
    let chars = char_vec(text);
    let pre = char_vec(prefix);
    let terms = char_lists(terminators);
    proof {
        lemma_field_bounds(text@, prefix@, str_views(terminators@));
    }
    match field_span(chars.as_slice(), pre.as_slice(), &terms) {
        None => None,
        Some((a, b)) => Some(text.substring_char(a, b)),
    }
}

} // verus!

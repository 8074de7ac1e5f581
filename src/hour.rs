//! Recovering the hour of day from an entry's first line, `<date> <HH:MM:SS> ...`.
use vstd::prelude::*;
use crate::conv::char_vec;
use crate::text::{is_space, is_space_char};

verus! {

/// First position at or after `i` that holds `c`, or the length of `s`.
pub open spec fn index_from(s: Seq<char>, i: int, c: char) -> int
    decreases s.len() + 1 - i,
{
    if i < 0 || i >= s.len() || s[i] == c {
        i
    } else {
        index_from(s, i + 1, c)
    }
}

/// First position at or after `i` that is not whitespace, or the length of `s`.
pub open spec fn skip_spaces(s: Seq<char>, i: int) -> int
    decreases s.len() + 1 - i,
{
    if 0 <= i < s.len() && is_space(s[i]) {
        skip_spaces(s, i + 1)
    } else {
        i
    }
}

/// First position at or after `i` that is whitespace, or the length of `s`.
pub open spec fn skip_word(s: Seq<char>, i: int) -> int
    decreases s.len() + 1 - i,
{
    if 0 <= i < s.len() && !is_space(s[i]) {
        skip_word(s, i + 1)
    } else {
        i
    }
}

/// The entry's first line, up to the first line feed.
pub open spec fn first_line(s: Seq<char>) -> Seq<char> {
    s.subrange(0, index_from(s, 0, '\n'))
}

/// The second whitespace-delimited token of `line`.
pub open spec fn second_token(line: Seq<char>) -> Option<Seq<char>> {
    let a0 = skip_spaces(line, 0);
    let a1 = skip_spaces(line, skip_word(line, a0));
    if a0 >= line.len() || a1 >= line.len() {
        None
    } else {
        Some(line.subrange(a1, skip_word(line, a1)))
    }
}

/// `s` up to its first `:`.
pub open spec fn before_colon(s: Seq<char>) -> Seq<char> {
    s.subrange(0, index_from(s, 0, ':'))
}

pub open spec fn is_digit(c: char) -> bool {
    '0' <= c && c <= '9'
}

pub open spec fn all_digits(d: Seq<char>) -> bool {
    forall|i: int| 0 <= i < d.len() ==> is_digit(d[i])
}

/// Value of a string of decimal digits.
pub open spec fn digits_value(d: Seq<char>) -> nat
    decreases d.len(),
{
    if d.len() == 0 {
        0
    } else {
        digits_value(d.drop_last()) * 10 + ((d.last() as u32) - ('0' as u32)) as nat
    }
}

/// `s` without one leading `+`.
pub open spec fn strip_plus(s: Seq<char>) -> Seq<char> {
    if s.len() > 0 && s[0] == '+' {
        s.drop_first()
    } else {
        s
    }
}

/// What `u32::from_str` gives: an optional `+`, then one or more digits whose
/// value fits in 32 bits.
pub open spec fn parse_u32(s: Seq<char>) -> Option<nat> {
    let d = strip_plus(s);
    if d.len() > 0 && all_digits(d) && digits_value(d) <= u32::MAX {
        Some(digits_value(d))
    } else {
        None
    }
}

/// A parsed number, kept only when it is below 24.
pub open spec fn below_24(n: Option<nat>) -> Option<nat> {
    match n {
        Some(v) => if v < 24 {
            Some(v)
        } else {
            None
        },
        None => None,
    }
}

/// The hour of an entry: the part before `:` of the first line's second token,
/// read as a number below 24.
pub open spec fn hour_of(entry: Seq<char>) -> Option<nat> {
    match second_token(first_line(entry)) {
        None => None,
        Some(tok) => below_24(parse_u32(before_colon(tok))),
    }
}

fn index_of(s: &[char], i: usize, c: char) -> (r: usize)
    requires
        i <= s.len(),
    ensures
        r as int == index_from(s@, i as int, c),
        i <= r <= s.len(),
{
    let mut k: usize = i;
    while k < s.len() && s[k] != c
        invariant
            i <= k <= s.len(),
            index_from(s@, i as int, c) == index_from(s@, k as int, c),
        decreases s.len() - k,
    {
        k = k + 1;
    }
    k
}

fn skip_spaces_from(s: &[char], i: usize) -> (r: usize)
    requires
        i <= s.len(),
    ensures
        r as int == skip_spaces(s@, i as int),
        i <= r <= s.len(),
{
    let mut k: usize = i;
    while k < s.len() && is_space_char(s[k])
        invariant
            i <= k <= s.len(),
            skip_spaces(s@, i as int) == skip_spaces(s@, k as int),
        decreases s.len() - k,
    {
        k = k + 1;
    }
    k
}

fn skip_word_from(s: &[char], i: usize) -> (r: usize)
    requires
        i <= s.len(),
    ensures
        r as int == skip_word(s@, i as int),
        i <= r <= s.len(),
{
    let mut k: usize = i;
    while k < s.len() && !is_space_char(s[k])
        invariant
            i <= k <= s.len(),
            skip_word(s@, i as int) == skip_word(s@, k as int),
        decreases s.len() - k,
    {
        k = k + 1;
    }
    k
}

/// The number that `s` spells, when it is below 24.
fn small_number(s: &[char]) -> (r: Option<u32>)
    ensures
        match r {
            Some(v) => below_24(parse_u32(s@)) == Some(v as nat),
            None => below_24(parse_u32(s@)) is None,
        },
{
    let mut start: usize = 0;
    if s.len() > 0 && s[0] == '+' {
        start = 1;
    }
    let d = &s[start..s.len()];
    assert(d@ =~= strip_plus(s@));
    if d.len() == 0 {
        return None;
    }
    // `v` is the value of the digits read so far, capped at 24.
    let mut v: u32 = 0;
    let mut k: usize = 0;
    while k < d.len()
        invariant
            k <= d.len(),
            d@ == strip_plus(s@),
            forall|m: int| 0 <= m < k ==> is_digit(d@[m]),
            v as nat == if digits_value(d@.subrange(0, k as int)) < 24 {
                digits_value(d@.subrange(0, k as int))
            } else {
                24
            },
        decreases d.len() - k,
    {
        let c = d[k];
        if !('0' <= c && c <= '9') {
            assert(!is_digit(d@[k as int]));
            assert(!all_digits(d@));
            return None;
        }
        let dig: u32 = (c as u32) - ('0' as u32);
        let ghost prev = digits_value(d@.subrange(0, k as int));
        assert(d@.subrange(0, k + 1).drop_last() =~= d@.subrange(0, k as int));
        assert(digits_value(d@.subrange(0, k + 1)) == prev * 10 + dig);
        let next: u32 = v * 10 + dig;
        if next < 24 {
            v = next;
        } else {
            v = 24;
        }
        proof {
            if prev >= 24 {
                assert(prev * 10 + dig >= 24) by (nonlinear_arith)
                    requires
                        prev >= 24,
                ;
            }
        }
        k = k + 1;
    }
    assert(d@.subrange(0, d.len() as int) =~= d@);
    if v < 24 {
        Some(v)
    } else {
        None
    }
}

/// The hour of an entry given as characters.
pub fn hour_in(entry: &[char]) -> (r: Option<u32>)
    ensures
        match r {
            Some(h) => hour_of(entry@) == Some(h as nat),
            None => hour_of(entry@) is None,
        },
{
    let end = index_of(entry, 0, '\n');
    let line = &entry[0..end];
    assert(line@ == first_line(entry@));
    let a0 = skip_spaces_from(line, 0);
    if a0 >= line.len() {
        return None;
    }
    let b0 = skip_word_from(line, a0);
    let a1 = skip_spaces_from(line, b0);
    if a1 >= line.len() {
        return None;
    }
    let b1 = skip_word_from(line, a1);
    let tok = &line[a1..b1];
    let colon = index_of(tok, 0, ':');
    let hs = &tok[0..colon];
    assert(hs@ == before_colon(tok@));
    small_number(hs)
}

/// The hour of day in an entry's first line (`<date> <HH:MM:SS> ...`); none
/// when the token is missing, is not a number, or is 24 or more.
pub fn extract_hour(entry: &str) -> (r: Option<u32>)
    ensures
        match r {
            Some(h) => hour_of(entry@) == Some(h as nat),
            None => hour_of(entry@) is None,
        },
{
    let chars = char_vec(entry);
    hour_in(chars.as_slice())
}

} // verus!

//! Display width on a monospaced terminal, and fitting text to a width.
use vstd::prelude::*;
use crate::conv::{char_vec, string_of};

verus! {

/// Columns a character takes: one for ASCII, two for anything wider.
pub open spec fn char_width(c: char) -> nat {
    if (c as u32) < 0x80 {
        1
    } else {
        2
    }
}

/// Columns a sequence of characters takes.
pub open spec fn width_of(s: Seq<char>) -> nat
    decreases s.len(),
{
    if s.len() == 0 {
        0
    } else {
        width_of(s.drop_last()) + char_width(s.last())
    }
}

/// The longest prefix of `s` that fits in `budget` columns, followed by `…`
/// when a character did not fit.
pub open spec fn clip(s: Seq<char>, budget: int) -> Seq<char>
    decreases s.len(),
{
    if s.len() == 0 {
        Seq::empty()
    } else if char_width(s[0]) > budget {
        seq!['…']
    } else {
        seq![s[0]] + clip(s.drop_first(), budget - char_width(s[0]))
    }
}

/// `s` fitted to `w` columns: clipped with `…` when it is as wide or wider,
/// else padded with spaces.
pub open spec fn fit_to(s: Seq<char>, w: nat) -> Seq<char> {
    if width_of(s) >= w {
        clip(s, w - 1)
    } else {
        s + Seq::new((w - width_of(s)) as nat, |i: int| ' ')
    }
}

fn width_of_char(c: char) -> (r: usize)
    ensures
        r as nat == char_width(c),
{
    if (c as u32) < 0x80 {
        1
    } else {
        2
    }
}

fn width_of_chars(s: &[char]) -> (r: usize)
    requires
        s@.len() <= usize::MAX / 2,
    ensures
        r as nat == width_of(s@),
        r <= 2 * s@.len(),
{
    let mut w: usize = 0;
    let mut i: usize = 0;
    while i < s.len()
        invariant
            i <= s.len(),
            s@.len() <= usize::MAX / 2,
            w as nat == width_of(s@.subrange(0, i as int)),
            w <= 2 * i,
        decreases s.len() - i,
    {
        assert(s@.subrange(0, i + 1).drop_last() =~= s@.subrange(0, i as int));
        w = w + width_of_char(s[i]);
        i = i + 1;
    }
    assert(s@.subrange(0, i as int) =~= s@);
    w
}

/// Columns that `s` takes on a monospaced terminal.
pub fn display_width(s: &str) -> (r: usize)
    requires
        s@.len() <= usize::MAX / 2,
    ensures
        r as nat == width_of(s@),
{
    let v = char_vec(s);
    width_of_chars(v.as_slice())
}

/// `s` clipped with `…` or padded with spaces to `width` columns.
pub fn pad_to_width(s: &str, width: usize) -> (r: String)
    requires
        width >= 1,
        s@.len() <= usize::MAX / 2,
    ensures
        r@ == fit_to(s@, width as nat),
{
    let v = char_vec(s);
    let cs = v.as_slice();
    let current_width = width_of_chars(cs);
    let mut out: Vec<char> = Vec::new();
    if current_width >= width {
        let mut current: usize = 0;
        let mut i: usize = 0;
        assert(cs@.subrange(0, cs@.len() as int) =~= cs@);
        while i < cs.len()
            invariant
                i <= cs.len(),
                width >= 1,
                cs@ == s@,
                width_of(s@) >= width,
                current < width,
                clip(cs@, width - 1) == out@ + clip(
                    cs@.subrange(i as int, cs@.len() as int),
                    width - 1 - current,
                ),
            decreases cs.len() - i,
        {
            let ghost rest = cs@.subrange(i as int, cs@.len() as int);
            assert(rest[0] == cs@[i as int]);
            assert(rest.drop_first() =~= cs@.subrange(i + 1, cs@.len() as int));
            let w = width_of_char(cs[i]);
            if w > width - 1 - current {
                out.push('…');
                assert(clip(cs@, width - 1) =~= out@);
                return string_of(out.as_slice());
            }
            out.push(cs[i]);
            current = current + w;
            i = i + 1;
            assert(clip(cs@, width - 1) =~= out@ + clip(
                cs@.subrange(i as int, cs@.len() as int),
                width - 1 - current,
            ));
        }
        assert(clip(cs@.subrange(i as int, cs@.len() as int), width - 1 - current) =~= Seq::<
            char,
        >::empty());
        assert(clip(cs@, width - 1) =~= out@);
        string_of(out.as_slice())
    } else {
        let mut k: usize = 0;
        let pad: usize = width - current_width;
        while k < cs.len()
            invariant
                k <= cs.len(),
                out@ =~= cs@.subrange(0, k as int),
            decreases cs.len() - k,
        {
            out.push(cs[k]);
            k = k + 1;
        }
        let mut j: usize = 0;
        while j < pad
            invariant
                j <= pad,
                out@ =~= cs@ + Seq::new(j as nat, |i: int| ' '),
            decreases pad - j,
        {
            out.push(' ');
            j = j + 1;
        }
        string_of(out.as_slice())
    }
}

} // verus!

verus! {

/// A path for a 50-column cell: when wider, its first 20 characters, `...`,
/// and its last 26 characters.
pub open spec fn shortened(s: Seq<char>) -> Seq<char> {
    if width_of(s) > 50 {
        let tail_start = if s.len() > 26 {
            s.len() - 26
        } else {
            0
        };
        let head_end = if s.len() > 20 {
            20
        } else {
            s.len() as int
        };
        s.subrange(0, head_end) + "..."@ + s.subrange(tail_start, s.len() as int)
    } else {
        s
    }
}

/// A path shortened for a 50-column cell.
pub fn shorten_path(s: &str) -> (r: String)
    requires
        s@.len() <= usize::MAX / 2,
    ensures
        r@ == shortened(s@),
{
    let v = char_vec(s);
    let cs = v.as_slice();
    if width_of_chars(cs) <= 50 {
        return string_of(cs);
    }
    let n = cs.len();
    let tail_start: usize = if n > 26 {
        n - 26
    } else {
        0
    };
    let head_end: usize = if n > 20 {
        20
    } else {
        n
    };
    let mut out: Vec<char> = Vec::new();
    let mut i: usize = 0;
    while i < head_end
        invariant
            i <= head_end <= n,
            n == cs@.len(),
            out@ =~= cs@.subrange(0, i as int),
        decreases head_end - i,
    {
        out.push(cs[i]);
        i = i + 1;
    }
    let dots = char_vec("...");
    let mut k: usize = 0;
    let ghost mid = out@;
    while k < dots.len()
        invariant
            k <= dots.len(),
            out@ =~= mid + dots@.subrange(0, k as int),
        decreases dots.len() - k,
    {
        out.push(dots[k]);
        k = k + 1;
    }
    assert(dots@.subrange(0, k as int) =~= dots@);
    let ghost mid2 = out@;
    let mut j: usize = tail_start;
    while j < n
        invariant
            tail_start <= j <= n,
            n == cs@.len(),
            out@ =~= mid2 + cs@.subrange(tail_start as int, j as int),
        decreases n - j,
    {
        out.push(cs[j]);
        j = j + 1;
    }
    string_of(out.as_slice())
}

} // verus!

//! What the report and the export are built from: the log signature check,
//! ranking by count, risk tiers, and the CSV text of the most scanned files.
use vstd::prelude::*;
use vstd::string::StringExecFns;
use crate::conv::{char_vec, string_of};
use crate::stats::digit_char;
use crate::tally::Tally;
use crate::text::{after_last, after_last_start, contains, contains_str};

verus! {

/// A log carries the product's signature: one of its two process names, the
/// file anchor, and the custom-rule marker.
pub open spec fn is_scan_log(c: Seq<char>) -> bool {
    (contains(c, "SGuard64"@) || contains(c, "SGuardSvc64"@)) && contains(c, "操作文件："@)
        && contains(c, "触犯自定义防护规则"@)
}

/// Whether a log's text carries the product's signature.
pub fn is_huorong_log(contents: &str) -> (r: bool)
    ensures
        r == is_scan_log(contents@),
{
    let c = char_vec(contents);
    let s = c.as_slice();
    let has_sguard = contains_str(s, "SGuard64") || contains_str(s, "SGuardSvc64");
    let has_file_op = contains_str(s, "操作文件：");
    has_sguard && has_file_op && contains_str(s, "触犯自定义防护规则")
}

/// How worrying a count is.
#[derive(PartialEq, Eq, Structural, Clone, Copy, Debug)]
pub enum Risk {
    High,
    Medium,
    Low,
}

/// High above `high`, medium above `medium`, else low.
pub open spec fn tier(count: nat, high: nat, medium: nat) -> Risk {
    if count > high {
        Risk::High
    } else if count > medium {
        Risk::Medium
    } else {
        Risk::Low
    }
}

pub open spec fn risk_text(r: Risk) -> Seq<char> {
    match r {
        Risk::High => "高危"@,
        Risk::Medium => "中危"@,
        Risk::Low => "低危"@,
    }
}

impl Risk {
    /// The tier's name.
    pub fn label(&self) -> (r: String)
        ensures
            r@ == risk_text(*self),
    {
        let s: &str = match self {
            Risk::High => "高危",
            Risk::Medium => "中危",
            Risk::Low => "低危",
        };
        String::from_str(s)
    }
}

/// Tier of a file scanned `count` times.
pub fn file_risk(count: usize) -> (r: Risk)
    ensures
        r == tier(count as nat, 30, 10),
{
    if count > 30 {
        Risk::High
    } else if count > 10 {
        Risk::Medium
    } else {
        Risk::Low
    }
}

/// Tier of a process seen `count` times.
pub fn process_risk(count: usize) -> (r: Risk)
    ensures
        r == tier(count as nat, 500, 200),
{
    if count > 500 {
        Risk::High
    } else if count > 200 {
        Risk::Medium
    } else {
        Risk::Low
    }
}

/// Tier of a category counted `count` times.
pub fn category_risk(count: usize) -> (r: Risk)
    ensures
        r == tier(count as nat, 1000, 300),
{
    if count > 1000 {
        Risk::High
    } else if count > 300 {
        Risk::Medium
    } else {
        Risk::Low
    }
}

/// Labels and counts as plain sequences.
pub open spec fn pair_views(r: Seq<(String, usize)>) -> Seq<(Seq<char>, nat)> {
    r.map_values(|p: (String, usize)| (p.0@, p.1 as nat))
}

/// Every key of a tally with its count, most frequent first (ties keep the
/// order of first arrival).
pub fn ranked(t: &Tally) -> (r: Vec<(String, usize)>)
    requires
        t.wf(),
    ensures
        r@.len() == t@.dom().len(),
        forall|i: int|
            0 <= i < r@.len() ==> t@.contains_key(#[trigger] r@[i].0@) && t@[r@[i].0@]
                == r@[i].1 as nat,
        forall|i: int, j: int| 0 <= i < j < r@.len() ==> r@[i].0@ != r@[j].0@,
        forall|i: int, j: int| 0 <= i < j < r@.len() ==> r@[i].1 >= r@[j].1,
{
    let e = t.entries();
    let mut r: Vec<(String, usize)> = Vec::new();
    let mut i: usize = 0;
    while i < e.len()
        invariant
            i <= e.len(),
            r@.len() == i,
            forall|k: int|
                0 <= k < r@.len() ==> exists|m: int|
                    0 <= m < i && (#[trigger] r@[k]).0@ == e@[m].0@ && r@[k].1 == e@[m].1,
            forall|a: int, b: int| 0 <= a < b < r@.len() ==> r@[a].0@ != r@[b].0@,
            forall|a: int, b: int| 0 <= a < b < r@.len() ==> r@[a].1 >= r@[b].1,
            forall|a: int, b: int| 0 <= a < b < e@.len() ==> e@[a].0@ != e@[b].0@,
        decreases e.len() - i,
    {
        let c = e[i].1;
        let mut p: usize = 0;
        while p < r.len() && r[p].1 >= c
            invariant
                p <= r@.len(),
                forall|k: int| 0 <= k < p ==> r@[k].1 >= c,
            decreases r@.len() - p,
        {
            p = p + 1;
        }
        let item = (e[i].0.clone(), c);
        let ghost old_r = r@;
        assert forall|k: int| 0 <= k < old_r.len() implies old_r[k].0@ != item.0@ by {
            let m = choose|m: int|
                0 <= m < i && (#[trigger] old_r[k]).0@ == e@[m].0@ && old_r[k].1 == e@[m].1;
            assert(e@[m].0@ != e@[i as int].0@);
        }
        r.insert(p, item);
        assert forall|k: int| 0 <= k < r@.len() implies exists|m: int|
            0 <= m < i + 1 && (#[trigger] r@[k]).0@ == e@[m].0@ && r@[k].1 == e@[m].1 by {
            if k < p {
                assert(r@[k] == old_r[k]);
            } else if k == p {
                assert(r@[k].0@ == e@[i as int].0@);
            } else {
                assert(r@[k] == old_r[k - 1]);
            }
        }
        assert forall|a: int, b: int| 0 <= a < b < r@.len() implies r@[a].0@ != r@[b].0@ by {
            if a < p && b < p {
                assert(r@[a] == old_r[a] && r@[b] == old_r[b]);
            } else if a < p && b == p {
                assert(r@[a] == old_r[a]);
            } else if a < p {
                assert(r@[a] == old_r[a] && r@[b] == old_r[b - 1]);
            } else if a == p {
                assert(r@[b] == old_r[b - 1]);
            } else {
                assert(r@[a] == old_r[a - 1] && r@[b] == old_r[b - 1]);
            }
        }
        assert forall|a: int, b: int| 0 <= a < b < r@.len() implies r@[a].1 >= r@[b].1 by {
            if a < p && b < p {
                assert(r@[a] == old_r[a] && r@[b] == old_r[b]);
            } else if a < p && b == p {
                assert(r@[a] == old_r[a]);
            } else if a < p {
                assert(r@[a] == old_r[a] && r@[b] == old_r[b - 1]);
            } else if a == p {
                assert(r@[b] == old_r[b - 1]);
            } else {
                assert(r@[a] == old_r[a - 1] && r@[b] == old_r[b - 1]);
            }
        }
        i = i + 1;
    }
    assert forall|k: int| 0 <= k < r@.len() implies t@.contains_key(#[trigger] r@[k].0@)
        && t@[r@[k].0@] == r@[k].1 as nat by {
        let m = choose|m: int| 0 <= m < i && (#[trigger] r@[k]).0@ == e@[m].0@ && r@[k].1 == e@[m].1;
        assert(t@.contains_key(e@[m].0@));
    }
    r
}

} // verus!

verus! {

/// Most rows the export holds.
pub const EXPORT_LIMIT: usize = 200;

/// Decimal digits of `n`.
pub open spec fn decimal(n: nat) -> Seq<char>
    decreases n,
{
    if n < 10 {
        seq![digit_char(n as int)]
    } else {
        decimal(n / 10).push(digit_char((n % 10) as int))
    }
}

/// `s` with each `"` written twice.
pub open spec fn double_quotes(s: Seq<char>) -> Seq<char>
    decreases s.len(),
{
    if s.len() == 0 {
        Seq::empty()
    } else {
        double_quotes(s.drop_last()) + if s.last() == '"' {
            seq!['"', '"']
        } else {
            seq![s.last()]
        }
    }
}

pub open spec fn needs_quotes(s: Seq<char>) -> bool {
    s.contains(',') || s.contains('\n') || s.contains('"')
}

/// A CSV cell: quoted, with quotes doubled, when it holds a comma, a line
/// feed or a quote.
pub open spec fn csv_cell(s: Seq<char>) -> Seq<char> {
    if needs_quotes(s) {
        seq!['"'] + double_quotes(s) + seq!['"']
    } else {
        s
    }
}

/// One export row: rank, count, path cell, risk, extension, quoted full path.
pub open spec fn csv_row(rank: nat, file: Seq<char>, count: nat) -> Seq<char> {
    decimal(rank) + seq![','] + decimal(count) + seq![','] + csv_cell(file) + seq![',']
        + risk_text(tier(count, 30, 10)) + seq![','] + after_last(file, '.') + seq![',', '"']
        + file + seq!['"', '\n']
}

/// The first `n` rows, ranked from one.
pub open spec fn csv_rows(rows: Seq<(Seq<char>, nat)>, n: int) -> Seq<char>
    decreases n,
{
    if n <= 0 {
        Seq::empty()
    } else {
        csv_rows(rows, n - 1) + csv_row(n as nat, rows[n - 1].0, rows[n - 1].1)
    }
}

pub open spec fn csv_header() -> Seq<char> {
    "排名,扫描频次,文件路径,风险等级,文件类型,完整路径\n"@
}

/// The export: a byte-order mark, the header, and at most `EXPORT_LIMIT` rows.
pub open spec fn csv_text(rows: Seq<(Seq<char>, nat)>) -> Seq<char> {
    let n = if rows.len() < EXPORT_LIMIT {
        rows.len() as int
    } else {
        EXPORT_LIMIT as int
    };
    seq!['\u{feff}'] + csv_header() + csv_rows(rows, n)
}

fn push_all(out: &mut Vec<char>, s: &[char])
    ensures
        final(out)@ == old(out)@ + s@,
{
    let mut i: usize = 0;
    while i < s.len()
        invariant
            i <= s.len(),
            out@ == old(out)@ + s@.subrange(0, i as int),
        decreases s.len() - i,
    {
        out.push(s[i]);
        i = i + 1;
        assert(out@ =~= old(out)@ + s@.subrange(0, i as int));
    }
    assert(s@.subrange(0, i as int) =~= s@);
}

fn push_str(out: &mut Vec<char>, s: &str)
    ensures
        final(out)@ == old(out)@ + s@,
{
    let v = char_vec(s);
    push_all(out, v.as_slice());
}

/// Decimal digits of `n`.
pub fn decimal_chars(n: usize) -> (r: Vec<char>)
    ensures
        r@ == decimal(n as nat),
    decreases n,
{
    let digits = ['0', '1', '2', '3', '4', '5', '6', '7', '8', '9'];
    if n < 10 {
        let mut v: Vec<char> = Vec::new();
        v.push(digits[n]);
        assert(v@ =~= decimal(n as nat));
        v
    } else {
        let mut v = decimal_chars(n / 10);
        v.push(digits[n % 10]);
        v
    }
}

fn has_special(s: &[char]) -> (r: bool)
    ensures
        r == needs_quotes(s@),
{
    let mut i: usize = 0;
    while i < s.len()
        invariant
            i <= s.len(),
            forall|k: int| 0 <= k < i ==> s@[k] != ',' && s@[k] != '\n' && s@[k] != '"',
        decreases s.len() - i,
    {
        if s[i] == ',' || s[i] == '\n' || s[i] == '"' {
            assert(s@[i as int] == s[i as int]);
            return true;
        }
        i = i + 1;
    }
    false
}

/// A path as a CSV cell.
fn push_cell(out: &mut Vec<char>, s: &[char])
    ensures
        final(out)@ == old(out)@ + csv_cell(s@),
{
    if !has_special(s) {
        push_all(out, s);
        return;
    }
    let ghost start = out@;
    out.push('"');
    let mut i: usize = 0;
    while i < s.len()
        invariant
            i <= s.len(),
            out@ == start + seq!['"'] + double_quotes(s@.subrange(0, i as int)),
        decreases s.len() - i,
    {
        let ghost before = out@;
        assert(s@.subrange(0, i + 1).drop_last() =~= s@.subrange(0, i as int));
        if s[i] == '"' {
            out.push('"');
            out.push('"');
        } else {
            out.push(s[i]);
        }
        i = i + 1;
        assert(out@ =~= start + seq!['"'] + double_quotes(s@.subrange(0, i as int)));
    }
    assert(s@.subrange(0, i as int) =~= s@);
    out.push('"');
    assert(out@ =~= start + csv_cell(s@));
}

/// The export of ranked `(path, count)` rows: a byte-order mark, a header,
/// and one line per row for the first `EXPORT_LIMIT` rows.
pub fn high_risk_csv(rows: &Vec<(String, usize)>) -> (r: String)
    ensures
        r@ == csv_text(pair_views(rows@)),
{
    let ghost pv = pair_views(rows@);
    let n: usize = if rows.len() < EXPORT_LIMIT {
        rows.len()
    } else {
        EXPORT_LIMIT
    };
    let mut out: Vec<char> = Vec::new();
    out.push('\u{feff}');
    push_str(&mut out, "排名,扫描频次,文件路径,风险等级,文件类型,完整路径\n");
    let ghost head = out@;
    assert(head =~= seq!['\u{feff}'] + csv_header());
    let mut i: usize = 0;
    while i < n
        invariant
            i <= n,
            n <= rows@.len(),
            n <= EXPORT_LIMIT,
            pv == pair_views(rows@),
            out@ == head + csv_rows(pv, i as int),
        decreases n - i,
    {
        let file = char_vec(rows[i].0.as_str());
        let f = file.as_slice();
        let count = rows[i].1;
        assert(pv[i as int] == (f@, count as nat));
        let ghost before = out@;
        let rank = decimal_chars(i + 1);
        push_all(&mut out, rank.as_slice());
        out.push(',');
        let cnt = decimal_chars(count);
        push_all(&mut out, cnt.as_slice());
        out.push(',');
        push_cell(&mut out, f);
        out.push(',');
        let risk = file_risk(count).label();
        push_str(&mut out, risk.as_str());
        out.push(',');
        let st = after_last_start(f, '.');
        push_all(&mut out, &f[st..f.len()]);
        out.push(',');
        out.push('"');
        push_all(&mut out, f);
        out.push('"');
        out.push('\n');
        assert(out@ =~= before + csv_row((i + 1) as nat, f@, count as nat));
        i = i + 1;
    }
    assert(out@ =~= csv_text(pv));
    string_of(out.as_slice())
}

} // verus!

verus! {

/// Index of the row with the largest count; the last such row on a tie.
pub fn peak_row(rows: &Vec<(String, usize)>) -> (r: Option<usize>)
    ensures
        rows@.len() == 0 ==> r is None,
        r matches Some(p) ==> p < rows@.len() && (forall|k: int|
            0 <= k < rows@.len() ==> rows@[k].1 <= rows@[p as int].1) && (forall|k: int|
            p < k < rows@.len() ==> rows@[k].1 < rows@[p as int].1),
        rows@.len() > 0 ==> r is Some,
{
    if rows.len() == 0 {
        return None;
    }
    let mut best: usize = 0;
    let mut i: usize = 1;
    while i < rows.len()
        invariant
            1 <= i <= rows@.len(),
            best < i,
            forall|k: int| 0 <= k < i ==> rows@[k].1 <= rows@[best as int].1,
            forall|k: int| best < k < i ==> rows@[k].1 < rows@[best as int].1,
        decreases rows@.len() - i,
    {
        if rows[i].1 >= rows[best].1 {
            best = i;
        }
        i = i + 1;
    }
    Some(best)
}

} // verus!

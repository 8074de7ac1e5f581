//! Splitting a log into entries and aggregating their fields.
use vstd::prelude::*;
use vstd::string::StringExecFns;
use crate::category::{categorize_target, label_of, path_category};
use crate::conv::{char_vec, lowercase, lower_of, string_of};
use crate::field::{field_span, field_value, views};
use crate::hour::{hour_in, hour_of};
use crate::tally::{bump, Tally};
use crate::text::{
    after_last, after_last_start, contains, contains_chars, find_chars, find_from, last_index_of,
    lemma_find_from, trim, trim_bounds,
};

verus! {

/// Length of the run of `>` that separates entries.
pub const SEPARATOR_LEN: usize = 60;

/// The separator between entries: sixty `>`.
pub open spec fn separator() -> Seq<char> {
    Seq::new(SEPARATOR_LEN as nat, |i: int| '>')
}

/// Anchor naming the product; an entry must hold it.
pub open spec fn product_anchor() -> Seq<char> {
    "SGuard"@
}

/// Anchor before the scanned file's path; an entry must hold it.
pub open spec fn file_anchor() -> Seq<char> {
    "操作文件："@
}

/// Anchor before the scanning process's path.
pub open spec fn process_anchor() -> Seq<char> {
    "操作进程："@
}

/// Anchor before the triggered rule's name.
pub open spec fn rule_anchor() -> Seq<char> {
    "触犯规则："@
}

/// Marker of an attempt that was blocked.
pub open spec fn blocked_marker() -> Seq<char> {
    "操作结果：已阻止"@
}

/// Terminators of the file path.
pub open spec fn file_terms() -> Seq<Seq<char>> {
    seq!["操作结果："@, "操作类型："@, "\r\n"@, "\n"@]
}

/// Terminators of the process path.
pub open spec fn process_terms() -> Seq<Seq<char>> {
    seq!["操作进程命令行："@, "操作类型："@, "\r\n"@, "\n"@]
}

/// Terminators of the rule name.
pub open spec fn rule_terms() -> Seq<Seq<char>> {
    seq!["操作类型："@, "\r\n"@, "\n"@]
}

/// Key counted for a path without an extension.
pub open spec fn no_extension() -> Seq<char> {
    "no-extension"@
}

/// Key counted for a process path with no name segment.
pub open spec fn unknown_process() -> Seq<char> {
    "unknown"@
}

/// The segments of `s` from `pos` on, cut at each separator.
pub open spec fn split_from(s: Seq<char>, pos: int) -> Seq<Seq<char>>
    decreases s.len() + 1 - pos,
{
    match find_from(s, separator(), pos) {
        Some(j) => if pos <= j && j + SEPARATOR_LEN <= s.len() {
            seq![s.subrange(pos, j)] + split_from(s, j + SEPARATOR_LEN)
        } else {
            seq![s.subrange(pos, s.len() as int)]
        },
        None => seq![s.subrange(pos, s.len() as int)],
    }
}

/// A segment is an entry when it holds both the product and the file anchor.
pub open spec fn is_entry(seg: Seq<char>) -> bool {
    contains(seg, product_anchor()) && contains(seg, file_anchor())
}

/// A field's value trimmed, kept when something is left.
pub open spec fn trimmed(v: Option<Seq<char>>) -> Option<Seq<char>> {
    match v {
        Some(x) => if trim(x).len() > 0 {
            Some(trim(x))
        } else {
            None
        },
        None => None,
    }
}

/// The scanned file's path in an entry.
pub open spec fn file_key(e: Seq<char>) -> Option<Seq<char>> {
    trimmed(field_value(e, file_anchor(), file_terms()))
}

/// The rule's name in an entry.
pub open spec fn rule_key(e: Seq<char>) -> Option<Seq<char>> {
    trimmed(field_value(e, rule_anchor(), rule_terms()))
}

/// The process's name in an entry: the last `\`-separated segment of its path.
pub open spec fn process_key(e: Seq<char>) -> Option<Seq<char>> {
    match field_value(e, process_anchor(), process_terms()) {
        Some(p) => {
            let name = trim(after_last(p, '\\'));
            Some(
                if name.len() > 0 {
                    name
                } else {
                    unknown_process()
                },
            )
        },
        None => None,
    }
}

/// The extension key of a path: what follows its last `.`, lower-cased.
pub open spec fn extension_key(path: Seq<char>) -> Seq<char> {
    if last_index_of(path, '.') >= 0 && after_last(path, '.').len() > 0 {
        lower_of(after_last(path, '.'))
    } else {
        no_extension()
    }
}

/// The aggregate of a log, as mathematical values.
pub struct StatsModel {
    pub total: nat,
    pub blocked: nat,
    pub files: Map<Seq<char>, nat>,
    pub processes: Map<Seq<char>, nat>,
    pub rules: Map<Seq<char>, nat>,
    pub extensions: Map<Seq<char>, nat>,
    pub categories: Map<Seq<char>, nat>,
    pub hours: Seq<nat>,
}

/// The aggregate of no entries.
pub open spec fn empty_model() -> StatsModel {
    StatsModel {
        total: 0,
        blocked: 0,
        files: Map::empty(),
        processes: Map::empty(),
        rules: Map::empty(),
        extensions: Map::empty(),
        categories: Map::empty(),
        hours: Seq::new(24, |i: int| 0nat),
    }
}

pub open spec fn bump_opt(m: Map<Seq<char>, nat>, k: Option<Seq<char>>) -> Map<Seq<char>, nat> {
    match k {
        Some(x) => bump(m, x),
        None => m,
    }
}

/// The aggregate once entry `e` is counted.
pub open spec fn entry_step(m: StatsModel, e: Seq<char>) -> StatsModel {
    let f = file_key(e);
    StatsModel {
        total: m.total + 1,
        blocked: if contains(e, blocked_marker()) {
            m.blocked + 1
        } else {
            m.blocked
        },
        files: bump_opt(m.files, f),
        processes: bump_opt(m.processes, process_key(e)),
        rules: bump_opt(m.rules, rule_key(e)),
        extensions: match f {
            Some(p) => bump(m.extensions, extension_key(p)),
            None => m.extensions,
        },
        categories: match f {
            Some(p) => bump(m.categories, label_of(path_category(p))),
            None => m.categories,
        },
        hours: match hour_of(e) {
            Some(h) => m.hours.update(h as int, m.hours[h as int] + 1),
            None => m.hours,
        },
    }
}

/// The aggregate once segment `seg` is seen: unchanged unless it is an entry.
pub open spec fn segment_step(m: StatsModel, seg: Seq<char>) -> StatsModel {
    if is_entry(seg) {
        entry_step(m, seg)
    } else {
        m
    }
}

/// The aggregate once the segments are seen in order.
pub open spec fn fold_segments(m: StatsModel, segs: Seq<Seq<char>>) -> StatsModel
    decreases segs.len(),
{
    if segs.len() == 0 {
        m
    } else {
        fold_segments(segment_step(m, segs[0]), segs.drop_first())
    }
}

/// The aggregate of a whole log.
pub open spec fn log_stats(text: Seq<char>) -> StatsModel {
    fold_segments(empty_model(), split_from(text, 0))
}

/// No count exceeds the number of entries.
pub open spec fn bounded(m: StatsModel) -> bool {
    &&& m.blocked <= m.total
    &&& forall|k: Seq<char>| m.files.contains_key(k) ==> #[trigger] m.files[k] <= m.total
    &&& forall|k: Seq<char>| m.processes.contains_key(k) ==> #[trigger] m.processes[k] <= m.total
    &&& forall|k: Seq<char>| m.rules.contains_key(k) ==> #[trigger] m.rules[k] <= m.total
    &&& forall|k: Seq<char>| m.extensions.contains_key(k) ==> #[trigger] m.extensions[k] <= m.total
    &&& forall|k: Seq<char>| m.categories.contains_key(k) ==> #[trigger] m.categories[k] <= m.total
    &&& m.hours.len() == 24
    &&& forall|h: int| 0 <= h < 24 ==> #[trigger] m.hours[h] <= m.total
}

} // verus!

verus! {

/// Counts gathered from a log: attempts, blocked attempts, and occurrences of
/// each file, process, rule, extension, category and hour.
pub struct AceScanStats {
    pub total_attempts: usize,
    pub blocked_attempts: usize,
    pub unique_files: Tally,
    pub processes: Tally,
    pub rules_triggered: Tally,
    pub file_extensions: Tally,
    pub target_categories: Tally,
    /// Entries per hour of day, indexed by hour.
    pub hour_counts: Vec<usize>,
}

impl View for AceScanStats {
    type V = StatsModel;

    open spec fn view(&self) -> StatsModel {
        StatsModel {
            total: self.total_attempts as nat,
            blocked: self.blocked_attempts as nat,
            files: self.unique_files@,
            processes: self.processes@,
            rules: self.rules_triggered@,
            extensions: self.file_extensions@,
            categories: self.target_categories@,
            hours: self.hour_counts@.map_values(|c: usize| c as nat),
        }
    }
}

impl AceScanStats {
    pub open spec fn wf(&self) -> bool {
        &&& self.unique_files.wf()
        &&& self.processes.wf()
        &&& self.rules_triggered.wf()
        &&& self.file_extensions.wf()
        &&& self.target_categories.wf()
        &&& self.hour_counts.len() == 24
    }

    /// Counts of no entries.
    pub fn new() -> (r: AceScanStats)
        ensures
            r.wf(),
            r@ == empty_model(),
    {
        let mut hours: Vec<usize> = Vec::new();
        let mut h: usize = 0;
        while h < 24
            invariant
                h <= 24,
                hours@.len() == h,
                forall|i: int| 0 <= i < h ==> hours@[i] == 0,
            decreases 24 - h,
        {
            hours.push(0);
            h = h + 1;
        }
        let r = AceScanStats {
            total_attempts: 0,
            blocked_attempts: 0,
            unique_files: Tally::new(),
            processes: Tally::new(),
            rules_triggered: Tally::new(),
            file_extensions: Tally::new(),
            target_categories: Tally::new(),
            hour_counts: hours,
        };
        assert(r@.hours =~= empty_model().hours);
        r
    }
}

/// The anchors and terminators, as characters.
struct Anchors {
    sep: Vec<char>,
    product: Vec<char>,
    file: Vec<char>,
    process: Vec<char>,
    rule: Vec<char>,
    blocked: Vec<char>,
    file_terms: Vec<Vec<char>>,
    process_terms: Vec<Vec<char>>,
    rule_terms: Vec<Vec<char>>,
}

impl Anchors {
    spec fn valid(&self) -> bool {
        &&& self.sep@ == separator()
        &&& self.product@ == product_anchor()
        &&& self.file@ == file_anchor()
        &&& self.process@ == process_anchor()
        &&& self.rule@ == rule_anchor()
        &&& self.blocked@ == blocked_marker()
        &&& views(self.file_terms@) == file_terms()
        &&& views(self.process_terms@) == process_terms()
        &&& views(self.rule_terms@) == rule_terms()
    }

    fn new() -> (r: Anchors)
        ensures
            r.valid(),
    {
        let mut sep: Vec<char> = Vec::new();
        let mut i: usize = 0;
        while i < SEPARATOR_LEN
            invariant
                i <= SEPARATOR_LEN,
                sep@.len() == i,
                forall|k: int| 0 <= k < i ==> sep@[k] == '>',
            decreases SEPARATOR_LEN - i,
        {
            sep.push('>');
            i = i + 1;
        }
        assert(sep@ =~= separator());
        let mut ft: Vec<Vec<char>> = Vec::new();
        ft.push(char_vec("操作结果："));
        ft.push(char_vec("操作类型："));
        ft.push(char_vec("\r\n"));
        ft.push(char_vec("\n"));
        assert(views(ft@) =~= file_terms());
        let mut pt: Vec<Vec<char>> = Vec::new();
        pt.push(char_vec("操作进程命令行："));
        pt.push(char_vec("操作类型："));
        pt.push(char_vec("\r\n"));
        pt.push(char_vec("\n"));
        assert(views(pt@) =~= process_terms());
        let mut rt: Vec<Vec<char>> = Vec::new();
        rt.push(char_vec("操作类型："));
        rt.push(char_vec("\r\n"));
        rt.push(char_vec("\n"));
        assert(views(rt@) =~= rule_terms());
        Anchors {
            sep,
            product: char_vec("SGuard"),
            file: char_vec("操作文件："),
            process: char_vec("操作进程："),
            rule: char_vec("触犯规则："),
            blocked: char_vec("操作结果：已阻止"),
            file_terms: ft,
            process_terms: pt,
            rule_terms: rt,
        }
    }
}

/// A field's value with whitespace trimmed, when something is left.
fn trimmed_field<'a>(seg: &'a [char], prefix: &[char], terms: &Vec<Vec<char>>) -> (r: Option<
    &'a [char],
>)
    ensures
        match r {
            Some(v) => trimmed(field_value(seg@, prefix@, views(terms@))) == Some(v@),
            None => trimmed(field_value(seg@, prefix@, views(terms@))) is None,
        },
{
    proof {
        crate::field::lemma_field_bounds(seg@, prefix@, views(terms@));
    }
    match field_span(seg, prefix, terms) {
        None => None,
        Some((x, y)) => {
            let v = &seg[x..y];
            let (p, q) = trim_bounds(v);
            if p < q {
                Some(&v[p..q])
            } else {
                None
            }
        },
    }
}

/// The name of the process in an entry.
fn process_name(seg: &[char], a: &Anchors) -> (r: Option<String>)
    requires
        a.valid(),
    ensures
        match r {
            Some(v) => process_key(seg@) == Some(v@),
            None => process_key(seg@) is None,
        },
{
    proof {
        crate::field::lemma_field_bounds(seg@, process_anchor(), process_terms());
    }
    match field_span(seg, a.process.as_slice(), &a.process_terms) {
        None => None,
        Some((x, y)) => {
            let v = &seg[x..y];
            let st = after_last_start(v, '\\');
            let name = &v[st..v.len()];
            assert(name@ == after_last(v@, '\\'));
            let (p, q) = trim_bounds(name);
            if p < q {
                Some(string_of(&name[p..q]))
            } else {
                Some(String::from_str("unknown"))
            }
        },
    }
}

/// The extension key of a path.
fn extension_of(path: &[char]) -> (r: String)
    ensures
        r@ == extension_key(path@),
{
    let st = after_last_start(path, '.');
    if st > 0 && st < path.len() {
        let e = string_of(&path[st..path.len()]);
        lowercase(e.as_str())
    } else {
        String::from_str("no-extension")
    }
}

} // verus!

verus! {

/// Counting one more entry keeps every count within the number of entries.
proof fn lemma_step_bounded(m: StatsModel, e: Seq<char>)
    requires
        bounded(m),
    ensures
        bounded(entry_step(m, e)),
{
    let n = entry_step(m, e);
    assert forall|h: int| 0 <= h < 24 implies #[trigger] n.hours[h] <= n.total by {
        if let Some(x) = hour_of(e) {
            if h == x {
            }
        }
    }
}

/// Count entry `seg` into `stats`.
fn record_entry(stats: &mut AceScanStats, seg: &[char], a: &Anchors)
    requires
        old(stats).wf(),
        bounded(old(stats)@),
        old(stats)@.total < usize::MAX,
        a.valid(),
    ensures
        final(stats).wf(),
        final(stats)@ == entry_step(old(stats)@, seg@),
        bounded(final(stats)@),
{
    let ghost m = stats@;
    proof {
        lemma_step_bounded(m, seg@);
    }
    stats.total_attempts = stats.total_attempts + 1;
    match trimmed_field(seg, a.file.as_slice(), &a.file_terms) {
        Some(path) => {
            let key = string_of(path);
            let ext = extension_of(path);
            categorize_target(key.as_str(), &mut stats.target_categories);
            assert(m.files.contains_key(key@) ==> m.files[key@] <= m.total);
            stats.unique_files.increment(key);
            assert(m.extensions.contains_key(ext@) ==> m.extensions[ext@] <= m.total);
            stats.file_extensions.increment(ext);
        },
        None => {},
    }
    match process_name(seg, a) {
        Some(name) => {
            assert(m.processes.contains_key(name@) ==> m.processes[name@] <= m.total);
            stats.processes.increment(name);
        },
        None => {},
    }
    match trimmed_field(seg, a.rule.as_slice(), &a.rule_terms) {
        Some(rule) => {
            let key = string_of(rule);
            assert(m.rules.contains_key(key@) ==> m.rules[key@] <= m.total);
            stats.rules_triggered.increment(key);
        },
        None => {},
    }
    if contains_chars(seg, a.blocked.as_slice()) {
        stats.blocked_attempts = stats.blocked_attempts + 1;
    }
    match hour_in(seg) {
        Some(h) => {
            let hu = h as usize;
            assert(m.hours[hu as int] <= m.total);
            let c = stats.hour_counts[hu];
            stats.hour_counts.set(hu, c + 1);
            assert(stats@.hours =~= m.hours.update(hu as int, m.hours[hu as int] + 1));
        },
        None => {},
    }
    assert(stats@ == entry_step(m, seg@));
}

/// Split `logs` into entries on the separator, keep those that hold both the
/// product anchor and the file anchor, and count each one's fields.
pub fn parse_ace_logs_precise(logs: &str) -> (r: AceScanStats)
    ensures
        r.wf(),
        r@ == log_stats(logs@),
        r.blocked_attempts <= r.total_attempts,
{
    let chars = char_vec(logs);
    let s = chars.as_slice();
    let a = Anchors::new();
    let mut stats = AceScanStats::new();
    let mut pos: usize = 0;
    proof {
        reveal_strlit("SGuard");
    }
    loop
        invariant
            pos <= s.len(),
            s@ == logs@,
            stats.wf(),
            bounded(stats@),
            stats@.total <= pos,
            a.valid(),
            fold_segments(stats@, split_from(s@, pos as int)) == log_stats(logs@),
        decreases s.len() - pos,
    {
        let found = find_chars(s, a.sep.as_slice(), pos);
        proof {
            lemma_find_from(s@, separator(), pos as int);
        }
        let end: usize = match found {
            Some(j) => j,
            None => s.len(),
        };
        let seg = &s[pos..end];
        let ghost segs = split_from(s@, pos as int);
        let ghost before = stats@;
        let ghost rest = match found {
            Some(j) => split_from(s@, j + SEPARATOR_LEN),
            None => Seq::<Seq<char>>::empty(),
        };
        assert(segs =~= seq![seg@] + rest);
        assert(segs[0] == seg@);
        assert(segs.drop_first() =~= rest);
        if contains_chars(seg, a.product.as_slice()) && contains_chars(seg, a.file.as_slice()) {
            proof {
                reveal_strlit("SGuard");
                lemma_find_from(seg@, product_anchor(), 0);
                assert(seg@.len() >= 6);
            }
            record_entry(&mut stats, seg, &a);
        }
        assert(stats@ == segment_step(before, seg@));
        assert(fold_segments(before, segs) == fold_segments(stats@, rest));
        match found {
            None => {
                assert(fold_segments(stats@, rest) == stats@);
                return stats;
            },
            Some(j) => {
                pos = j + SEPARATOR_LEN;
            },
        }
    }
}

} // verus!

verus! {

/// The decimal digit `d`.
pub open spec fn digit_char(d: int) -> char {
    seq!['0', '1', '2', '3', '4', '5', '6', '7', '8', '9'][d]
}

/// The label of hour `h`, `HH:00-HH:59`.
pub open spec fn hour_label(h: int) -> Seq<char> {
    seq![
        digit_char(h / 10),
        digit_char(h % 10),
        ':',
        '0',
        '0',
        '-',
        digit_char(h / 10),
        digit_char(h % 10),
        ':',
        '5',
        '9',
    ]
}

/// The hours below `n` that were seen, with their labels and counts, in order.
pub open spec fn hour_rows(hours: Seq<nat>, n: int) -> Seq<(Seq<char>, nat)>
    decreases n,
{
    if n <= 0 {
        Seq::empty()
    } else {
        hour_rows(hours, n - 1) + if hours[n - 1] > 0 {
            seq![(hour_label(n - 1), hours[n - 1])]
        } else {
            Seq::empty()
        }
    }
}

/// Labels and counts as plain sequences.
pub open spec fn row_views(r: Seq<(String, usize)>) -> Seq<(Seq<char>, nat)> {
    r.map_values(|p: (String, usize)| (p.0@, p.1 as nat))
}

/// The label of hour `h`, `HH:00-HH:59`.
pub fn hour_label_string(h: usize) -> (r: String)
    requires
        h < 24,
    ensures
        r@ == hour_label(h as int),
{
    let digits = ['0', '1', '2', '3', '4', '5', '6', '7', '8', '9'];
    let hi = digits[h / 10];
    let lo = digits[h % 10];
    let mut v: Vec<char> = Vec::new();
    v.push(hi);
    v.push(lo);
    v.push(':');
    v.push('0');
    v.push('0');
    v.push('-');
    v.push(hi);
    v.push(lo);
    v.push(':');
    v.push('5');
    v.push('9');
    assert(v@ =~= hour_label(h as int));
    string_of(v.as_slice())
}

impl AceScanStats {
    /// The hours seen, in order, each with its label and count.
    pub fn time_distribution(&self) -> (r: Vec<(String, usize)>)
        requires
            self.wf(),
        ensures
            row_views(r@) == hour_rows(self@.hours, 24),
    {
        let mut r: Vec<(String, usize)> = Vec::new();
        let mut h: usize = 0;
        while h < 24
            invariant
                h <= 24,
                self.wf(),
                row_views(r@) == hour_rows(self@.hours, h as int),
            decreases 24 - h,
        {
            let c = self.hour_counts[h];
            if c > 0 {
                let label = hour_label_string(h);
                let ghost before = r@;
                r.push((label, c));
                assert(row_views(r@) =~= row_views(before) + seq![(hour_label(h as int), c as nat)]);
            }
            assert(self@.hours[h as int] == c as nat);
            h = h + 1;
        }
        r
    }
}

} // verus!

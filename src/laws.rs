//! Properties of the aggregate of a log.
use vstd::prelude::*;
use crate::stats::{
    blocked_marker, bounded, empty_model, entry_step, file_key, fold_segments, is_entry,
    log_stats, segment_step, StatsModel,
};
use crate::text::contains;

verus! {

/// Seeing segments in order keeps every count within the number of entries.
pub proof fn lemma_fold_bounded(m: StatsModel, segs: Seq<Seq<char>>)
    requires
        bounded(m),
    ensures
        bounded(fold_segments(m, segs)),
    decreases segs.len(),
{
    if segs.len() > 0 {
        if is_entry(segs[0]) {
            let n = entry_step(m, segs[0]);
            assert forall|h: int| 0 <= h < 24 implies #[trigger] n.hours[h] <= n.total by {
            }
        }
        lemma_fold_bounded(segment_step(m, segs[0]), segs.drop_first());
    }
}

/// For every log, the blocked attempts are at most all attempts.
pub proof fn lemma_blocked_within_total(text: Seq<char>)
    ensures
        log_stats(text).blocked <= log_stats(text).total,
{
    lemma_fold_bounded(empty_model(), crate::stats::split_from(text, 0));
}

/// A segment without the product anchor or the file anchor changes nothing,
/// wherever it stands among the others: no attempt, no count.
pub proof fn lemma_non_entry_ignored(
    m: StatsModel,
    segs: Seq<Seq<char>>,
    i: int,
    seg: Seq<char>,
)
    requires
        0 <= i <= segs.len(),
        !is_entry(seg),
    ensures
        fold_segments(m, segs.insert(i, seg)) == fold_segments(m, segs),
    decreases segs.len(),
{
    let s2 = segs.insert(i, seg);
    if i == 0 {
        assert(s2[0] == seg);
        assert(s2.drop_first() =~= segs);
    } else {
        assert(s2[0] == segs[0]);
        assert(s2.drop_first() =~= segs.drop_first().insert(i - 1, seg));
        lemma_non_entry_ignored(segment_step(m, segs[0]), segs.drop_first(), i - 1, seg);
    }
}

/// Number of segments that hold the blocked marker.
pub open spec fn blocked_count(segs: Seq<Seq<char>>) -> nat
    decreases segs.len(),
{
    if segs.len() == 0 {
        0
    } else {
        (if contains(segs[0], blocked_marker()) {
            1nat
        } else {
            0nat
        }) + blocked_count(segs.drop_first())
    }
}

/// Over entries only: every one is an attempt, and the blocked ones are
/// those with the marker; entries with distinct new file paths each add a file.
pub proof fn lemma_entries_counted(m: StatsModel, segs: Seq<Seq<char>>)
    requires
        forall|i: int| 0 <= i < segs.len() ==> is_entry(#[trigger] segs[i]),
    ensures
        fold_segments(m, segs).total == m.total + segs.len(),
        fold_segments(m, segs).blocked == m.blocked + blocked_count(segs),
        m.files.dom().finite() && (forall|i: int|
            0 <= i < segs.len() ==> #[trigger] file_key(segs[i]) is Some && !m.files.contains_key(
                file_key(segs[i])->0,
            )) && (forall|i: int, j: int|
            0 <= i < j < segs.len() ==> file_key(segs[i]) != file_key(segs[j]))
            ==> fold_segments(m, segs).files.dom().finite() && fold_segments(m, segs).files.dom().len()
            == m.files.dom().len() + segs.len(),
    decreases segs.len(),
{
    if segs.len() > 0 {
        let rest = segs.drop_first();
        let n = segment_step(m, segs[0]);
        assert(is_entry(segs[0]));
        assert forall|i: int| 0 <= i < rest.len() implies is_entry(#[trigger] rest[i]) by {
            assert(rest[i] == segs[i + 1]);
        }
        lemma_entries_counted(n, rest);
        if m.files.dom().finite() && (forall|i: int|
            0 <= i < segs.len() ==> #[trigger] file_key(segs[i]) is Some && !m.files.contains_key(
                file_key(segs[i])->0,
            )) && (forall|i: int, j: int|
            0 <= i < j < segs.len() ==> file_key(segs[i]) != file_key(segs[j])) {
            let k0 = file_key(segs[0])->0;
            assert(file_key(segs[0]) is Some);
            assert(n.files.dom() =~= m.files.dom().insert(k0));
            vstd::set::axiom_set_insert_len(m.files.dom(), k0);
            assert forall|i: int| 0 <= i < rest.len() implies #[trigger] file_key(rest[i]) is Some
                && !n.files.contains_key(file_key(rest[i])->0) by {
                assert(rest[i] == segs[i + 1]);
                assert(file_key(segs[0]) != file_key(segs[i + 1]));
                assert(file_key(segs[i + 1]) is Some);
            }
            assert forall|i: int, j: int| 0 <= i < j < rest.len() implies file_key(rest[i])
                != file_key(rest[j]) by {
                assert(rest[i] == segs[i + 1]);
                assert(rest[j] == segs[j + 1]);
            }
        }
    }
}

/// When the marker stands in every other segment, starting with the second
/// (or the first, for `p == 1`), half of them are counted.
pub proof fn lemma_alternating_blocked(segs: Seq<Seq<char>>, p: int)
    requires
        p == 0 || p == 1,
        forall|i: int|
            0 <= i < segs.len() ==> (contains(#[trigger] segs[i], blocked_marker()) <==> (i + p) % 2
                == 1),
    ensures
        blocked_count(segs) == (segs.len() + p) / 2,
    decreases segs.len(),
{
    if segs.len() > 0 {
        let rest = segs.drop_first();
        assert(contains(segs[0], blocked_marker()) <==> p == 1);
        assert forall|i: int| 0 <= i < rest.len() implies (contains(
            #[trigger] rest[i],
            blocked_marker(),
        ) <==> (i + (1 - p)) % 2 == 1) by {
            assert(rest[i] == segs[i + 1]);
        }
        lemma_alternating_blocked(rest, 1 - p);
    }
}

/// A log of `N` entries with distinct file paths, the blocked marker in every
/// other one from the second on: `N` attempts, `N / 2` blocked, `N` files.
pub proof fn lemma_round_trip(segs: Seq<Seq<char>>)
    requires
        forall|i: int| 0 <= i < segs.len() ==> is_entry(#[trigger] segs[i]),
        forall|i: int| 0 <= i < segs.len() ==> (#[trigger] file_key(segs[i])) is Some,
        forall|i: int, j: int| 0 <= i < j < segs.len() ==> file_key(segs[i]) != file_key(segs[j]),
        forall|i: int|
            0 <= i < segs.len() ==> (contains(#[trigger] segs[i], blocked_marker()) <==> i % 2
                == 1),
    ensures
        fold_segments(empty_model(), segs).total == segs.len(),
        fold_segments(empty_model(), segs).blocked == segs.len() / 2,
        fold_segments(empty_model(), segs).files.dom().len() == segs.len(),
{
    assert forall|i: int| 0 <= i < segs.len() implies (contains(
        #[trigger] segs[i],
        blocked_marker(),
    ) <==> (i + 0) % 2 == 1) by {}
    lemma_alternating_blocked(segs, 0);
    assert(empty_model().files.dom() =~= Set::<Seq<char>>::empty());
    lemma_entries_counted(empty_model(), segs);
}

/// Parsing is a function of the text: the same text gives the same counts,
/// and the same hour rows in the same order.
pub proof fn lemma_parse_deterministic(a: Seq<char>, b: Seq<char>)
    requires
        a == b,
    ensures
        log_stats(a) == log_stats(b),
        crate::stats::hour_rows(log_stats(a).hours, 24) == crate::stats::hour_rows(
            log_stats(b).hours,
            24,
        ),
{
}

} // verus!

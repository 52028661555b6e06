//! The dominant tempo of a timeline.
//!
//! Each tempo-defining point starts a stretch that lasts until the next
//! tempo-defining point; the last stretch is open and counts for nothing.
//! The time each tempo covers is summed up in a map from tempo to time, and
//! the tempo that covers the most time is the dominant one; of tempi that
//! cover the same time, the largest.

use crate::error::ConvertError;
use crate::fixed::div_round;
use crate::fixed::div_round_i64;
use crate::fixed::lemma_div_round_nearest;
use crate::osu::TimingPoint;
use std::collections::BTreeMap;
use vstd::prelude::*;

verus! {

broadcast use {vstd::std_specs::btree::group_btree_axioms, vstd::laws_cmp::group_laws_cmp};

/// Thousandths of a beat per minute, times milliseconds per beat in steps:
/// 60 000 ms × 1000 × 10 000.
pub const MILLIBEAT_STEPS: i64 = 600_000_000_000;

/// Whether a point defines the tempo.
pub open spec fn is_tempo(p: TimingPoint) -> bool {
    p.ms_per_beat > 0
}

/// The tempo of a beat length given in steps, in thousandths of a beat per
/// minute, rounded to the nearest.
pub open spec fn bpm_of(ms_per_beat: int) -> int
    recommends
        ms_per_beat > 0,
{
    div_round(600_000_000_000, ms_per_beat)
}

/// Whether the points are in ascending order of offset.
pub open spec fn ordered(points: Seq<TimingPoint>) -> bool {
    forall|i: int, j: int| 0 <= i <= j < points.len() ==> points[i].offset <= points[j].offset
}

/// The index of the last tempo-defining point among the first `n` points.
pub open spec fn last_tempo(points: Seq<TimingPoint>, n: int) -> Option<int>
    decreases n,
{
    if n <= 0 {
        None
    } else if is_tempo(points[n - 1]) {
        Some(n - 1)
    } else {
        last_tempo(points, n - 1)
    }
}

/// The time that point `i` adds to the tempo `key`: if it defines a tempo
/// it ends the stretch of the tempo-defining point before it, and that
/// stretch counts for `key` if it had that tempo.
pub open spec fn closed_span(points: Seq<TimingPoint>, key: int, i: int) -> int {
    if is_tempo(points[i]) {
        match last_tempo(points, i) {
            Some(j) => if bpm_of(points[j].ms_per_beat as int) == key {
                points[i].offset - points[j].offset
            } else {
                0
            },
            None => 0,
        }
    } else {
        0
    }
}

/// The time that the tempo `key` covers within the first `n` points.
pub open spec fn coverage(points: Seq<TimingPoint>, key: int, n: int) -> int
    decreases n,
{
    if n <= 0 {
        0
    } else {
        coverage(points, key, n - 1) + closed_span(points, key, n - 1)
    }
}

/// Whether some tempo-defining point of the timeline has the tempo `key`.
pub open spec fn has_tempo(points: Seq<TimingPoint>, key: int) -> bool {
    exists|i: int|
        0 <= i < points.len() && is_tempo(#[trigger] points[i]) && bpm_of(
            points[i].ms_per_beat as int,
        ) == key
}

/// Whether the timeline holds a tempo-defining point at all.
pub open spec fn has_any_tempo(points: Seq<TimingPoint>) -> bool {
    exists|i: int| 0 <= i < points.len() && is_tempo(#[trigger] points[i])
}

/// Whether `key` is the dominant tempo: a tempo of the timeline such that
/// no tempo of the timeline covers more time, and none that covers as much
/// is larger.
pub open spec fn is_dominant(points: Seq<TimingPoint>, key: int) -> bool {
    &&& has_tempo(points, key)
    &&& forall|j: int|
        0 <= j < points.len() && is_tempo(#[trigger] points[j]) ==> {
            let other = bpm_of(points[j].ms_per_beat as int);
            let n = points.len() as int;
            coverage(points, other, n) < coverage(points, key, n) || (coverage(points, other, n)
                == coverage(points, key, n) && other <= key)
        }
}

/// A timeline has at most one dominant tempo.
pub proof fn lemma_dominant_unique(points: Seq<TimingPoint>, a: int, b: int)
    requires
        is_dominant(points, a),
        is_dominant(points, b),
    ensures
        a == b,
{
    let i = choose|i: int|
        0 <= i < points.len() && is_tempo(#[trigger] points[i]) && bpm_of(
            points[i].ms_per_beat as int,
        ) == a;
    let j = choose|j: int|
        0 <= j < points.len() && is_tempo(#[trigger] points[j]) && bpm_of(
            points[j].ms_per_beat as int,
        ) == b;
    assert(is_tempo(points[i]));
    assert(is_tempo(points[j]));
}

/// In an ordered timeline a tempo covers no negative time, and no more than
/// lies between the first point and the last tempo-defining one.
pub proof fn lemma_coverage_bound(points: Seq<TimingPoint>, key: int, n: int)
    requires
        ordered(points),
        0 <= n <= points.len(),
    ensures
        0 <= coverage(points, key, n),
        match last_tempo(points, n) {
            Some(j) => 0 <= j < n && is_tempo(points[j]) && coverage(points, key, n)
                <= points[j].offset - points[0].offset,
            None => coverage(points, key, n) == 0,
        },
    decreases n,
{
    if n > 0 {
        lemma_coverage_bound(points, key, n - 1);
    }
}

/// The tempo of a beat length given in steps, in thousandths of a beat per
/// minute.
pub fn bpm_key(ms_per_beat: i32) -> (key: i64)
    requires
        ms_per_beat > 0,
    ensures
        key == bpm_of(ms_per_beat as int),
        0 <= key <= 600_000_000_000,
{
    proof {
        lemma_div_round_nearest(600_000_000_000, ms_per_beat as int);
    }
    div_round_i64(MILLIBEAT_STEPS, ms_per_beat as i64)
}

/// Whether the points are in ascending order of offset.
pub fn is_ordered(points: &Vec<TimingPoint>) -> (b: bool)
    ensures
        b == ordered(points@),
{
    let n: usize = points.len();
    let mut i: usize = 1;
    while i < n
        invariant
            n == points.len(),
            1 <= i,
            forall|a: int, b: int| 0 <= a <= b < i && b < n ==> points[a].offset <= points[b].offset,
        decreases n - i,
    {
        if points[i - 1].offset > points[i].offset {
            return false;
        }
        i += 1;
    }
    true
}

/// Whether one of the first `n` points defines the tempo `key`.
pub open spec fn occurs(points: Seq<TimingPoint>, key: int, n: int) -> bool
    decreases n,
{
    n > 0 && (occurs(points, key, n - 1) || (is_tempo(points[n - 1]) && bpm_of(
        points[n - 1].ms_per_beat as int,
    ) == key))
}

/// Whether `totals` holds, for each tempo that the first `n` points define,
/// the time that it covers within them, and nothing else.
pub open spec fn is_histogram(totals: Map<i64, u64>, points: Seq<TimingPoint>, n: int) -> bool {
    &&& forall|key: i64| #[trigger] totals.contains_key(key) <==> occurs(points, key as int, n)
    &&& forall|key: i64|
        totals.contains_key(key) ==> #[trigger] totals[key] == coverage(points, key as int, n)
}

/// A tempo occurs among the first points exactly if one of them defines
/// it.
pub proof fn lemma_occurs(points: Seq<TimingPoint>, key: int, n: int)
    requires
        0 <= n <= points.len(),
    ensures
        occurs(points, key, n) <==> exists|j: int|
            0 <= j < n && is_tempo(#[trigger] points[j]) && bpm_of(points[j].ms_per_beat as int)
                == key,
    decreases n,
{
    if n > 0 {
        lemma_occurs(points, key, n - 1);
        if occurs(points, key, n - 1) {
            let j = choose|j: int|
                0 <= j < n - 1 && is_tempo(#[trigger] points[j]) && bpm_of(
                    points[j].ms_per_beat as int,
                ) == key;
            assert(0 <= j < n && is_tempo(points[j]));
        } else if occurs(points, key, n) {
            assert(is_tempo(points[n - 1]));
        } else {
            assert forall|j: int| 0 <= j < n && is_tempo(#[trigger] points[j]) implies bpm_of(
                points[j].ms_per_beat as int,
            ) != key by {
                if j < n - 1 {
                    assert(is_tempo(points[j]));
                }
            }
        }
    }
}

/// The tempo of the last tempo-defining point occurs.
proof fn lemma_last_tempo_occurs(points: Seq<TimingPoint>, n: int)
    requires
        0 <= n <= points.len(),
    ensures
        match last_tempo(points, n) {
            Some(j) => occurs(points, bpm_of(points[j].ms_per_beat as int), n),
            None => true,
        },
    decreases n,
{
    if n > 0 {
        lemma_last_tempo_occurs(points, n - 1);
    }
}

/// A tempo that does not occur covers no time.
proof fn lemma_unseen_covers_nothing(points: Seq<TimingPoint>, key: int, n: int)
    requires
        0 <= n <= points.len(),
        !occurs(points, key, n),
    ensures
        coverage(points, key, n) == 0,
    decreases n,
{
    if n > 0 {
        lemma_unseen_covers_nothing(points, key, n - 1);
        lemma_last_tempo_occurs(points, n - 1);
    }
}

/// The time that each tempo of the timeline covers.
pub fn build_histogram(points: &Vec<TimingPoint>) -> (totals: BTreeMap<i64, u64>)
    requires
        ordered(points@),
    ensures
        is_histogram(totals@, points@, points.len() as int),
{
    let n: usize = points.len();
    let mut totals: BTreeMap<i64, u64> = BTreeMap::new();
    // The offset and the tempo of the last tempo-defining point so far.
    let mut last: Option<(i64, i64)> = None;
    let mut i: usize = 0;
    while i < n
        invariant
            n == points.len(),
            ordered(points@),
            i <= n,
            is_histogram(totals@, points@, i as int),
            match last {
                Some((offset, tempo)) => match last_tempo(points@, i as int) {
                    Some(j) => 0 <= j < i && offset == points[j].offset && tempo == bpm_of(
                        points[j].ms_per_beat as int,
                    ),
                    None => false,
                },
                None => last_tempo(points@, i as int).is_none(),
            },
        decreases n - i,
    {
        let p: TimingPoint = points[i];
        if p.ms_per_beat > 0 {
            let key: i64 = bpm_key(p.ms_per_beat);
            let ghost before = totals@;
            proof {
                lemma_last_tempo_occurs(points@, i as int);
                if !occurs(points@, key as int, i as int) {
                    lemma_unseen_covers_nothing(points@, key as int, i as int);
                }
            }
            if !totals.contains_key(&key) {
                totals.insert(key, 0);
            }
            let ghost opened = totals@;
            match last {
                Some((offset, tempo)) => {
                    proof {
                        lemma_coverage_bound(points@, tempo as int, i as int);
                        lemma_coverage_bound(points@, tempo as int, i as int + 1);
                    }
                    let so_far: u64 = match totals.get(&tempo) {
                        Some(total) => *total,
                        None => 0,
                    };
                    let span: u64 = ((p.offset as i128) - (offset as i128)) as u64;
                    totals.insert(tempo, so_far + span);
                },
                None => {},
            }
            last = Some((p.offset, key));
            proof {
                assert forall|k: i64| #[trigger]
                    totals@.contains_key(k) <==> occurs(points@, k as int, i as int + 1) by {
                    assert(before.contains_key(k) <==> occurs(points@, k as int, i as int));
                }
                assert forall|k: i64| totals@.contains_key(k) implies #[trigger] totals@[k]
                    == coverage(points@, k as int, i as int + 1) by {
                    if before.contains_key(k) {
                        assert(before[k] == coverage(points@, k as int, i as int));
                    }
                }
            }
        }
        i += 1;
    }
    totals
}

/// The dominant tempo of a timeline, in thousandths of a beat per minute.
///
/// Fails when the timeline holds no tempo-defining point, as an empty one
/// does.
pub fn find_dominant_bpm(points: &Vec<TimingPoint>) -> (r: Result<i64, ConvertError>)
    requires
        ordered(points@),
    ensures
        r is Ok <==> has_any_tempo(points@),
        match r {
            Ok(key) => is_dominant(points@, key as int),
            Err(e) => e == ConvertError::EmptyTimeline,
        },
{
    let totals: BTreeMap<i64, u64> = build_histogram(points);
    // The best tempo so far and the time that it covers.
    let mut best: Option<(i64, u64)> = None;
    for entry in entries: totals.iter()
        invariant
            forall|key: i64|
                totals@.contains_key(key) ==> #[trigger] entries.seq().contains(
                    (&key, &totals@[key]),
                ),
            match best {
                Some((key, total)) => {
                    &&& totals@.contains_key(key)
                    &&& totals@[key] == total
                    &&& forall|j: int|
                        0 <= j < entries.index() ==> {
                            let seen = #[trigger] entries.seq()[j];
                            *seen.1 < total || (*seen.1 == total && *seen.0 <= key)
                        }
                },
                None => entries.index() == 0,
            },
    {
        let key: i64 = *entry.0;
        let total: u64 = *entry.1;
        let better: bool = match best {
            Some((best_key, best_total)) => total > best_total || (total == best_total && key
                > best_key),
            None => true,
        };
        if better {
            best = Some((key, total));
        }
    }
    proof {
        let n = points@.len() as int;
        assert forall|j: int| 0 <= j < n && is_tempo(#[trigger] points@[j]) implies totals@.contains_key(
            bpm_of(points@[j].ms_per_beat as int) as i64,
        ) by {
            lemma_occurs(points@, bpm_of(points@[j].ms_per_beat as int), n);
            crate::fixed::lemma_div_round_nearest(600_000_000_000, points@[j].ms_per_beat as int);
        }
    }
    match best {
        Some((key, _)) => {
            proof {
                let n = points@.len() as int;
                lemma_occurs(points@, key as int, n);
                assert forall|j: int| 0 <= j < n && is_tempo(#[trigger] points@[j]) implies {
                    let other = bpm_of(points@[j].ms_per_beat as int);
                    coverage(points@, other, n) < coverage(points@, key as int, n) || (coverage(
                        points@,
                        other,
                        n,
                    ) == coverage(points@, key as int, n) && other <= key as int)
                } by {
                    let other = bpm_of(points@[j].ms_per_beat as int) as i64;
                    crate::fixed::lemma_div_round_nearest(
                        600_000_000_000,
                        points@[j].ms_per_beat as int,
                    );
                    assert(totals@.contains_key(other));
                }
            }
            Ok(key)
        },
        None => {
            proof {
                if has_any_tempo(points@) {
                    let j = choose|j: int| 0 <= j < points@.len() && is_tempo(#[trigger] points@[j]);
                    assert(is_tempo(points@[j]));
                }
            }
            Err(ConvertError::EmptyTimeline)
        },
    }
}

} // verus!

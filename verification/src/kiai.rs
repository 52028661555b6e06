//! The highlighted ("kiai") stretches of a timeline.
//!
//! The timeline is read once with a flag that starts off. A point with the
//! mode on, met while the flag is off, opens a stretch at its offset; a
//! point with the mode off, met while the flag is on, closes it at its own
//! offset. A stretch still open after the last point is closed at the last
//! point's offset.

use crate::osu::TimingPoint;
use crate::tempo::ordered;
use vstd::prelude::*;

verus! {

/// The offset at which the stretch that is open after the first `n` points
/// began, if one is open.
pub open spec fn open_start(points: Seq<TimingPoint>, n: int) -> Option<i64>
    decreases n,
{
    if n <= 0 {
        None
    } else if points[n - 1].kiai_mode {
        match open_start(points, n - 1) {
            Some(s) => Some(s),
            None => Some(points[n - 1].offset),
        }
    } else {
        None
    }
}

/// The stretches that the first `n` points have closed, in order.
pub open spec fn closed_intervals(points: Seq<TimingPoint>, n: int) -> Seq<(i64, i64)>
    decreases n,
{
    if n <= 0 {
        Seq::empty()
    } else {
        match open_start(points, n - 1) {
            Some(s) => if points[n - 1].kiai_mode {
                closed_intervals(points, n - 1)
            } else {
                closed_intervals(points, n - 1).push((s, points[n - 1].offset))
            },
            None => closed_intervals(points, n - 1),
        }
    }
}

/// The highlighted stretches of a timeline as pairs of start and end, in
/// order.
pub open spec fn kiai_intervals(points: Seq<TimingPoint>) -> Seq<(i64, i64)> {
    let n = points.len() as int;
    match open_start(points, n) {
        Some(s) => closed_intervals(points, n).push((s, points[n - 1].offset)),
        None => closed_intervals(points, n),
    }
}

/// Whether each stretch ends no earlier than it starts and starts no
/// earlier than the one before it ends.
pub open spec fn disjoint_ascending(intervals: Seq<(i64, i64)>) -> bool {
    &&& forall|k: int| 0 <= k < intervals.len() ==> (#[trigger] intervals[k]).0 <= intervals[k].1
    &&& forall|k: int, l: int|
        0 <= k < l < intervals.len() ==> (#[trigger] intervals[k]).1 <= (#[trigger] intervals[l]).0
}

/// What holds of the scan of an ordered timeline after `n` points: the
/// closed stretches are disjoint and ascending, they end no later than the
/// last point read, and an open stretch starts no earlier than they end.
proof fn lemma_scan_ordered(points: Seq<TimingPoint>, n: int)
    requires
        ordered(points),
        0 <= n <= points.len(),
    ensures
        disjoint_ascending(closed_intervals(points, n)),
        forall|k: int|
            0 <= k < closed_intervals(points, n).len() ==> n > 0 && (
            #[trigger] closed_intervals(points, n)[k]).1 <= points[n - 1].offset,
        match open_start(points, n) {
            Some(s) => n > 0 && s <= points[n - 1].offset && forall|k: int|
                0 <= k < closed_intervals(points, n).len() ==> (#[trigger] closed_intervals(
                    points,
                    n,
                )[k]).1 <= s,
            None => true,
        },
    decreases n,
{
    if n > 0 {
        lemma_scan_ordered(points, n - 1);
        let before = closed_intervals(points, n - 1);
        let now = closed_intervals(points, n);
        if n > 1 {
            assert(points[n - 2].offset <= points[n - 1].offset);
        }
        assert forall|k: int| 0 <= k < now.len() implies (#[trigger] now[k]).1 <= points[n
            - 1].offset by {
            if k < before.len() {
                assert(now[k] == before[k]);
            }
        }
        assert forall|k: int| 0 <= k < now.len() implies (#[trigger] now[k]).0 <= now[k].1 by {
            if k < before.len() {
                assert(now[k] == before[k]);
            }
        }
        assert forall|k: int, l: int| 0 <= k < l < now.len() implies (#[trigger] now[k]).1 <= (
        #[trigger] now[l]).0 by {
            assert(now[k] == before[k]);
            if l < before.len() {
                assert(now[l] == before[l]);
            }
        }
        match open_start(points, n) {
            Some(s) => {
                assert forall|k: int| 0 <= k < now.len() implies (#[trigger] now[k]).1 <= s by {
                    assert(now =~= before);
                }
            },
            None => {},
        }
    }
}

/// The stretches of an ordered timeline do not overlap and are in ascending
/// order: each ends no earlier than it starts, and starts no earlier than
/// the one before it ends.
pub proof fn lemma_kiai_disjoint_ascending(points: Seq<TimingPoint>)
    requires
        ordered(points),
    ensures
        disjoint_ascending(kiai_intervals(points)),
        forall|k: int, l: int|
            0 <= k <= l < kiai_intervals(points).len() ==> (#[trigger] kiai_intervals(points)[k]).0
                <= (#[trigger] kiai_intervals(points)[l]).0,
{
    let n = points.len() as int;
    lemma_scan_ordered(points, n);
    let closed = closed_intervals(points, n);
    let all = kiai_intervals(points);
    assert forall|k: int| 0 <= k < all.len() implies (#[trigger] all[k]).0 <= all[k].1 by {
        if k < closed.len() {
            assert(all[k] == closed[k]);
        }
    }
    assert forall|k: int, l: int| 0 <= k < l < all.len() implies (#[trigger] all[k]).1 <= (
    #[trigger] all[l]).0 by {
        assert(all[k] == closed[k]);
        if l < closed.len() {
            assert(all[l] == closed[l]);
        }
    }
    assert forall|k: int, l: int| 0 <= k <= l < all.len() implies (#[trigger] all[k]).0 <= (
    #[trigger] all[l]).0 by {
        if k < l {
            assert(all[k].0 <= all[k].1);
            assert(all[k].1 <= all[l].0);
        }
    }
}

/// Whether the offsets of the points strictly ascend.
pub open spec fn strictly_ordered(points: Seq<TimingPoint>) -> bool {
    forall|i: int, j: int| 0 <= i < j < points.len() ==> points[i].offset < points[j].offset
}

/// What holds of the scan of a strictly ordered timeline after `n`
/// points: the closed stretches are not empty, each starts after the one
/// before it has ended, they end no later than the last point read, and
/// an open stretch starts after they have ended.
proof fn lemma_scan_strict(points: Seq<TimingPoint>, n: int)
    requires
        strictly_ordered(points),
        0 <= n <= points.len(),
    ensures
        forall|k: int|
            0 <= k < closed_intervals(points, n).len() ==> n > 0 && (#[trigger] closed_intervals(
                points,
                n,
            )[k]).0 < closed_intervals(points, n)[k].1 && closed_intervals(points, n)[k].1
                <= points[n - 1].offset,
        forall|k: int, l: int|
            0 <= k < l < closed_intervals(points, n).len() ==> (#[trigger] closed_intervals(
                points,
                n,
            )[k]).1 < (#[trigger] closed_intervals(points, n)[l]).0,
        match open_start(points, n) {
            Some(s) => n > 0 && s <= points[n - 1].offset && (s == points[n - 1].offset
                <==> open_start(points, n - 1).is_none()) && forall|k: int|
                0 <= k < closed_intervals(points, n).len() ==> (#[trigger] closed_intervals(
                    points,
                    n,
                )[k]).1 < s,
            None => true,
        },
    decreases n,
{
    if n > 0 {
        lemma_scan_strict(points, n - 1);
        let before = closed_intervals(points, n - 1);
        let now = closed_intervals(points, n);
        if n > 1 {
            assert(points[n - 2].offset < points[n - 1].offset);
        }
        assert forall|k: int| 0 <= k < now.len() implies (#[trigger] now[k]).0 < now[k].1
            && now[k].1 <= points[n - 1].offset by {
            if k < before.len() {
                assert(now[k] == before[k]);
            }
        }
        assert forall|k: int, l: int| 0 <= k < l < now.len() implies (#[trigger] now[k]).1 < (
        #[trigger] now[l]).0 by {
            assert(now[k] == before[k]);
            if l < before.len() {
                assert(now[l] == before[l]);
            }
        }
        match open_start(points, n) {
            Some(s) => {
                assert(now =~= before);
                assert forall|k: int| 0 <= k < now.len() implies (#[trigger] now[k]).1 < s by {
                    assert(now[k] == before[k]);
                }
            },
            None => {},
        }
    }
}

/// In a timeline whose offsets strictly ascend, each stretch starts after
/// the one before it has ended, and each is longer than nothing, but for
/// the last one where the mode came on with the last point and the stretch
/// was closed there.
pub proof fn lemma_kiai_strictly_ascending(points: Seq<TimingPoint>)
    requires
        strictly_ordered(points),
    ensures
        forall|k: int, l: int|
            0 <= k < l < kiai_intervals(points).len() ==> (#[trigger] kiai_intervals(points)[k]).1
                < (#[trigger] kiai_intervals(points)[l]).0,
        forall|k: int|
            0 <= k < kiai_intervals(points).len() - 1 ==> (#[trigger] kiai_intervals(points)[k]).0
                < kiai_intervals(points)[k].1,
        kiai_intervals(points).len() > 0 ==> {
            let last = kiai_intervals(points).last();
            let n = points.len() as int;
            &&& last.0 <= last.1
            &&& last.0 == last.1 <==> open_start(points, n).is_some() && open_start(
                points,
                n - 1,
            ).is_none()
        },
{
    let n = points.len() as int;
    lemma_scan_strict(points, n);
    let closed = closed_intervals(points, n);
    let all = kiai_intervals(points);
    assert forall|k: int, l: int| 0 <= k < l < all.len() implies (#[trigger] all[k]).1 < (
    #[trigger] all[l]).0 by {
        assert(all[k] == closed[k]);
        if l < closed.len() {
            assert(all[l] == closed[l]);
        }
    }
    assert forall|k: int| 0 <= k < all.len() - 1 implies (#[trigger] all[k]).0 < all[k].1 by {
        assert(all[k] == closed[k]);
    }
    if all.len() > 0 {
        if open_start(points, n).is_none() {
            assert(all.last() == closed[closed.len() - 1]);
        }
    }
}

/// Whether one of the first `n` points has the mode on and the offset `v`.
pub open spec fn on_at(points: Seq<TimingPoint>, n: int, v: i64) -> bool {
    exists|a: int| 0 <= a < n && (#[trigger] points[a]).kiai_mode && points[a].offset == v
}

/// Whether one of the first `n` points has the mode off and the offset `v`.
pub open spec fn off_at(points: Seq<TimingPoint>, n: int, v: i64) -> bool {
    exists|b: int| 0 <= b < n && !(#[trigger] points[b]).kiai_mode && points[b].offset == v
}

/// Every closed stretch starts at the offset of a point that has the mode
/// on and ends at the offset of a point that has it off; an open stretch
/// starts at the offset of a point that has the mode on.
pub proof fn lemma_kiai_bounds_are_offsets(points: Seq<TimingPoint>, n: int)
    requires
        0 <= n <= points.len(),
    ensures
        forall|k: int|
            0 <= k < closed_intervals(points, n).len() ==> on_at(
                points,
                n,
                (#[trigger] closed_intervals(points, n)[k]).0,
            ) && off_at(points, n, closed_intervals(points, n)[k].1),
        match open_start(points, n) {
            Some(s) => on_at(points, n, s),
            None => true,
        },
    decreases n,
{
    if n > 0 {
        lemma_kiai_bounds_are_offsets(points, n - 1);
        let before = closed_intervals(points, n - 1);
        let now = closed_intervals(points, n);
        let p = points[n - 1];
        assert forall|v: i64| on_at(points, n - 1, v) implies on_at(points, n, v) by {
            let a = choose|a: int|
                0 <= a < n - 1 && (#[trigger] points[a]).kiai_mode && points[a].offset == v;
            assert(0 <= a < n && points[a].kiai_mode && points[a].offset == v);
        }
        assert forall|v: i64| off_at(points, n - 1, v) implies off_at(points, n, v) by {
            let b = choose|b: int|
                0 <= b < n - 1 && !(#[trigger] points[b]).kiai_mode && points[b].offset == v;
            assert(0 <= b < n && !points[b].kiai_mode && points[b].offset == v);
        }
        if p.kiai_mode {
            assert(on_at(points, n, p.offset));
        } else {
            assert(off_at(points, n, p.offset));
        }
        assert forall|k: int| 0 <= k < now.len() implies on_at(points, n, (#[trigger] now[k]).0)
            && off_at(points, n, now[k].1) by {
            if k < before.len() {
                assert(now[k] == before[k]);
            }
        }
    }
}

/// The highlighted stretches of a timeline as pairs of start and end
/// offset, in order.
pub fn find_kiai_intervals(points: &Vec<TimingPoint>) -> (intervals: Vec<(i64, i64)>)
    ensures
        intervals@ == kiai_intervals(points@),
{
    let n: usize = points.len();
    let mut intervals: Vec<(i64, i64)> = Vec::new();
    let mut start: Option<i64> = None;
    let mut i: usize = 0;
    while i < n
        invariant
            n == points.len(),
            i <= n,
            intervals@ == closed_intervals(points@, i as int),
            start == open_start(points@, i as int),
        decreases n - i,
    {
        let p: TimingPoint = points[i];
        match start {
            Some(s) => {
                if !p.kiai_mode {
                    intervals.push((s, p.offset));
                    start = None;
                }
            },
            None => {
                if p.kiai_mode {
                    start = Some(p.offset);
                }
            },
        }
        i += 1;
    }
    match start {
        Some(s) => {
            intervals.push((s, points[n - 1].offset));
        },
        None => {},
    }
    intervals
}

} // verus!

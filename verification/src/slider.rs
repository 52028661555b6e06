//! How long a slider lasts.
//!
//! A slider's length in beats is its length in pixels over the pixels that
//! one beat covers: `100 * slider_multiplier * velocity`, where `velocity`
//! comes from the last velocity point at or before the slider and is `1`
//! without one. One pass over the path lasts that many beats of the tempo
//! at the slider, cut down to whole milliseconds; the tempo is that of the
//! last tempo-defining point at or before the slider, and without one a
//! beat is taken to last one millisecond.
//!
//! A point is at or before a slider when its offset is no later than the
//! slider's time plus one step. The point in force is the last such point
//! in the order of the timeline, whatever the offsets of the others. In
//! an ordered timeline a [`Cursor`] finds the same points for times that
//! ascend without going over the timeline again each time.

use crate::osu::Slider;
use crate::osu::TimingPoint;
use crate::tempo::ordered;
use vstd::prelude::*;

verus! {

/// The velocity value that stands for a multiplier of one: `100` in steps.
pub const UNIT_VELOCITY: i64 = 1_000_000;

/// The beat length taken where no tempo is known: one millisecond in steps.
pub const UNIT_BEAT: i64 = 10_000;

/// Whether the point is one that a lookup at `time` (whole milliseconds)
/// considers: a tempo-defining point if `tempo`, else a velocity point, at
/// or before `time`.
pub open spec fn qualifies(p: TimingPoint, time: int, tempo: bool) -> bool {
    &&& p.offset <= time * 10_000 + 1
    &&& if tempo {
        p.ms_per_beat > 0
    } else {
        p.ms_per_beat < 0
    }
}

/// The index of the last of the first `n` points that qualifies.
pub open spec fn last_qualifying(points: Seq<TimingPoint>, time: int, tempo: bool, n: int) -> Option<
    int,
>
    decreases n,
{
    if n <= 0 {
        None
    } else if qualifies(points[n - 1], time, tempo) {
        Some(n - 1)
    } else {
        last_qualifying(points, time, tempo, n - 1)
    }
}

/// The velocity value in force at `time`: the negated beat length of the
/// last velocity point at or before it, which is `100 / multiplier` in
/// steps.
pub open spec fn velocity_at(points: Seq<TimingPoint>, time: int) -> int {
    match last_qualifying(points, time, false, points.len() as int) {
        Some(j) => -(points[j].ms_per_beat as int),
        None => 1_000_000,
    }
}

/// The length of a beat at `time`, in steps of a millisecond.
pub open spec fn beat_length_at(points: Seq<TimingPoint>, time: int) -> int {
    match last_qualifying(points, time, true, points.len() as int) {
        Some(j) => points[j].ms_per_beat as int,
        None => 10_000,
    }
}

/// Whether a slider of `pixels` at velocity value `velocity` is longer than
/// `limit` beats by more than one step. The slider measures
/// `pixels * velocity / (multiplier * 10^4)` steps of a beat.
pub open spec fn beats_exceed(pixels: int, velocity: int, multiplier: int, limit: int) -> bool {
    pixels * velocity > (limit + 1) * multiplier * 10_000
}

/// Whether a slider of `pixels` at velocity value `velocity` is no longer
/// than `limit` beats.
pub open spec fn beats_within(pixels: int, velocity: int, multiplier: int, limit: int) -> bool {
    pixels * velocity <= limit * multiplier * 10_000
}

/// The whole milliseconds that one pass over the slider lasts, the
/// fraction dropped, and no more than `i32::MAX`. With a multiplier of
/// zero a slider of some length never ends: its pass lasts `i32::MAX`.
pub open spec fn span_ms(pixels: int, velocity: int, beat: int, multiplier: int) -> int {
    let travelled = pixels * velocity * beat;
    if multiplier <= 0 {
        if travelled > 0 {
            i32::MAX as int
        } else {
            0
        }
    } else {
        let exact = travelled / (multiplier * 1_000_000_000_000);
        if exact > i32::MAX {
            i32::MAX as int
        } else {
            exact
        }
    }
}

/// Whether the slider is longer than `limit` beats by more than one step.
pub open spec fn slider_is_long(
    slider: Slider,
    points: Seq<TimingPoint>,
    multiplier: int,
    limit: int,
) -> bool {
    beats_exceed(
        slider.pixel_length as int,
        velocity_at(points, slider.time as int),
        multiplier,
        limit,
    )
}

/// The whole milliseconds that the slider lasts: one pass times the number
/// of passes.
pub open spec fn slider_duration(slider: Slider, points: Seq<TimingPoint>, multiplier: int) -> int {
    span_ms(
        slider.pixel_length as int,
        velocity_at(points, slider.time as int),
        beat_length_at(points, slider.time as int),
        multiplier,
    ) * slider.repeat
}

/// `last_qualifying` gives a point that qualifies and that no qualifying
/// point follows, and gives none only where no point qualifies.
pub proof fn lemma_last_qualifying(points: Seq<TimingPoint>, time: int, tempo: bool, n: int)
    requires
        0 <= n <= points.len(),
    ensures
        match last_qualifying(points, time, tempo, n) {
            Some(j) => 0 <= j < n && qualifies(points[j], time, tempo) && forall|k: int|
                j < k < n ==> !qualifies(#[trigger] points[k], time, tempo),
            None => forall|k: int| 0 <= k < n ==> !qualifies(#[trigger] points[k], time, tempo),
        },
    decreases n,
{
    if n > 0 {
        lemma_last_qualifying(points, time, tempo, n - 1);
    }
}

/// A slider that is no longer than the limit is not longer than it by more
/// than a step.
pub proof fn lemma_within_is_not_exceeding(pixels: int, velocity: int, multiplier: int, limit: int)
    requires
        multiplier >= 0,
        beats_within(pixels, velocity, multiplier, limit),
    ensures
        !beats_exceed(pixels, velocity, multiplier, limit),
{
    assert((limit + 1) * multiplier * 10_000 == limit * multiplier * 10_000 + multiplier * 10_000)
        by (nonlinear_arith);
}

/// The last of the points that qualifies at `time`.
fn find_last(points: &Vec<TimingPoint>, time: i32, tempo: bool) -> (r: Option<usize>)
    ensures
        match r {
            Some(j) => last_qualifying(points@, time as int, tempo, points.len() as int) == Some(
                j as int,
            ) && j < points.len(),
            None => last_qualifying(points@, time as int, tempo, points.len() as int).is_none(),
        },
{
    let n: usize = points.len();
    let latest: i64 = (time as i64) * 10_000 + 1;
    let mut found: Option<usize> = None;
    let mut i: usize = 0;
    while i < n
        invariant
            n == points.len(),
            i <= n,
            latest == time * 10_000 + 1,
            match found {
                Some(j) => last_qualifying(points@, time as int, tempo, i as int) == Some(j as int)
                    && j < i,
                None => last_qualifying(points@, time as int, tempo, i as int).is_none(),
            },
        decreases n - i,
    {
        let p: TimingPoint = points[i];
        let signed: bool = if tempo {
            p.ms_per_beat > 0
        } else {
            p.ms_per_beat < 0
        };
        if p.offset <= latest && signed {
            found = Some(i);
        }
        i += 1;
    }
    found
}

/// The velocity value in force at `time` (whole milliseconds).
pub fn velocity_steps(points: &Vec<TimingPoint>, time: i32) -> (v: i64)
    ensures
        v == velocity_at(points@, time as int),
        1 <= v <= 0x8000_0000,
{
    match find_last(points, time, false) {
        Some(j) => {
            proof {
                lemma_last_qualifying(points@, time as int, false, points.len() as int);
            }
            -(points[j].ms_per_beat as i64)
        },
        None => UNIT_VELOCITY,
    }
}

/// The length of a beat at `time` (whole milliseconds), in steps.
pub fn beat_length_steps(points: &Vec<TimingPoint>, time: i32) -> (b: i64)
    ensures
        b == beat_length_at(points@, time as int),
        1 <= b <= 0x7fff_ffff,
{
    match find_last(points, time, true) {
        Some(j) => {
            proof {
                lemma_last_qualifying(points@, time as int, true, points.len() as int);
            }
            points[j].ms_per_beat as i64
        },
        None => UNIT_BEAT,
    }
}

/// Whether a slider of `pixels` at velocity value `velocity` is longer than
/// `limit` beats by more than one step.
pub fn exceeds(pixels: u32, velocity: i64, multiplier: u32, limit: i32) -> (b: bool)
    requires
        1 <= velocity <= 0x8000_0000,
    ensures
        b == beats_exceed(pixels as int, velocity as int, multiplier as int, limit as int),
{
    let wide_pixels: i128 = pixels as i128;
    let wide_velocity: i128 = velocity as i128;
    assert(0 <= wide_pixels * wide_velocity <= 0xffff_ffff * 0x8000_0000) by (nonlinear_arith)
        requires
            0 <= wide_pixels <= 0xffff_ffff,
            0 <= wide_velocity <= 0x8000_0000,
    ;
    let length: i128 = wide_pixels * wide_velocity;
    let bound: i128 = (limit as i128) + 1;
    let wide_multiplier: i128 = multiplier as i128;
    assert(-0x8000_0000 * 0xffff_ffff <= bound * wide_multiplier <= 0x8000_0000 * 0xffff_ffff)
        by (nonlinear_arith)
        requires
            -0x8000_0000 <= bound <= 0x8000_0000,
            0 <= wide_multiplier <= 0xffff_ffff,
    ;
    let scaled: i128 = bound * wide_multiplier * 10_000;
    length > scaled
}

/// The whole milliseconds that one pass over a slider lasts.
pub fn span(pixels: u32, velocity: i64, beat: i64, multiplier: u32) -> (ms: i64)
    requires
        1 <= velocity <= 0x8000_0000,
        1 <= beat <= 0x7fff_ffff,
    ensures
        ms == span_ms(pixels as int, velocity as int, beat as int, multiplier as int),
        0 <= ms <= 0x7fff_ffff,
{
    let wide_pixels: u128 = pixels as u128;
    let wide_velocity: u128 = velocity as u128;
    let wide_beat: u128 = beat as u128;
    assert(wide_pixels * wide_velocity <= 0xffff_ffff * 0x8000_0000) by (nonlinear_arith)
        requires
            0 <= wide_pixels <= 0xffff_ffff,
            0 <= wide_velocity <= 0x8000_0000,
    ;
    let length: u128 = wide_pixels * wide_velocity;
    assert(length * wide_beat <= 0xffff_ffff * 0x8000_0000 * 0x7fff_ffff) by (nonlinear_arith)
        requires
            0 <= length <= 0xffff_ffff * 0x8000_0000,
            0 <= wide_beat <= 0x7fff_ffff,
    ;
    let travelled: u128 = length * wide_beat;
    if multiplier == 0 {
        if travelled > 0 {
            0x7fff_ffff
        } else {
            0
        }
    } else {
        let exact: u128 = travelled / ((multiplier as u128) * 1_000_000_000_000);
        if exact > 0x7fff_ffff {
            0x7fff_ffff
        } else {
            exact as i64
        }
    }
}

/// The whole milliseconds of `passes` passes of `span` milliseconds each.
pub fn all_passes(span: i64, passes: i32) -> (ms: i64)
    requires
        0 <= span <= 0x7fff_ffff,
    ensures
        ms == span * passes,
        -0x8000_0000 * 0x7fff_ffff <= ms <= 0x7fff_ffff * 0x7fff_ffff,
{
    let wide_passes: i64 = passes as i64;
    assert(-0x8000_0000 * 0x7fff_ffff <= span * wide_passes <= 0x7fff_ffff * 0x7fff_ffff)
        by (nonlinear_arith)
        requires
            0 <= span <= 0x7fff_ffff,
            -0x8000_0000 <= wide_passes <= 0x7fff_ffff,
    ;
    span * wide_passes
}

/// Whether the slider is longer than `limit` beats by more than one step.
pub fn is_long(slider: &Slider, points: &Vec<TimingPoint>, multiplier: u32, limit: i32) -> (b: bool)
    ensures
        b == slider_is_long(*slider, points@, multiplier as int, limit as int),
{
    exceeds(slider.pixel_length, velocity_steps(points, slider.time), multiplier, limit)
}

/// The whole milliseconds that the slider lasts, all its passes together.
pub fn resolve(slider: &Slider, points: &Vec<TimingPoint>, slider_multiplier: u32) -> (duration: i64)
    ensures
        duration == slider_duration(*slider, points@, slider_multiplier as int),
        -0x8000_0000 * 0x7fff_ffff <= duration <= 0x7fff_ffff * 0x7fff_ffff,
{
    let velocity: i64 = velocity_steps(points, slider.time);
    let beat: i64 = beat_length_steps(points, slider.time);
    all_passes(span(slider.pixel_length, velocity, beat, slider_multiplier), slider.repeat)
}

/// A place in an ordered timeline from which the points in force are
/// looked up for times that never go back: each point is passed once,
/// however many lookups are made.
pub struct Cursor {
    /// The time of the latest lookup.
    time: i32,
    /// How many points have been passed: all of them are at or before
    /// `time`.
    passed: usize,
    /// The last tempo-defining point among those passed.
    tempo: Option<usize>,
    /// The last velocity point among those passed.
    velocity: Option<usize>,
}

/// Whether an index found is the one that the lookup gives.
pub open spec fn is_found(found: Option<usize>, given: Option<int>) -> bool {
    match found {
        Some(j) => given == Some(j as int),
        None => given.is_none(),
    }
}

impl Cursor {
    /// The time of the latest lookup.
    pub closed spec fn time(&self) -> int {
        self.time as int
    }

    /// Whether the cursor stands in `points` at its time: it has passed
    /// the points at or before that time and no others, and holds the last
    /// tempo-defining point and the last velocity point among them.
    pub closed spec fn stands_in(&self, points: Seq<TimingPoint>) -> bool {
        &&& self.passed <= points.len()
        &&& forall|i: int|
            0 <= i < self.passed ==> (#[trigger] points[i]).offset <= self.time * 10_000 + 1
        &&& is_found(self.tempo, last_qualifying(points, self.time as int, true, self.passed as int))
        &&& is_found(
            self.velocity,
            last_qualifying(points, self.time as int, false, self.passed as int),
        )
    }

    /// Whether the cursor has passed every point at or before its time.
    pub closed spec fn is_current(&self, points: Seq<TimingPoint>) -> bool {
        self.passed < points.len() ==> points[self.passed as int].offset > self.time * 10_000 + 1
    }

    /// A cursor before the first point, at the earliest time.
    pub fn new() -> (cursor: Cursor)
        ensures
            cursor.time() == i32::MIN,
            forall|points: Seq<TimingPoint>| #[trigger] cursor.stands_in(points),
    {
        Cursor { time: i32::MIN, passed: 0, tempo: None, velocity: None }
    }

    /// Moves on to `time`, which is not before the time of the latest
    /// lookup.
    pub fn advance(&mut self, points: &Vec<TimingPoint>, time: i32)
        requires
            ordered(points@),
            old(self).stands_in(points@),
            old(self).time() <= time,
        ensures
            final(self).stands_in(points@),
            final(self).is_current(points@),
            final(self).time() == time,
    {
        proof {
            lemma_later_lookup(points@, self.time as int, time as int, true, self.passed as int);
            lemma_later_lookup(points@, self.time as int, time as int, false, self.passed as int);
        }
        let latest: i64 = (time as i64) * 10_000 + 1;
        self.time = time;
        while self.passed < points.len() && points[self.passed].offset <= latest
            invariant
                latest == time * 10_000 + 1,
                self.time == time,
                self.stands_in(points@),
            decreases points.len() - self.passed,
        {
            let p: TimingPoint = points[self.passed];
            if p.ms_per_beat > 0 {
                self.tempo = Some(self.passed);
            } else if p.ms_per_beat < 0 {
                self.velocity = Some(self.passed);
            }
            self.passed = self.passed + 1;
        }
    }

    /// The velocity value in force at the cursor's time.
    pub fn velocity_steps(&self, points: &Vec<TimingPoint>) -> (v: i64)
        requires
            ordered(points@),
            self.stands_in(points@),
            self.is_current(points@),
        ensures
            v == velocity_at(points@, self.time()),
            1 <= v <= 0x8000_0000,
    {
        proof {
            lemma_lookup_ends(points@, self.time as int, false, self.passed as int);
            lemma_last_qualifying(points@, self.time as int, false, points.len() as int);
        }
        match self.velocity {
            Some(j) => -(points[j].ms_per_beat as i64),
            None => UNIT_VELOCITY,
        }
    }

    /// The length of a beat at the cursor's time, in steps.
    pub fn beat_length_steps(&self, points: &Vec<TimingPoint>) -> (b: i64)
        requires
            ordered(points@),
            self.stands_in(points@),
            self.is_current(points@),
        ensures
            b == beat_length_at(points@, self.time()),
            1 <= b <= 0x7fff_ffff,
    {
        proof {
            lemma_lookup_ends(points@, self.time as int, true, self.passed as int);
            lemma_last_qualifying(points@, self.time as int, true, points.len() as int);
        }
        match self.tempo {
            Some(j) => points[j].ms_per_beat as i64,
            None => UNIT_BEAT,
        }
    }
}

/// Among points that are at or before a time, a lookup at a later time
/// finds what the lookup at that time finds.
proof fn lemma_later_lookup(
    points: Seq<TimingPoint>,
    time: int,
    later: int,
    tempo: bool,
    n: int,
)
    requires
        0 <= n <= points.len(),
        time <= later,
        forall|i: int| 0 <= i < n ==> (#[trigger] points[i]).offset <= time * 10_000 + 1,
    ensures
        last_qualifying(points, later, tempo, n) == last_qualifying(points, time, tempo, n),
    decreases n,
{
    if n > 0 {
        assert(points[n - 1].offset <= time * 10_000 + 1);
        lemma_later_lookup(points, time, later, tempo, n - 1);
    }
}

/// In an ordered timeline a lookup finds nothing behind the first point
/// that is later than its time.
proof fn lemma_lookup_ends(points: Seq<TimingPoint>, time: int, tempo: bool, n: int)
    requires
        ordered(points),
        0 <= n <= points.len(),
        n < points.len() ==> points[n].offset > time * 10_000 + 1,
    ensures
        last_qualifying(points, time, tempo, points.len() as int) == last_qualifying(
            points,
            time,
            tempo,
            n,
        ),
{
    lemma_lookup_stops(points, time, tempo, n, points.len() as int);
}

/// A lookup among the first `m` points finds nothing behind the first `n`
/// where the points from `n` on are later than its time.
proof fn lemma_lookup_stops(points: Seq<TimingPoint>, time: int, tempo: bool, n: int, m: int)
    requires
        ordered(points),
        0 <= n <= m <= points.len(),
        n < points.len() ==> points[n].offset > time * 10_000 + 1,
    ensures
        last_qualifying(points, time, tempo, m) == last_qualifying(points, time, tempo, n),
    decreases m,
{
    if m > n {
        assert(points[n].offset <= points[m - 1].offset);
        lemma_lookup_stops(points, time, tempo, n, m - 1);
    }
}

} // verus!

//! The two lanes of notes that the hit objects become.
//!
//! The objects are read in order with one lane active, the left one at
//! first. An object that starts a new combo switches the active lane
//! before it is encoded itself. A hit circle becomes a tap, or a reverse
//! tap where its hitsound covers the configured mask. A slider becomes a
//! hold from its time to its time plus its duration where it is longer than
//! the limit, and a tap otherwise. A hold note becomes a hold. A spinner
//! becomes a hold in the active lane, in both lanes or nowhere, as
//! configured.
//!
//! A lane is written out as its notes joined by `|`, each note as
//! `time:kind:0`.

use crate::convert::SpinnerBehaviour;
use crate::osu::HitObject;
use crate::osu::Slider;
use crate::osu::TimingPoint;
use crate::slider::all_passes;
use crate::slider::beat_length_at;
use crate::slider::beats_exceed;
use crate::slider::beats_within;
use crate::slider::exceeds;
use crate::slider::is_long;
use crate::slider::lemma_within_is_not_exceeding;
use crate::slider::resolve;
use crate::slider::slider_duration;
use crate::slider::slider_is_long;
use crate::slider::span;
use crate::slider::span_ms;
use crate::slider::Cursor;
use crate::slider::velocity_at;
use crate::tempo::is_ordered;
use crate::tempo::ordered;
use crate::text::decimal;
use crate::text::is_digit;
use crate::text::is_piece;
use crate::text::join;
use crate::text::lemma_decimal_shape;
use crate::text::lemma_join_push;
use crate::text::lemma_join_well_separated;
use crate::text::push_decimal;
use crate::text::well_separated;
use vstd::prelude::*;

verus! {

/// What a note asks of the player.
#[derive(Clone, Copy, Debug, PartialEq, Eq, Structural)]
pub enum NoteKind {
    Normal,
    Reverse,
    HoldStart,
    HoldEnd,
}

/// A note of a lane.
#[derive(Clone, Copy, Debug, PartialEq, Eq, Structural)]
pub struct Note {
    /// Whole milliseconds from the start of the song.
    pub time: i64,
    pub kind: NoteKind,
}

/// The settings that shape the lanes.
#[derive(Clone, Copy, Debug, PartialEq, Eq, Structural)]
pub struct Rules {
    /// A slider must be longer than this many beats, in steps, by more
    /// than one step to become a hold.
    pub slider_beat_limit: i32,
    /// A hit circle whose hitsound has all these bits is reversed; zero
    /// reverses none.
    pub reverse_hitsound_mask: i32,
    pub spinner_behaviour: SpinnerBehaviour,
}

/// The digit that stands for a kind in a lane's text.
pub open spec fn kind_digit(kind: NoteKind) -> char {
    match kind {
        NoteKind::Normal => '0',
        NoteKind::Reverse => '1',
        NoteKind::HoldStart => '2',
        NoteKind::HoldEnd => '3',
    }
}

/// The text of a note: its time, its kind and an angle of zero, with
/// colons between them.
pub open spec fn note_text(note: Note) -> Seq<char> {
    decimal(note.time as int) + seq![':', kind_digit(note.kind), ':', '0']
}

/// The texts of the notes, in order.
pub open spec fn note_texts(notes: Seq<Note>) -> Seq<Seq<char>> {
    Seq::new(notes.len(), |k: int| note_text(notes[k]))
}

/// The text of a lane: the texts of its notes joined by `|`.
pub open spec fn lane_text(notes: Seq<Note>) -> Seq<char> {
    join(note_texts(notes), '|')
}

/// Whether a hit circle with this hitsound is reversed.
pub open spec fn reverses(hitsound: i32, mask: i32) -> bool {
    mask != 0 && (hitsound & mask) == mask
}

/// A hold from `start` to `end`.
pub open spec fn hold_pair(start: int, end: int) -> Seq<Note> {
    seq![
        Note { time: start as i64, kind: NoteKind::HoldStart },
        Note { time: end as i64, kind: NoteKind::HoldEnd },
    ]
}

/// A single note at `time`.
pub open spec fn single(time: int, kind: NoteKind) -> Seq<Note> {
    seq![Note { time: time as i64, kind }]
}

/// The notes that a slider becomes.
pub open spec fn slider_notes(
    slider: Slider,
    points: Seq<TimingPoint>,
    multiplier: int,
    limit: int,
) -> Seq<Note> {
    if slider_is_long(slider, points, multiplier, limit) {
        hold_pair(slider.time as int, slider.time + slider_duration(slider, points, multiplier))
    } else {
        single(slider.time as int, NoteKind::Normal)
    }
}

/// The notes that an object becomes, in whichever lanes it enters.
pub open spec fn object_notes(
    object: HitObject,
    points: Seq<TimingPoint>,
    multiplier: int,
    rules: Rules,
) -> Seq<Note> {
    match object {
        HitObject::HitCircle(o) => single(
            o.time as int,
            if reverses(o.hitsound, rules.reverse_hitsound_mask) {
                NoteKind::Reverse
            } else {
                NoteKind::Normal
            },
        ),
        HitObject::Slider(o) => slider_notes(o, points, multiplier, rules.slider_beat_limit as int),
        HitObject::Spinner(o) => match rules.spinner_behaviour {
            SpinnerBehaviour::Ignore => Seq::empty(),
            _ => hold_pair(o.time as int, o.end_time as int),
        },
        HitObject::HoldNote(o) => hold_pair(o.time as int, o.end_time as int),
    }
}

/// Whether the left lane is the active one once the first `n` objects have
/// been read: it is at first, and each object that starts a new combo
/// switches.
pub open spec fn left_active(objects: Seq<HitObject>, n: int) -> bool
    decreases n,
{
    if n <= 0 {
        true
    } else {
        left_active(objects, n - 1) != objects[n - 1].spec_new_combo()
    }
}

/// Whether an object enters the lane `left` (else the right one) while the
/// lane `active_left` is active.
pub open spec fn enters(
    object: HitObject,
    active_left: bool,
    left: bool,
    behaviour: SpinnerBehaviour,
) -> bool {
    match object {
        HitObject::Spinner(_) => match behaviour {
            SpinnerBehaviour::Both => true,
            _ => active_left == left,
        },
        _ => active_left == left,
    }
}

/// The notes that object `i` adds to the lane `left`.
pub open spec fn added_notes(
    objects: Seq<HitObject>,
    points: Seq<TimingPoint>,
    multiplier: int,
    rules: Rules,
    left: bool,
    i: int,
) -> Seq<Note> {
    if enters(objects[i], left_active(objects, i + 1), left, rules.spinner_behaviour) {
        object_notes(objects[i], points, multiplier, rules)
    } else {
        Seq::empty()
    }
}

/// The notes that the first `n` objects put into the lane `left`, in the
/// order of the objects.
pub open spec fn lane_notes(
    objects: Seq<HitObject>,
    points: Seq<TimingPoint>,
    multiplier: int,
    rules: Rules,
    left: bool,
    n: int,
) -> Seq<Note>
    decreases n,
{
    if n <= 0 {
        Seq::empty()
    } else {
        lane_notes(objects, points, multiplier, rules, left, n - 1) + added_notes(
            objects,
            points,
            multiplier,
            rules,
            left,
            n - 1,
        )
    }
}

/// A hold from `start` to `end`.
fn make_hold(start: i64, end: i64) -> (notes: Vec<Note>)
    ensures
        notes@ == hold_pair(start as int, end as int),
{
    let mut notes: Vec<Note> = Vec::new();
    notes.push(Note { time: start, kind: NoteKind::HoldStart });
    notes.push(Note { time: end, kind: NoteKind::HoldEnd });
    assert(notes@ =~= hold_pair(start as int, end as int));
    notes
}

/// A single note.
fn make_single(time: i64, kind: NoteKind) -> (notes: Vec<Note>)
    ensures
        notes@ == single(time as int, kind),
{
    let mut notes: Vec<Note> = Vec::new();
    notes.push(Note { time, kind });
    assert(notes@ =~= single(time as int, kind));
    notes
}

/// The notes that a slider becomes at a given velocity value and beat
/// length.
fn encode_slider(slider: &Slider, velocity: i64, beat: i64, multiplier: u32, limit: i32) -> (notes:
    Vec<Note>)
    requires
        1 <= velocity <= 0x8000_0000,
        1 <= beat <= 0x7fff_ffff,
    ensures
        notes@ == if beats_exceed(
            slider.pixel_length as int,
            velocity as int,
            multiplier as int,
            limit as int,
        ) {
            hold_pair(
                slider.time as int,
                slider.time + span_ms(
                    slider.pixel_length as int,
                    velocity as int,
                    beat as int,
                    multiplier as int,
                ) * slider.repeat,
            )
        } else {
            single(slider.time as int, NoteKind::Normal)
        },
{
    if exceeds(slider.pixel_length, velocity, multiplier, limit) {
        let duration: i64 = all_passes(
            span(slider.pixel_length, velocity, beat, multiplier),
            slider.repeat,
        );
        make_hold(slider.time as i64, slider.time as i64 + duration)
    } else {
        make_single(slider.time as i64, NoteKind::Normal)
    }
}

/// Whether the objects are in ascending order of time.
pub open spec fn times_ascend(objects: Seq<HitObject>) -> bool {
    forall|i: int, j: int|
        0 <= i <= j < objects.len() ==> objects[i].spec_time() <= objects[j].spec_time()
}

/// Whether the objects are in ascending order of time.
pub fn are_times_ascending(objects: &Vec<HitObject>) -> (b: bool)
    ensures
        b == times_ascend(objects@),
{
    let n: usize = objects.len();
    let mut i: usize = 1;
    while i < n
        invariant
            n == objects.len(),
            1 <= i,
            forall|a: int, b: int|
                0 <= a <= b < i && b < n ==> objects[a].spec_time() <= objects[b].spec_time(),
        decreases n - i,
    {
        if objects[i - 1].time() > objects[i].time() {
            return false;
        }
        i += 1;
    }
    true
}

/// The notes that an object becomes.
pub fn encode_object(
    object: &HitObject,
    points: &Vec<TimingPoint>,
    slider_multiplier: u32,
    rules: &Rules,
) -> (notes: Vec<Note>)
    ensures
        notes@ == object_notes(*object, points@, slider_multiplier as int, *rules),
{
    match object {
        HitObject::HitCircle(o) => {
            let mask: i32 = rules.reverse_hitsound_mask;
            if mask != 0 && o.hitsound & mask == mask {
                make_single(o.time as i64, NoteKind::Reverse)
            } else {
                make_single(o.time as i64, NoteKind::Normal)
            }
        },
        HitObject::Slider(o) => {
            if is_long(o, points, slider_multiplier, rules.slider_beat_limit) {
                let duration: i64 = resolve(o, points, slider_multiplier);
                make_hold(o.time as i64, o.time as i64 + duration)
            } else {
                make_single(o.time as i64, NoteKind::Normal)
            }
        },
        HitObject::Spinner(o) => match rules.spinner_behaviour {
            SpinnerBehaviour::Ignore => Vec::new(),
            _ => make_hold(o.time as i64, o.end_time as i64),
        },
        HitObject::HoldNote(o) => make_hold(o.time as i64, o.end_time as i64),
    }
}

/// Appends `notes` to `lane`.
fn append_notes(lane: &mut Vec<Note>, notes: &Vec<Note>)
    ensures
        final(lane)@ == old(lane)@ + notes@,
{
    let mut k: usize = 0;
    while k < notes.len()
        invariant
            k <= notes.len(),
            lane@ == old(lane)@ + notes@.take(k as int),
        decreases notes.len() - k,
    {
        lane.push(notes[k]);
        assert(notes@.take(k as int + 1) =~= notes@.take(k as int).push(notes@[k as int]));
        assert(lane@ =~= old(lane)@ + notes@.take(k as int + 1));
        k += 1;
    }
    assert(notes@.take(k as int) =~= notes@);
}

/// The notes of the left lane and of the right lane.
pub fn encode_lanes(
    objects: &Vec<HitObject>,
    points: &Vec<TimingPoint>,
    slider_multiplier: u32,
    rules: &Rules,
) -> (lanes: (Vec<Note>, Vec<Note>))
    ensures
        lanes.0@ == lane_notes(
            objects@,
            points@,
            slider_multiplier as int,
            *rules,
            true,
            objects.len() as int,
        ),
        lanes.1@ == lane_notes(
            objects@,
            points@,
            slider_multiplier as int,
            *rules,
            false,
            objects.len() as int,
        ),
{
    let n: usize = objects.len();
    let mut left_notes: Vec<Note> = Vec::new();
    let mut right_notes: Vec<Note> = Vec::new();
    let mut left: bool = true;
    // Where both the points and the objects ascend, the points in force at
    // a slider are looked up going forward only.
    let forward: bool = is_ordered(points) && are_times_ascending(objects);
    let mut cursor = Cursor::new();
    let mut i: usize = 0;
    while i < n
        invariant
            n == objects.len(),
            i <= n,
            forward ==> ordered(points@) && times_ascend(objects@),
            cursor.stands_in(points@),
            forall|j: int| i <= j < n ==> cursor.time() <= objects[j].spec_time(),
            left == left_active(objects@, i as int),
            left_notes@ == lane_notes(
                objects@,
                points@,
                slider_multiplier as int,
                *rules,
                true,
                i as int,
            ),
            right_notes@ == lane_notes(
                objects@,
                points@,
                slider_multiplier as int,
                *rules,
                false,
                i as int,
            ),
        decreases n - i,
    {
        let object: &HitObject = &objects[i];
        if object.new_combo() {
            left = !left;
        }
        let notes: Vec<Note> = match object {
            HitObject::Slider(o) => {
                if forward {
                    cursor.advance(points, o.time);
                    encode_slider(
                        o,
                        cursor.velocity_steps(points),
                        cursor.beat_length_steps(points),
                        slider_multiplier,
                        rules.slider_beat_limit,
                    )
                } else {
                    encode_object(object, points, slider_multiplier, rules)
                }
            },
            _ => encode_object(object, points, slider_multiplier, rules),
        };
        assert(notes@ == object_notes(*object, points@, slider_multiplier as int, *rules));
        let both: bool = match object {
            HitObject::Spinner(_) => match rules.spinner_behaviour {
                SpinnerBehaviour::Both => true,
                _ => false,
            },
            _ => false,
        };
        if both || left {
            append_notes(&mut left_notes, &notes);
        }
        if both || !left {
            append_notes(&mut right_notes, &notes);
        }
        proof {
            assert(left_notes@ =~= lane_notes(
                objects@,
                points@,
                slider_multiplier as int,
                *rules,
                true,
                i as int + 1,
            ));
            assert(right_notes@ =~= lane_notes(
                objects@,
                points@,
                slider_multiplier as int,
                *rules,
                false,
                i as int + 1,
            ));
        }
        i += 1;
    }
    (left_notes, right_notes)
}

/// Appends the text of a note to `out`.
fn push_note(out: &mut String, note: &Note)
    ensures
        final(out)@ == old(out)@ + note_text(*note),
{
    proof {
        reveal_strlit(":0:0");
        reveal_strlit(":1:0");
        reveal_strlit(":2:0");
        reveal_strlit(":3:0");
    }
    push_decimal(out, note.time);
    let tail: &'static str = match note.kind {
        NoteKind::Normal => ":0:0",
        NoteKind::Reverse => ":1:0",
        NoteKind::HoldStart => ":2:0",
        NoteKind::HoldEnd => ":3:0",
    };
    assert(tail@ =~= seq![':', kind_digit(note.kind), ':', '0']);
    out.append(tail);
    assert(out@ =~= old(out)@ + note_text(*note));
}

/// The text of a lane: its notes joined by `|`, with no `|` at either end
/// and never two in a row.
pub fn render_lane(notes: &Vec<Note>) -> (text: String)
    ensures
        text@ == lane_text(notes@),
        well_separated(text@, '|'),
{
    proof {
        lemma_lane_text_well_separated(notes@);
    }
    let n: usize = notes.len();
    let mut text = String::new();
    let mut i: usize = 0;
    assert(note_texts(notes@.take(0)) =~= Seq::<Seq<char>>::empty());
    while i < n
        invariant
            n == notes.len(),
            i <= n,
            text@ == join(note_texts(notes@.take(i as int)), '|'),
        decreases n - i,
    {
        proof {
            reveal_strlit("|");
            lemma_join_push(note_texts(notes@.take(i as int)), note_text(notes@[i as int]), '|');
            assert(note_texts(notes@.take(i as int + 1)) =~= note_texts(
                notes@.take(i as int),
            ).push(note_text(notes@[i as int])));
        }
        if i > 0 {
            push_separator(&mut text);
        }
        push_note(&mut text, &notes[i]);
        proof {
            if i == 0 {
                assert(text@ =~= note_text(notes@[0]));
            }
        }
        i += 1;
    }
    assert(notes@.take(n as int) =~= notes@);
    text
}

/// Appends the separator of notes to `out`.
fn push_separator(out: &mut String)
    ensures
        final(out)@ == old(out)@ + seq!['|'],
{
    proof {
        reveal_strlit("|");
    }
    out.append("|");
    assert("|"@ =~= seq!['|']);
}

/// How many of the first `n` objects start a new combo.
pub open spec fn combo_count(objects: Seq<HitObject>, n: int) -> nat
    decreases n,
{
    if n <= 0 {
        0
    } else {
        combo_count(objects, n - 1) + if objects[n - 1].spec_new_combo() {
            1nat
        } else {
            0nat
        }
    }
}

/// Whether none of the first `n` objects is a spinner.
pub open spec fn no_spinner(objects: Seq<HitObject>, n: int) -> bool {
    forall|i: int| 0 <= i < n ==> !(#[trigger] objects[i] is Spinner)
}

/// The notes of the first `n` objects one after the other, whatever their
/// lane; a spinner counts once.
pub open spec fn all_notes(
    objects: Seq<HitObject>,
    points: Seq<TimingPoint>,
    multiplier: int,
    rules: Rules,
    n: int,
) -> Seq<Note>
    decreases n,
{
    if n <= 0 {
        Seq::empty()
    } else {
        all_notes(objects, points, multiplier, rules, n - 1) + object_notes(
            objects[n - 1],
            points,
            multiplier,
            rules,
        )
    }
}

/// The left lane is active exactly while an even number of objects have
/// started a new combo: the lanes take turns, and each object that starts a
/// new combo is the first of its turn.
pub proof fn lemma_lane_alternates(objects: Seq<HitObject>, n: int)
    requires
        0 <= n <= objects.len(),
    ensures
        left_active(objects, n) <==> combo_count(objects, n) % 2 == 0,
    decreases n,
{
    if n > 0 {
        lemma_lane_alternates(objects, n - 1);
    }
}

/// Where no object starts a new combo, every note is in the left lane, and
/// the right lane holds nothing unless a spinner went into both lanes.
pub proof fn lemma_no_combo_all_left(
    objects: Seq<HitObject>,
    points: Seq<TimingPoint>,
    multiplier: int,
    rules: Rules,
    n: int,
)
    requires
        0 <= n <= objects.len(),
        forall|i: int| 0 <= i < n ==> !(#[trigger] objects[i]).spec_new_combo(),
    ensures
        left_active(objects, n),
        lane_notes(objects, points, multiplier, rules, true, n) == all_notes(
            objects,
            points,
            multiplier,
            rules,
            n,
        ),
        rules.spinner_behaviour != SpinnerBehaviour::Both || no_spinner(objects, n) ==> lane_notes(
            objects,
            points,
            multiplier,
            rules,
            false,
            n,
        ) == Seq::<Note>::empty(),
    decreases n,
{
    if n > 0 {
        lemma_no_combo_all_left(objects, points, multiplier, rules, n - 1);
        assert(!objects[n - 1].spec_new_combo());
        if rules.spinner_behaviour != SpinnerBehaviour::Both || no_spinner(objects, n) {
            assert(rules.spinner_behaviour != SpinnerBehaviour::Both || no_spinner(objects, n - 1));
            assert(rules.spinner_behaviour != SpinnerBehaviour::Both || !(objects[n
                - 1] is Spinner));
            assert(lane_notes(objects, points, multiplier, rules, false, n) =~= Seq::<
                Note,
            >::empty());
        }
    }
}

/// A slider that is no longer than the limit becomes a single tap, and so
/// neither the start nor the end of a hold.
pub proof fn lemma_short_slider_is_tap(
    slider: Slider,
    points: Seq<TimingPoint>,
    multiplier: int,
    rules: Rules,
)
    requires
        multiplier >= 0,
        beats_within(
            slider.pixel_length as int,
            velocity_at(points, slider.time as int),
            multiplier,
            rules.slider_beat_limit as int,
        ),
    ensures
        object_notes(HitObject::Slider(slider), points, multiplier, rules) == single(
            slider.time as int,
            NoteKind::Normal,
        ),
        forall|k: int|
            0 <= k < object_notes(HitObject::Slider(slider), points, multiplier, rules).len() ==> {
                let note = #[trigger] object_notes(
                    HitObject::Slider(slider),
                    points,
                    multiplier,
                    rules,
                )[k];
                note.kind != NoteKind::HoldStart && note.kind != NoteKind::HoldEnd
            },
{
    lemma_within_is_not_exceeding(
        slider.pixel_length as int,
        velocity_at(points, slider.time as int),
        multiplier,
        rules.slider_beat_limit as int,
    );
}

/// The text of a note is not empty and holds no `|`.
pub proof fn lemma_note_text_is_piece(note: Note)
    ensures
        is_piece(note_text(note), '|'),
{
    lemma_decimal_shape(note.time as int);
    let number = decimal(note.time as int);
    let text = note_text(note);
    assert forall|i: int| 0 <= i < text.len() implies #[trigger] text[i] != '|' by {
        if i < number.len() {
            assert(text[i] == number[i]);
            assert(is_digit(number[i]) || number[i] == '-');
        }
    }
}

/// The text of a lane neither starts nor ends with `|` and never holds two
/// `|` in a row, so that no note in it is empty; it is empty exactly when
/// the lane holds no note.
pub proof fn lemma_lane_text_well_separated(notes: Seq<Note>)
    ensures
        well_separated(lane_text(notes), '|'),
        lane_text(notes).len() == 0 <==> notes.len() == 0,
{
    let texts = note_texts(notes);
    assert forall|k: int| 0 <= k < texts.len() implies is_piece(#[trigger] texts[k], '|') by {
        lemma_note_text_is_piece(notes[k]);
    }
    lemma_join_well_separated(texts, '|');
}

} // verus!

//! Expands a song into absolute-tick playback events: channel setup, notes
//! with their duration, velocity and pitch effects, tempo changes, and the
//! table of repeated sections.
use vstd::prelude::*;
use crate::midi_event::MidiEvent;
use crate::player_params::Repeat;
use crate::sequencer::sorted_by_tick;
use crate::song::{
    rem12, Beat, BendEffect, BendPoint, Duration, HarmonicType, MeasureHeader, MidiChannel, Note,
    NoteType, Song, Track, TremoloBarEffect, MIN_VELOCITY, QUARTER_TIME, VELOCITY_INCREMENT,
};

verus! {

/// Tick of the channel setup events: the first tick of a song.
pub const FIRST_TICK: u32 = 1;

/// Milliseconds-per-beat factor of the static duration of a dead note.
pub const DEFAULT_DURATION_DEAD: u32 = 30;

/// Milliseconds-per-beat factor of the static duration of a palm-muted note.
pub const DEFAULT_DURATION_PM: u32 = 60;

/// Pitch bend value of an unbent string.
pub const DEFAULT_BEND: i32 = 64;

/// Every event of the list is at tick 1 or later.
pub open spec fn ticks_positive(s: Seq<MidiEvent>) -> bool {
    forall|i: int| 0 <= i < s.len() ==> s[i].tick >= 1
}

/// `b` keeps `a` as its prefix.
pub open spec fn grows(a: Seq<MidiEvent>, b: Seq<MidiEvent>) -> bool {
    a.len() <= b.len() && forall|i: int| 0 <= i < a.len() ==> b[i] == a[i]
}

/// Relies on slice::sort_by_key: a stable sort of the events by tick, which
/// only reorders them and keeps events of one tick in their order.
#[verifier::external_body]
fn sort_by_tick(events: &mut Vec<MidiEvent>)
    ensures
        forall|t: u32| #[trigger] at_tick(final(events)@, t) == at_tick(old(events)@, t),
        final(events)@.len() == old(events)@.len(),
        final(events)@.to_multiset() == old(events)@.to_multiset(),
        forall|i: int| 0 <= i < final(events)@.len() ==> old(events)@.contains(final(events)@[i]),
        forall|i: int| 0 <= i < old(events)@.len() ==> final(events)@.contains(old(events)@[i]),
        sorted_by_tick(final(events)@),
{
    events.sort_by_key(|e| e.tick)
}

/// The events at tick `t`, in their order in the list.
pub open spec fn at_tick(s: Seq<MidiEvent>, t: u32) -> Seq<MidiEvent> {
    s.filter(|e: MidiEvent| e.tick == t)
}

/// Filtering keeps a list whose elements all pass.
proof fn lemma_filter_all(s: Seq<MidiEvent>, pred: spec_fn(MidiEvent) -> bool)
    requires
        forall|i: int| 0 <= i < s.len() ==> pred(#[trigger] s[i]),
    ensures
        s.filter(pred) == s,
    decreases s.len(),
{
    reveal(Seq::filter);
    if s.len() > 0 {
        let d = s.drop_last();
        assert forall|i: int| 0 <= i < d.len() implies pred(#[trigger] d[i]) by {
            assert(d[i] == s[i]);
        }
        lemma_filter_all(d, pred);
        assert(s.last() == s[s.len() - 1]);
        assert(d.push(s.last()) =~= s);
    }
}

/// Filtering empties a list whose elements all fail.
proof fn lemma_filter_none(s: Seq<MidiEvent>, pred: spec_fn(MidiEvent) -> bool)
    requires
        forall|i: int| 0 <= i < s.len() ==> !pred(#[trigger] s[i]),
    ensures
        s.filter(pred) =~= Seq::<MidiEvent>::empty(),
    decreases s.len(),
{
    reveal(Seq::filter);
    if s.len() > 0 {
        let d = s.drop_last();
        assert forall|i: int| 0 <= i < d.len() implies !pred(#[trigger] d[i]) by {
            assert(d[i] == s[i]);
        }
        lemma_filter_none(d, pred);
        assert(!pred(s[s.len() - 1]));
    }
}

/// In a sorted list of events at tick 1 or later that holds `prefix` (all at
/// tick 1) at the front of its tick-1 events, the list starts with `prefix`.
proof fn lemma_sorted_prefix(before: Seq<MidiEvent>, after: Seq<MidiEvent>, prefix: Seq<MidiEvent>)
    requires
        sorted_by_tick(after),
        ticks_positive(after),
        prefix.len() <= before.len(),
        before.subrange(0, prefix.len() as int) == prefix,
        forall|i: int| 0 <= i < prefix.len() ==> #[trigger] prefix[i].tick == FIRST_TICK,
        at_tick(after, FIRST_TICK) == at_tick(before, FIRST_TICK),
    ensures
        after.len() >= prefix.len(),
        after.subrange(0, prefix.len() as int) == prefix,
{
    let pred = |e: MidiEvent| e.tick == FIRST_TICK;
    let n = prefix.len() as int;
    let rest = before.subrange(n, before.len() as int);
    assert(before =~= prefix + rest);
    Seq::filter_distributes_over_add(prefix, rest, pred);
    lemma_filter_all(prefix, pred);
    crate::sequencer::lemma_split_exists(after, 1);
    let p = crate::sequencer::split(after, 1);
    let head = after.subrange(0, p);
    let tail = after.subrange(p, after.len() as int);
    assert(after =~= head + tail);
    assert forall|i: int| 0 <= i < head.len() implies pred(#[trigger] head[i]) by {
        assert(head[i] == after[i]);
    }
    assert forall|i: int| 0 <= i < tail.len() implies !pred(#[trigger] tail[i]) by {
        assert(tail[i] == after[p + i]);
    }
    Seq::filter_distributes_over_add(head, tail, pred);
    lemma_filter_all(head, pred);
    lemma_filter_none(tail, pred);
    assert(head + Seq::<MidiEvent>::empty() =~= head);
    let f = before.filter(pred);
    assert(f == prefix + rest.filter(pred));
    assert(head == f);
    assert forall|i: int| 0 <= i < n implies after.subrange(0, n)[i] == prefix[i] by {
        assert(head[i] == f[i]);
        assert(f[i] == (prefix + rest.filter(pred))[i]);
    }
    assert(after.subrange(0, n) =~= prefix);
}

/// A tick of the song model as an event tick, clamped into `1..=u32::MAX`.
pub open spec fn tick_of(x: int) -> int {
    if x < 1 {
        1
    } else if x > u32::MAX {
        u32::MAX as int
    } else {
        x
    }
}

fn to_tick(x: i64) -> (r: u32)
    ensures
        r == tick_of(x as int),
        r >= 1,
{
    if x < 1 {
        1
    } else if x > u32::MAX as i64 {
        u32::MAX
    } else {
        x as u32
    }
}

/// `x` clamped into the range of `i32`.
pub open spec fn clamp_i32(x: int) -> int {
    if x < i32::MIN {
        i32::MIN as int
    } else if x > i32::MAX {
        i32::MAX as int
    } else {
        x
    }
}

fn to_i32(x: i64) -> (r: i32)
    ensures
        r == clamp_i32(x as int),
{
    if x < i32::MIN as i64 {
        i32::MIN
    } else if x > i32::MAX as i64 {
        i32::MAX
    } else {
        x as i32
    }
}

/// `x / 100` truncated toward zero.
pub open spec fn trunc_div100(x: int) -> int {
    if x >= 0 {
        x / 100
    } else {
        -((-x) / 100)
    }
}

fn trunc_div100_exec(x: i64) -> (r: i64)
    requires
        -1_000_000_000 <= x <= 1_000_000_000,
    ensures
        r == trunc_div100(x as int),
{
    if x >= 0 {
        x / 100
    } else {
        -((-x) / 100)
    }
}

/// Pitch bend value of a bend point: 64 plus 2.75 per unit, clamped into
/// `[0, 127]`, truncated.
pub open spec fn bend_value(v: int, per_unit: int) -> int {
    let x = 6400 + per_unit * v;
    if x < 0 {
        0
    } else if x > 12700 {
        127
    } else {
        x / 100
    }
}

/// Pitch bend value aimed at by the next point, not clamped.
pub open spec fn raw_bend_value(v: int, per_unit: int) -> int {
    trunc_div100(6400 + per_unit * v)
}

fn bend_values(v: i8, per_unit: i64) -> (r: (i32, i32))
    requires
        per_unit == 275 || per_unit == 550,
    ensures
        r.0 == bend_value(v as int, per_unit as int),
        r.1 == raw_bend_value(v as int, per_unit as int),
        0 <= r.0 <= 127,
        -1000 <= r.1 <= 1000,
{
    let x: i64 = 6400 + per_unit * v as i64;
    let clamped: i32 = if x < 0 {
        0
    } else if x > 12700 {
        127
    } else {
        (x / 100) as i32
    };
    (clamped, trunc_div100_exec(x) as i32)
}

/// The static duration that caps dead and palm-muted notes.
pub open spec fn static_duration(tempo: int, duration: int, maximum: int) -> int {
    let value = tempo * duration / 60;
    if value < maximum {
        value
    } else {
        maximum
    }
}

/// `tempo * duration / 60`, capped at `maximum`.
pub fn apply_static_duration(tempo: u32, duration: u32, maximum: u32) -> (r: u32)
    ensures
        r == static_duration(tempo as int, duration as int, maximum as int),
{
    proof {
        assert((tempo as u64) * (duration as u64) <= 0xffff_ffffu64 * 0xffff_ffffu64)
            by (nonlinear_arith)
            requires
                tempo <= 0xffff_ffffu32,
                duration <= 0xffff_ffffu32,
        ;
    }
    let value: u64 = tempo as u64 * duration as u64 / 60;
    if value < maximum as u64 {
        value as u32
    } else {
        maximum
    }
}

/// `max(MIN_VELOCITY, v)`.
pub open spec fn floor_velocity(v: int) -> int {
    if v < MIN_VELOCITY {
        MIN_VELOCITY as int
    } else {
        v
    }
}

/// Velocity of a note after its effects: softened after a hammer-on on the
/// same string (not on percussion), then lowered for a ghost note or raised
/// for an accent, at most 127.
pub open spec fn velocity_with_effects(note: Note, prev_hammer: bool, percussion: bool) -> int {
    let v0 = note.velocity as int;
    let v1 = if !percussion && prev_hammer {
        floor_velocity(v0 - 25)
    } else {
        v0
    };
    let v2 = if note.effect.ghost_note {
        floor_velocity(v1 - VELOCITY_INCREMENT)
    } else if note.effect.accentuated_note {
        floor_velocity(v1 + VELOCITY_INCREMENT)
    } else if note.effect.heavy_accentuated_note {
        floor_velocity(v1 + 2 * VELOCITY_INCREMENT)
    } else {
        v1
    };
    if v2 > 127 {
        127
    } else {
        v2
    }
}

pub fn apply_velocity_effect(
    note: &Note,
    previous_note: Option<&Note>,
    midi_channel: &MidiChannel,
) -> (r: i16)
    ensures
        r == velocity_with_effects(
            *note,
            previous_note matches Some(p) && p.effect.hammer,
            midi_channel.bank == crate::song::DEFAULT_PERCUSSION_BANK,
        ),
{
    let mut velocity: i32 = note.velocity as i32;
    let prev_hammer = match previous_note {
        Some(p) => p.effect.hammer,
        None => false,
    };
    if !midi_channel.is_percussion() && prev_hammer {
        velocity = if velocity - 25 < MIN_VELOCITY as i32 {
            MIN_VELOCITY as i32
        } else {
            velocity - 25
        };
    }
    let inc = VELOCITY_INCREMENT as i32;
    if note.effect.ghost_note {
        velocity = if velocity - inc < MIN_VELOCITY as i32 {
            MIN_VELOCITY as i32
        } else {
            velocity - inc
        };
    } else if note.effect.accentuated_note {
        velocity = if velocity + inc < MIN_VELOCITY as i32 {
            MIN_VELOCITY as i32
        } else {
            velocity + inc
        };
    } else if note.effect.heavy_accentuated_note {
        velocity = if velocity + 2 * inc < MIN_VELOCITY as i32 {
            MIN_VELOCITY as i32
        } else {
            velocity + 2 * inc
        };
    }
    if velocity > 127 {
        127
    } else {
        velocity as i16
    }
}

/// Ticks of a duration, 0 for a duration without a tick length.
pub open spec fn ticks_of(d: Duration) -> int {
    if d.wf() {
        d.spec_time()
    } else {
        0
    }
}

fn duration_ticks(d: &Duration) -> (r: u32)
    ensures
        r == ticks_of(*d),
{
    if d.value > 0 && d.tuplet_enters > 0 {
        d.time()
    } else {
        0
    }
}

fn find_note_on_string(notes: &Vec<Note>, string: i8) -> (r: Option<usize>)
    ensures
        match r {
            Some(i) => i < notes@.len() && notes@[i as int].string == string && forall|j: int|
                0 <= j < i ==> notes@[j].string != string,
            None => forall|j: int| 0 <= j < notes@.len() ==> notes@[j].string != string,
        },
{
    let mut i: usize = 0;
    while i < notes.len()
        invariant
            i <= notes@.len(),
            forall|j: int| 0 <= j < i ==> notes@[j].string != string,
        decreases notes@.len() - i,
    {
        if notes[i].string == string {
            return Some(i);
        }
        i = i + 1;
    }
    None
}

/// The duration after its modifiers, in priority order: a dead note is capped
/// by its static duration, then a palm-muted one, a staccato note is halved.
pub open spec fn modified_duration(note: Note, tempo: int, extended: int) -> int {
    if note.kind == NoteType::Dead {
        static_duration(tempo, DEFAULT_DURATION_DEAD as int, extended)
    } else if note.effect.palm_mute {
        static_duration(tempo, DEFAULT_DURATION_PM as int, extended)
    } else if note.effect.staccato {
        extended / 2
    } else {
        extended
    }
}

/// The beats of the first voice of measure `m` (none when it has no voice).
pub open spec fn first_voice_beats(track: Track, m: int) -> Seq<Beat> {
    if 0 <= m < track.measures@.len() && track.measures@[m].voices@.len() > 0 {
        track.measures@[m].voices@[0].beats@
    } else {
        Seq::empty()
    }
}

/// The beats of the first voices of the measures from `m` on, in order.
pub open spec fn beats_from(track: Track, m: int) -> Seq<Beat>
    decreases track.measures@.len() - m,
{
    if m < 0 || m >= track.measures@.len() {
        Seq::empty()
    } else {
        first_voice_beats(track, m) + beats_from(track, m + 1)
    }
}

/// Ticks added by the chain of tied notes on `string` at the front of
/// `beats`: it runs while each beat holds a tied note as its first note on the
/// string.
pub open spec fn tie_extension(beats: Seq<Beat>, string: i8) -> int
    decreases beats.len(),
{
    if beats.len() == 0 {
        0
    } else {
        match first_on_string(beats[0].notes@, string) {
            Some(k) => if beats[0].notes@[k].kind == NoteType::Tie {
                ticks_of(beats[0].duration) + tie_extension(beats.drop_first(), string)
            } else {
                0
            },
            None => 0,
        }
    }
}

/// Index of the first note on `string`.
pub open spec fn first_on_string(notes: Seq<Note>, string: i8) -> Option<int> {
    if exists|k: int| 0 <= k < notes.len() && notes[k].string == string {
        Some(choose|k: int| 0 <= k < notes.len() && notes[k].string == string && forall|j: int|
            0 <= j < k ==> notes[j].string != string)
    } else {
        None
    }
}

/// The elements of `s` from position `n` on (none when `n` is past the end).
pub open spec fn skip_to(s: Seq<Beat>, n: int) -> Seq<Beat> {
    if n >= s.len() {
        Seq::empty()
    } else {
        s.skip(n)
    }
}

proof fn lemma_tie_nonneg(beats: Seq<Beat>, string: i8)
    ensures
        tie_extension(beats, string) >= 0,
    decreases beats.len(),
{
    if beats.len() > 0 {
        lemma_tie_nonneg(beats.drop_first(), string);
        lemma_ticks_nonneg(beats[0].duration);
    }
}

proof fn lemma_ticks_nonneg(d: Duration)
    ensures
        ticks_of(d) >= 0,
{
    if d.wf() {
        let num = 4 * QUARTER_TIME * d.dot_num() * d.tuplet_times;
        let den = d.value * d.dot_den() * d.tuplet_enters;
        assert(num >= 0) by (nonlinear_arith)
            requires
                num == 4 * QUARTER_TIME * d.dot_num() * d.tuplet_times,
                d.dot_num() >= 1,
                d.tuplet_times >= 0,
        ;
        assert(den >= 1) by (nonlinear_arith)
            requires
                den == d.value * d.dot_den() * d.tuplet_enters,
                d.value >= 1,
                d.dot_den() >= 1,
                d.tuplet_enters >= 1,
        ;
        assert(num / den >= 0) by (nonlinear_arith)
            requires
                num >= 0,
                den >= 1,
        ;
    }
}

/// `x` capped at `u32::MAX`.
pub open spec fn sat_u32(x: int) -> int {
    if x > u32::MAX {
        u32::MAX as int
    } else {
        x
    }
}

/// The duration of a note before its modifiers: the beat's duration, the
/// tied chain that follows it in the first voice (from the beat after
/// position `beat_id` of measure `measure_id` on), and the next beat's duration
/// for a let-ring note.
pub open spec fn extended_duration(
    track: Track,
    measure_id: int,
    beat_id: int,
    note: Note,
    first_next_beat: Option<Beat>,
    duration: int,
) -> int {
    let chain = tie_extension(skip_to(beats_from(track, measure_id), beat_id + 1), note.string);
    let ring = match first_next_beat {
        Some(b) => if note.effect.let_ring {
            ticks_of(b.duration)
        } else {
            0
        },
        None => 0,
    };
    sat_u32(duration + chain + ring)
}

proof fn lemma_first_on_string(notes: Seq<Note>, string: i8, k: int)
    requires
        0 <= k < notes.len(),
        notes[k].string == string,
        forall|j: int| 0 <= j < k ==> notes[j].string != string,
    ensures
        first_on_string(notes, string) == Some(k),
{
    let c = choose|c: int| 0 <= c < notes.len() && notes[c].string == string && forall|j: int|
        0 <= j < c ==> notes[j].string != string;
    if c < k {
        assert(notes[c].string != string);
    } else if k < c {
        assert(notes[k].string != string);
    }
}

proof fn lemma_tie_step(beats: Seq<Beat>, i: int, string: i8)
    requires
        0 <= i < beats.len(),
    ensures
        skip_to(beats, i)[0] == beats[i],
        skip_to(beats, i).drop_first() == skip_to(beats, i + 1),
        skip_to(beats, i).len() > 0,
{
    assert(skip_to(beats, i).drop_first() =~= skip_to(beats, i + 1));
}

/// The beats of the first voices from measure `measure_id` on, flattened.
fn flatten_first_voices<'a>(track: &'a Track, measure_id: usize) -> (r: Vec<&'a Beat>)
    ensures
        r@.len() == beats_from(*track, measure_id as int).len(),
        forall|k: int| 0 <= k < r@.len() ==> *#[trigger] r@[k] == beats_from(*track, measure_id as int)[k],
{
    let mut flat: Vec<&Beat> = Vec::new();
    let mut m: usize = measure_id;
    let ghost whole = beats_from(*track, measure_id as int);
    proof {
        if measure_id >= track.measures@.len() {
            assert(whole =~= Seq::<Beat>::empty());
        }
    }
    while m < track.measures.len()
        invariant
            measure_id <= m || m >= track.measures@.len(),
            whole == beats_from(*track, measure_id as int),
            m >= measure_id,
            flat@.len() + beats_from(*track, m as int).len() == whole.len(),
            forall|k: int| 0 <= k < flat@.len() ==> *#[trigger] flat@[k] == whole[k],
            forall|k: int| 0 <= k < beats_from(*track, m as int).len() ==> #[trigger] beats_from(*track, m as int)[k]
                == whole[flat@.len() + k],
        decreases track.measures@.len() - m,
    {
        let measure = &track.measures[m];
        let ghost rest = beats_from(*track, m as int);
        let ghost next = beats_from(*track, m + 1);
        proof {
            assert(rest == first_voice_beats(*track, m as int) + next);
        }
        if measure.voices.len() > 0 {
            let beats = &measure.voices[0].beats;
            let ghost base = flat@.len();
            let mut b: usize = 0;
            while b < beats.len()
                invariant
                    whole == beats_from(*track, measure_id as int),
                    beats@ == first_voice_beats(*track, m as int),
                    rest == beats@ + next,
                    flat@.len() == base + b,
                    b <= beats@.len(),
                    base + rest.len() == whole.len(),
                    forall|k: int| 0 <= k < flat@.len() ==> *#[trigger] flat@[k] == whole[k],
                    forall|k: int| 0 <= k < rest.len() ==> #[trigger] rest[k] == whole[base + k],
                decreases beats@.len() - b,
            {
                proof {
                    assert(rest[b as int] == beats@[b as int]);
                }
                flat.push(&beats[b]);
                b = b + 1;
            }
            proof {
                assert forall|k: int| 0 <= k < next.len() implies #[trigger] next[k] == whole[flat@.len() + k] by {
                    assert(rest[beats@.len() + k] == next[k]);
                }
            }
        } else {
            proof {
                assert(first_voice_beats(*track, m as int) =~= Seq::<Beat>::empty());
                assert(rest =~= next);
            }
        }
        m = m + 1;
    }
    proof {
        assert(beats_from(*track, m as int) =~= Seq::<Beat>::empty());
    }
    flat
}

/// The duration of a note: the beat's duration, extended through the chain of
/// tied notes on the same string in the following beats of the first voice,
/// and by the next beat for a let-ring note, then modified.
pub fn apply_duration_effect(
    track: &Track,
    measure_id: usize,
    beat_id: usize,
    note: &Note,
    first_next_beat: Option<&Beat>,
    tempo: u32,
    duration: u32,
) -> (r: u32)
    requires
        beat_id < usize::MAX,
    ensures
        r == modified_duration(
            *note,
            tempo as int,
            extended_duration(
                *track,
                measure_id as int,
                beat_id as int,
                *note,
                match first_next_beat {
                    Some(b) => Some(*b),
                    None => None,
                },
                duration as int,
            ),
        ),
{
    let flat = flatten_first_voices(track, measure_id);
    let ghost beats = beats_from(*track, measure_id as int);
    let start: usize = beat_id + 1;
    let ghost chain = tie_extension(skip_to(beats, start as int), note.string);
    let mut total: u32 = duration;
    let mut i: usize = start;
    let mut chain_open = true;
    proof {
        lemma_tie_nonneg(skip_to(beats, start as int), note.string);
    }
    while i < flat.len() && chain_open
        invariant
            flat@.len() == beats.len(),
            forall|k: int| 0 <= k < flat@.len() ==> *#[trigger] flat@[k] == beats[k],
            i >= start,
            chain_open ==> sat_u32(total + tie_extension(skip_to(beats, i as int), note.string)) == sat_u32(duration + chain),
            !chain_open ==> total == sat_u32(duration + chain),
            chain >= 0,
        decreases flat@.len() - i,
    {
        let beat = flat[i];
        proof {
            lemma_tie_step(beats, i as int, note.string);
            lemma_tie_nonneg(skip_to(beats, i + 1), note.string);
            lemma_tie_nonneg(skip_to(beats, i as int), note.string);
        }
        let found = find_note_on_string(&beat.notes, note.string);
        match found {
            Some(k) => {
                proof { lemma_first_on_string(beat.notes@, note.string, k as int); }
                if beat.notes[k].kind == NoteType::Tie {
                    let d = duration_ticks(&beat.duration);
                    total = total.saturating_add(d);
                } else {
                    chain_open = false;
                }
            },
            None => {
                proof {
                    assert(first_on_string(beat.notes@, note.string) is None);
                }
                chain_open = false;
            },
        }
        i = i + 1;
    }
    proof {
        if chain_open {
            assert(skip_to(beats, i as int) =~= Seq::<Beat>::empty());
        }
    }
    match first_next_beat {
        Some(next) => {
            if note.effect.let_ring {
                total = total.saturating_add(duration_ticks(&next.duration));
            }
        },
        None => {},
    }
    let r = if note.kind == NoteType::Dead {
        apply_static_duration(tempo, DEFAULT_DURATION_DEAD, total)
    } else if note.effect.palm_mute {
        apply_static_duration(tempo, DEFAULT_DURATION_PM, total)
    } else if note.effect.staccato {
        total / 2
    } else {
        total
    };
    r
}

/// Pitch and fret offset of the natural harmonic at row `i` of the table.
pub open spec fn natural_frequency(i: int) -> (int, int) {
    if i == 0 {
        (12, 12)
    } else if i == 1 {
        (9, 28)
    } else if i == 2 {
        (5, 24)
    } else if i == 3 {
        (7, 19)
    } else if i == 4 {
        (4, 28)
    } else {
        (3, 31)
    }
}

/// Rows in the natural harmonic table.
pub const NATURAL_FREQUENCY_COUNT: usize = 6;

pub fn natural_frequencies(i: usize) -> (r: (i32, i32))
    requires
        i < NATURAL_FREQUENCY_COUNT,
    ensures
        r.0 == natural_frequency(i as int).0,
        r.1 == natural_frequency(i as int).1,
        3 <= r.0 <= 12,
        12 <= r.1 <= 31,
{
    match i {
        0 => (12, 12),
        1 => (9, 28),
        2 => (5, 24),
        3 => (7, 19),
        4 => (4, 28),
        _ => (3, 31),
    }
}

/// The first row from `from` on whose pitch class is `rem`.
pub open spec fn natural_row(rem: int, from: int) -> Option<int>
    decreases 6 - from,
{
    if from >= 6 || from < 0 {
        None
    } else if rem == natural_frequency(from).0 % 12 {
        Some(from)
    } else {
        natural_row(rem, from + 1)
    }
}

/// The first row from `from` on whose pitch is `diff` frets.
pub open spec fn tapped_row(diff: int, from: int) -> Option<int>
    decreases 6 - from,
{
    if from >= 6 || from < 0 {
        None
    } else if diff == natural_frequency(from).0 {
        Some(from)
    } else {
        tapped_row(diff, from + 1)
    }
}

/// Key of a harmonic note, from the key of the plain note.
pub open spec fn harmonic_key(
    kind: HarmonicType,
    right_hand_fret: Option<i8>,
    value: int,
    initial_key: int,
) -> int {
    match kind {
        HarmonicType::Natural => match natural_row(rem12(value), 0) {
            Some(i) => initial_key + natural_frequency(i).1 - value,
            None => initial_key,
        },
        HarmonicType::Semi => initial_key + 12,
        HarmonicType::Artificial => initial_key + 12,
        HarmonicType::Pinch => initial_key + 12,
        HarmonicType::Tapped => match right_hand_fret {
            Some(f) => match tapped_row(f - value, 0) {
                Some(i) => initial_key + natural_frequency(i).1,
                None => initial_key,
            },
            None => initial_key,
        },
    }
}

fn resolve_harmonic_key(
    kind: HarmonicType,
    right_hand_fret: Option<i8>,
    value: i16,
    initial_key: i64,
) -> (r: i64)
    requires
        -10_000_000_000 <= initial_key <= 10_000_000_000,
    ensures
        r == harmonic_key(kind, right_hand_fret, value as int, initial_key as int),
        initial_key - 40000 <= r <= initial_key + 40000,
{
    match kind {
        HarmonicType::Natural => {
            let v: i32 = value as i32;
            let rem: i32 = if v >= 0 {
                v % 12
            } else {
                -((-v) % 12)
            };
            let mut i: usize = 0;
            while i < NATURAL_FREQUENCY_COUNT
                invariant
                    i <= NATURAL_FREQUENCY_COUNT,
                    natural_row(rem12(value as int), 0) == natural_row(rem12(value as int), i as int),
                    rem == rem12(value as int),
                    -10_000_000_000 <= initial_key <= 10_000_000_000,
                    kind == HarmonicType::Natural,
                decreases NATURAL_FREQUENCY_COUNT - i,
            {
                let (hv, hf) = natural_frequencies(i);
                if rem == hv % 12 {
                    return initial_key + hf as i64 - value as i64;
                }
                i = i + 1;
            }
            initial_key
        },
        HarmonicType::Semi | HarmonicType::Artificial | HarmonicType::Pinch => initial_key + 12,
        HarmonicType::Tapped => match right_hand_fret {
            Some(f) => {
                let mut i: usize = 0;
                while i < NATURAL_FREQUENCY_COUNT
                    invariant
                        i <= NATURAL_FREQUENCY_COUNT,
                        tapped_row(f - value, 0) == tapped_row(f - value, i as int),
                        -10_000_000_000 <= initial_key <= 10_000_000_000,
                        kind == HarmonicType::Tapped,
                        right_hand_fret == Some(f),
                    decreases NATURAL_FREQUENCY_COUNT - i,
                {
                    let (hv, hf) = natural_frequencies(i);
                    if f as i32 - value as i32 == hv {
                        return initial_key + hf as i64;
                    }
                    i = i + 1;
                }
                initial_key
            },
            None => initial_key,
        },
    }
}

/// Collects playback events and repeats while walking a song.
pub struct MidiBuilder {
    events: Vec<MidiEvent>,
    repeats: Vec<Repeat>,
}

/// The pitch bend message of a value given on the 0 to 128 scale: on the
/// 14-bit wire the value times 128 splits into a low byte of 0 and a high
/// byte equal to the value.
pub open spec fn pitch_bend_event(tick: u32, track_id: usize, channel: i32, value: i32) -> MidiEvent {
    MidiEvent {
        tick,
        event: crate::midi_event::MidiEventType::MidiMessage(channel, 0xE0, 0, value),
        track: Some(track_id),
    }
}

/// A control change message.
pub open spec fn control_event(
    tick: u32,
    track_id: usize,
    channel: i32,
    control: i32,
    value: i32,
) -> MidiEvent {
    MidiEvent {
        tick,
        event: crate::midi_event::MidiEventType::MidiMessage(channel, 0xB0, control, value),
        track: Some(track_id),
    }
}

/// The six setup messages of a track's channel at the first tick: volume,
/// expression, chorus, reverb, bank and program.
pub open spec fn setup_events(track_id: usize, ch: MidiChannel) -> Seq<MidiEvent> {
    let c = ch.channel_id as i32;
    seq![
        control_event(FIRST_TICK, track_id, c, 0x27, ch.volume as i32),
        control_event(FIRST_TICK, track_id, c, 0x2B, 127),
        control_event(FIRST_TICK, track_id, c, 0x5D, ch.chorus as i32),
        control_event(FIRST_TICK, track_id, c, 0x5B, ch.reverb as i32),
        control_event(FIRST_TICK, track_id, c, 0x00, ch.bank as i32),
        (MidiEvent {
            tick: FIRST_TICK,
            event: crate::midi_event::MidiEventType::MidiMessage(c, 0xC0, ch.instrument, 0),
            track: Some(track_id),
        }),
    ]
}

/// The note-on, and the note-off when the duration is not zero.
pub open spec fn note_events(
    track_id: usize,
    key: i32,
    start: u32,
    duration: u32,
    velocity: i16,
    channel: i32,
) -> Seq<MidiEvent> {
    let on = MidiEvent {
        tick: start,
        event: crate::midi_event::MidiEventType::NoteOn(channel, key, velocity),
        track: Some(track_id),
    };
    let end = if start + duration > u32::MAX {
        u32::MAX
    } else {
        (start + duration) as u32
    };
    let off = MidiEvent {
        tick: end,
        event: crate::midi_event::MidiEventType::NoteOff(channel, key),
        track: Some(track_id),
    };
    if duration > 0 {
        seq![on, off]
    } else {
        seq![on]
    }
}

impl MidiBuilder {
    pub closed spec fn spec_events(&self) -> Seq<MidiEvent> {
        self.events@
    }

    pub closed spec fn spec_repeats(&self) -> Seq<Repeat> {
        self.repeats@
    }

    pub fn new() -> (r: Self)
        ensures
            r.spec_events().len() == 0,
            r.spec_repeats().len() == 0,
    {
        MidiBuilder { events: Vec::new(), repeats: Vec::new() }
    }

    fn add_event(&mut self, event: MidiEvent)
        requires
            event.tick >= 1,
            ticks_positive(old(self).events@),
        ensures
            final(self).events@ == old(self).events@.push(event),
            final(self).repeats@ == old(self).repeats@,
            ticks_positive(final(self).events@),
    {
        self.events.push(event);
    }

    fn add_note(
        &mut self,
        track_id: usize,
        key: i32,
        start: u32,
        duration: u32,
        velocity: i16,
        channel: i32,
    )
        requires
            start >= 1,
            ticks_positive(old(self).events@),
        ensures
            no_bends(old(self).events@, final(self).events@),
            stamped(old(self).events@, final(self).events@, track_id),
            final(self).events@ == old(self).events@ + note_events(
                track_id,
                key,
                start,
                duration,
                velocity,
                channel,
            ),
            final(self).repeats@ == old(self).repeats@,
            ticks_positive(final(self).events@),
    {
        let note_on = MidiEvent::new_note_on(start, track_id, key, velocity, channel);
        self.add_event(note_on);
        if duration > 0 {
            let tick = start.saturating_add(duration);
            let note_off = MidiEvent::new_note_off(tick, track_id, key, channel);
            self.add_event(note_off);
        }
        proof {
            let n = note_events(track_id, key, start, duration, velocity, channel);
            assert(final(self).events@ =~= old(self).events@ + n);
        }
    }

    fn add_tempo_change(&mut self, tick: u32, tempo: u32)
        requires
            tick >= 1,
            ticks_positive(old(self).events@),
        ensures
            no_bends(old(self).events@, final(self).events@),
            final(self).events@ == old(self).events@.push(
                MidiEvent {
                    tick,
                    event: crate::midi_event::MidiEventType::TempoChange(tempo),
                    track: None,
                },
            ),
            final(self).repeats@ == old(self).repeats@,
            ticks_positive(final(self).events@),
    {
        let event = MidiEvent::new_tempo_change(tick, tempo);
        self.add_event(event);
    }

    fn add_control(&mut self, tick: u32, track_id: usize, channel: i32, control: i32, value: i32)
        requires
            tick >= 1,
            ticks_positive(old(self).events@),
        ensures
            no_bends(old(self).events@, final(self).events@),
            stamped(old(self).events@, final(self).events@, track_id),
            final(self).events@ == old(self).events@.push(
                control_event(tick, track_id, channel, control, value),
            ),
            final(self).repeats@ == old(self).repeats@,
            ticks_positive(final(self).events@),
    {
        let event = MidiEvent::new_midi_message(tick, track_id, channel, 0xB0, control, value);
        self.add_event(event);
    }

    fn add_bank_selection(&mut self, tick: u32, track_id: usize, channel: i32, bank: i32)
        requires
            tick >= 1,
            ticks_positive(old(self).events@),
        ensures
            no_bends(old(self).events@, final(self).events@),
            stamped(old(self).events@, final(self).events@, track_id),
            final(self).events@ == old(self).events@.push(
                control_event(tick, track_id, channel, 0x00, bank),
            ),
            final(self).repeats@ == old(self).repeats@,
            ticks_positive(final(self).events@),
    {
        self.add_control(tick, track_id, channel, 0x00, bank);
    }

    fn add_volume_selection(&mut self, tick: u32, track_id: usize, channel: i32, volume: i32)
        requires
            tick >= 1,
            ticks_positive(old(self).events@),
        ensures
            no_bends(old(self).events@, final(self).events@),
            stamped(old(self).events@, final(self).events@, track_id),
            final(self).events@ == old(self).events@.push(
                control_event(tick, track_id, channel, 0x27, volume),
            ),
            final(self).repeats@ == old(self).repeats@,
            ticks_positive(final(self).events@),
    {
        self.add_control(tick, track_id, channel, 0x27, volume);
    }

    fn add_expression_selection(
        &mut self,
        tick: u32,
        track_id: usize,
        channel: i32,
        expression: i32,
    )
        requires
            tick >= 1,
            ticks_positive(old(self).events@),
        ensures
            no_bends(old(self).events@, final(self).events@),
            stamped(old(self).events@, final(self).events@, track_id),
            final(self).events@ == old(self).events@.push(
                control_event(tick, track_id, channel, 0x2B, expression),
            ),
            final(self).repeats@ == old(self).repeats@,
            ticks_positive(final(self).events@),
    {
        self.add_control(tick, track_id, channel, 0x2B, expression);
    }

    fn add_chorus_selection(&mut self, tick: u32, track_id: usize, channel: i32, chorus: i32)
        requires
            tick >= 1,
            ticks_positive(old(self).events@),
        ensures
            no_bends(old(self).events@, final(self).events@),
            stamped(old(self).events@, final(self).events@, track_id),
            final(self).events@ == old(self).events@.push(
                control_event(tick, track_id, channel, 0x5D, chorus),
            ),
            final(self).repeats@ == old(self).repeats@,
            ticks_positive(final(self).events@),
    {
        self.add_control(tick, track_id, channel, 0x5D, chorus);
    }

    fn add_reverb_selection(&mut self, tick: u32, track_id: usize, channel: i32, reverb: i32)
        requires
            tick >= 1,
            ticks_positive(old(self).events@),
        ensures
            no_bends(old(self).events@, final(self).events@),
            stamped(old(self).events@, final(self).events@, track_id),
            final(self).events@ == old(self).events@.push(
                control_event(tick, track_id, channel, 0x5B, reverb),
            ),
            final(self).repeats@ == old(self).repeats@,
            ticks_positive(final(self).events@),
    {
        self.add_control(tick, track_id, channel, 0x5B, reverb);
    }

    fn add_expression(&mut self, tick: u32, track_id: usize, channel: i32, expression: i32)
        requires
            tick >= 1,
            ticks_positive(old(self).events@),
        ensures
            no_bends(old(self).events@, final(self).events@),
            stamped(old(self).events@, final(self).events@, track_id),
            final(self).events@ == old(self).events@.push(
                control_event(tick, track_id, channel, 0x0B, expression),
            ),
            final(self).repeats@ == old(self).repeats@,
            ticks_positive(final(self).events@),
    {
        self.add_control(tick, track_id, channel, 0x0B, expression);
    }

    fn add_program_selection(&mut self, tick: u32, track_id: usize, channel: i32, program: i32)
        requires
            tick >= 1,
            ticks_positive(old(self).events@),
        ensures
            no_bends(old(self).events@, final(self).events@),
            stamped(old(self).events@, final(self).events@, track_id),
            final(self).events@ == old(self).events@.push(
                MidiEvent {
                    tick,
                    event: crate::midi_event::MidiEventType::MidiMessage(channel, 0xC0, program, 0),
                    track: Some(track_id),
                },
            ),
            final(self).repeats@ == old(self).repeats@,
            ticks_positive(final(self).events@),
    {
        let event = MidiEvent::new_midi_message(tick, track_id, channel, 0xC0, program, 0);
        self.add_event(event);
    }

    fn add_pitch_bend(&mut self, tick: u32, track_id: usize, channel: i32, value: i32)
        requires
            tick >= 1,
            ticks_positive(old(self).events@),
        ensures
            stamped(old(self).events@, final(self).events@, track_id),
            final(self).events@ == old(self).events@.push(
                pitch_bend_event(tick, track_id, channel, value),
            ),
            final(self).repeats@ == old(self).repeats@,
            ticks_positive(final(self).events@),
    {
        let event = MidiEvent::new_midi_message(tick, track_id, channel, 0xE0, 0, value);
        self.add_event(event);
    }

    /// The six setup messages of a track's channel, all at the first tick:
    /// volume, expression, chorus, reverb, bank and program.
    fn add_track_channel_midi_control(&mut self, track_id: usize, midi_channel: &MidiChannel)
        requires
            ticks_positive(old(self).events@),
        ensures
            no_bends(old(self).events@, final(self).events@),
            stamped(old(self).events@, final(self).events@, track_id),
            final(self).events@.len() == old(self).events@.len() + 6,
            grows(old(self).events@, final(self).events@),
            final(self).events@ == old(self).events@ + setup_events(track_id, *midi_channel),
            forall|i: int|
                old(self).events@.len() <= i < final(self).events@.len()
                    ==> final(self).events@[i].tick == FIRST_TICK,
            final(self).repeats@ == old(self).repeats@,
            ticks_positive(final(self).events@),
    {
        let channel_id = midi_channel.channel_id as i32;
        let info_tick = FIRST_TICK;
        self.add_volume_selection(info_tick, track_id, channel_id, midi_channel.volume as i32);
        self.add_expression_selection(info_tick, track_id, channel_id, 127);
        self.add_chorus_selection(info_tick, track_id, channel_id, midi_channel.chorus as i32);
        self.add_reverb_selection(info_tick, track_id, channel_id, midi_channel.reverb as i32);
        self.add_bank_selection(info_tick, track_id, channel_id, midi_channel.bank as i32);
        self.add_program_selection(info_tick, track_id, channel_id, midi_channel.instrument);
        proof {
            assert(self.events@ =~= old(self).events@ + setup_events(track_id, *midi_channel));
        }
    }
}


/// `b` keeps `a` as its prefix and every event added is of track `t`.
pub open spec fn stamped(a: Seq<MidiEvent>, b: Seq<MidiEvent>, t: usize) -> bool {
    grows(a, b) && forall|i: int| a.len() <= i < b.len() ==> #[trigger] b[i].track == Some(t)
}

/// `b` keeps `a` as its prefix and every event added is of track `t` or of
/// no track.
pub open spec fn owned(a: Seq<MidiEvent>, b: Seq<MidiEvent>, t: usize) -> bool {
    grows(a, b) && forall|i: int| a.len() <= i < b.len() ==> (#[trigger] b[i].track == Some(t) || b[i].track is None)
}

proof fn lemma_stamped_trans(a: Seq<MidiEvent>, b: Seq<MidiEvent>, c: Seq<MidiEvent>, t: usize)
    requires
        stamped(a, b, t),
        stamped(b, c, t),
    ensures
        stamped(a, c, t),
{
    lemma_grows_trans(a, b, c);
    assert forall|i: int| a.len() <= i < c.len() implies #[trigger] c[i].track == Some(t) by {
        if i < b.len() {
            assert(c[i] == b[i]);
        }
    }
}

proof fn lemma_owned_trans(a: Seq<MidiEvent>, b: Seq<MidiEvent>, c: Seq<MidiEvent>, t: usize)
    requires
        owned(a, b, t),
        owned(b, c, t),
    ensures
        owned(a, c, t),
{
    lemma_grows_trans(a, b, c);
    assert forall|i: int| a.len() <= i < c.len() implies (#[trigger] c[i].track == Some(t) || c[i].track is None) by {
        if i < b.len() {
            assert(c[i] == b[i]);
        }
    }
}

/// The event is a pitch bend message.
pub open spec fn is_bend(e: MidiEvent) -> bool {
    e.event matches crate::midi_event::MidiEventType::MidiMessage(_, 0xE0, _, _)
}

/// No event added from `a` to `b` is a pitch bend.
pub open spec fn no_bends(a: Seq<MidiEvent>, b: Seq<MidiEvent>) -> bool {
    forall|i: int| a.len() <= i < b.len() ==> !is_bend(#[trigger] b[i])
}

proof fn lemma_no_bends_trans(a: Seq<MidiEvent>, b: Seq<MidiEvent>, c: Seq<MidiEvent>)
    requires
        grows(a, b),
        grows(b, c),
        no_bends(a, b),
        no_bends(b, c),
    ensures
        no_bends(a, c),
{
    assert forall|i: int| a.len() <= i < c.len() implies !is_bend(#[trigger] c[i]) by {
        if i < b.len() {
            assert(c[i] == b[i]);
        }
    }
}

/// Growing is transitive.
proof fn lemma_grows_trans(a: Seq<MidiEvent>, b: Seq<MidiEvent>, c: Seq<MidiEvent>)
    requires
        grows(a, b),
        grows(b, c),
    ensures
        grows(a, c),
{
    assert forall|i: int| 0 <= i < a.len() implies c[i] == a[i] by {
        assert(c[i] == b[i]);
    }
}

/// Tick offset of a bend point within `duration` ticks, saturated.
pub open spec fn point_offset(point: BendPoint, duration: int) -> int {
    let t = point.spec_time(duration);
    if t > u32::MAX {
        u32::MAX as int
    } else {
        t
    }
}

fn point_time(point: &BendPoint, duration: u32) -> (r: u32)
    ensures
        r == point_offset(*point, duration as int),
{
    proof {
        assert((duration as u64) * (point.position as u64) <= 0xffff_ffffu64 * 255)
            by (nonlinear_arith)
            requires
                duration <= 0xffff_ffffu32,
                point.position <= 255,
        ;
    }
    let t: u64 = duration as u64 * point.position as u64 / 12;
    if t > u32::MAX as u64 {
        u32::MAX
    } else {
        t as u32
    }
}

impl MidiBuilder {
    /// An oscillation between the unbent value and a small offset every 160
    /// ticks across the note, ending unbent.
    fn add_vibrato(&mut self, track_id: usize, start: u32, duration: u32, channel_id: i32)
        requires
            start >= 1,
            ticks_positive(old(self).events@),
        ensures
            grows(old(self).events@, final(self).events@),
            stamped(old(self).events@, final(self).events@, track_id),
            ticks_positive(final(self).events@),
            final(self).repeats@ == old(self).repeats@,
            final(self).events@.last() == pitch_bend_event(
                final(self).events@.last().tick,
                track_id,
                channel_id,
                DEFAULT_BEND,
            ),
    {
        let ghost e0 = self.events@;
        let end = start.saturating_add(duration);
        let mut next_start = start;
        while next_start < end
            invariant
                next_start >= 1,
                grows(e0, self.events@),
                stamped(e0, self.events@, track_id),
                ticks_positive(self.events@),
                self.repeats@ == old(self).repeats@,
            decreases end - next_start,
        {
            let stepped = next_start.saturating_add(160);
            next_start = if stepped > end {
                end
            } else {
                stepped
            };
            let ghost e1 = self.events@;
            self.add_pitch_bend(next_start, track_id, channel_id, DEFAULT_BEND);
            proof { lemma_grows_trans(e0, e1, self.events@); lemma_stamped_trans(e0, e1, self.events@, track_id); }
            let stepped = next_start.saturating_add(160);
            next_start = if stepped > end {
                end
            } else {
                stepped
            };
            let ghost e2 = self.events@;
            self.add_pitch_bend(next_start, track_id, channel_id, 65);
            proof { lemma_grows_trans(e0, e2, self.events@); lemma_stamped_trans(e0, e2, self.events@, track_id); }
        }
        let ghost e3 = self.events@;
        self.add_pitch_bend(next_start, track_id, channel_id, DEFAULT_BEND);
        proof { lemma_grows_trans(e0, e3, self.events@); lemma_stamped_trans(e0, e3, self.events@, track_id); }
    }

    /// A ramp from `value` to `next_value` by single steps, spread evenly up to
    /// the next point's tick and kept within `[0, 127]`.
    fn process_next_bend_values(
        &mut self,
        track_id: usize,
        channel_id: i32,
        value: i32,
        next_value: i32,
        bend_start: u32,
        start: u32,
        next_point: &BendPoint,
        duration: u32,
    )
        requires
            bend_start >= 1,
            -1000 <= value <= 1000,
            -1000 <= next_value <= 1000,
            ticks_positive(old(self).events@),
        ensures
            grows(old(self).events@, final(self).events@),
            stamped(old(self).events@, final(self).events@, track_id),
            ticks_positive(final(self).events@),
            final(self).repeats@ == old(self).repeats@,
            final(self).events@.len() == old(self).events@.len() + (if value < next_value {
                next_value - value
            } else {
                value - next_value
            }),
    {
        if value != next_value {
            let ghost e0 = self.events@;
            let next_bend_start = start.saturating_add(point_time(next_point, duration));
            let steps: u32 = if value < next_value {
                (next_value - value) as u32
            } else {
                (value - next_value) as u32
            };
            let width: u32 = next_bend_start.saturating_sub(bend_start) / steps;
            let mut v = value;
            let mut tick = bend_start;
            if value < next_value {
                while v < next_value
                    invariant
                        value <= v <= next_value,
                        tick >= 1,
                        grows(e0, self.events@),
                        stamped(e0, self.events@, track_id),
                        self.events@.len() == e0.len() + (v - value),
                        ticks_positive(self.events@),
                        self.repeats@ == old(self).repeats@,
                    decreases next_value - v,
                {
                    v = v + 1;
                    tick = tick.saturating_add(width);
                    let clamped = if v > 127 {
                        127
                    } else {
                        v
                    };
                    let ghost e1 = self.events@;
                    self.add_pitch_bend(tick, track_id, channel_id, clamped);
                    proof { lemma_grows_trans(e0, e1, self.events@); lemma_stamped_trans(e0, e1, self.events@, track_id); }
                }
            } else {
                while v > next_value
                    invariant
                        next_value <= v <= value,
                        tick >= 1,
                        grows(e0, self.events@),
                        stamped(e0, self.events@, track_id),
                        self.events@.len() == e0.len() + (value - v),
                        ticks_positive(self.events@),
                        self.repeats@ == old(self).repeats@,
                    decreases v - next_value,
                {
                    v = v - 1;
                    tick = tick.saturating_add(width);
                    let clamped = if v < 0 {
                        0
                    } else {
                        v
                    };
                    let ghost e1 = self.events@;
                    self.add_pitch_bend(tick, track_id, channel_id, clamped);
                    proof { lemma_grows_trans(e0, e1, self.events@); lemma_stamped_trans(e0, e1, self.events@, track_id); }
                }
            }
        }
    }

    /// The pitch bend ramp of a curve of points, 2.75 bend units per point unit
    /// for a bend (`per_unit` 275) and twice that for a tremolo bar, ending
    /// unbent at the end of the note.
    fn add_bend_points(
        &mut self,
        track_id: usize,
        start: u32,
        duration: u32,
        channel_id: i32,
        points: &Vec<BendPoint>,
        per_unit: i64,
    )
        requires
            start >= 1,
            per_unit == 275 || per_unit == 550,
            ticks_positive(old(self).events@),
        ensures
            grows(old(self).events@, final(self).events@),
            stamped(old(self).events@, final(self).events@, track_id),
            ticks_positive(final(self).events@),
            final(self).repeats@ == old(self).repeats@,
            final(self).events@.last() == pitch_bend_event(
                if start + duration > u32::MAX { u32::MAX } else { (start + duration) as u32 },
                track_id,
                channel_id,
                DEFAULT_BEND,
            ),
            points@.len() > 0 ==> final(self).events@[old(self).events@.len() as int]
                == pitch_bend_event(
                if start + point_offset(points@[0], duration as int) > u32::MAX {
                    u32::MAX
                } else {
                    (start + point_offset(points@[0], duration as int)) as u32
                },
                track_id,
                channel_id,
                bend_value(points@[0].value as int, per_unit as int) as i32,
            ),
    {
        let ghost e0 = self.events@;
        let mut i: usize = 0;
        while i < points.len()
            invariant
                start >= 1,
                per_unit == 275 || per_unit == 550,
                i <= points@.len(),
                i == 0 ==> self.events@ == e0,
                grows(e0, self.events@),
                stamped(e0, self.events@, track_id),
                ticks_positive(self.events@),
                self.repeats@ == old(self).repeats@,
                i > 0 ==> self.events@.len() > e0.len() && self.events@[e0.len() as int]
                    == pitch_bend_event(
                    if start + point_offset(points@[0], duration as int) > u32::MAX {
                        u32::MAX
                    } else {
                        (start + point_offset(points@[0], duration as int)) as u32
                    },
                    track_id,
                    channel_id,
                    bend_value(points@[0].value as int, per_unit as int) as i32,
                ),
            decreases points@.len() - i,
        {
            let point = &points[i];
            let (value, _) = bend_values(point.value, per_unit);
            let bend_start = start.saturating_add(point_time(point, duration));
            let ghost e1 = self.events@;
            self.add_pitch_bend(bend_start, track_id, channel_id, value);
            proof {
                lemma_grows_trans(e0, e1, self.events@); lemma_stamped_trans(e0, e1, self.events@, track_id);
                if i > 0 {
                    assert(self.events@[e0.len() as int] == e1[e0.len() as int]);
                } else {
                    assert(*point == points@[0]);
                    assert(bend_start == (if start + point_offset(points@[0], duration as int)
                        > u32::MAX {
                        u32::MAX
                    } else {
                        (start + point_offset(points@[0], duration as int)) as u32
                    }));
                    assert(value == bend_value(points@[0].value as int, per_unit as int) as i32);
                    assert(self.events@[e0.len() as int] == pitch_bend_event(bend_start, track_id, channel_id, value));
                }
            }
            let ghost first = self.events@[e0.len() as int];
            if i + 1 < points.len() {
                let next_point = &points[i + 1];
                let (_, next_value) = bend_values(next_point.value, per_unit);
                let ghost e2 = self.events@;
                self.process_next_bend_values(
                    track_id,
                    channel_id,
                    value,
                    next_value,
                    bend_start,
                    start,
                    next_point,
                    duration,
                );
                proof {
                    lemma_grows_trans(e0, e2, self.events@); lemma_stamped_trans(e0, e2, self.events@, track_id);
                    assert(self.events@[e0.len() as int] == e2[e0.len() as int]);
                }
            }
            assert(self.events@[e0.len() as int] == first);
            i = i + 1;
        }
        let ghost e3 = self.events@;
        self.add_pitch_bend(start.saturating_add(duration), track_id, channel_id, DEFAULT_BEND);
        proof { lemma_grows_trans(e0, e3, self.events@); lemma_stamped_trans(e0, e3, self.events@, track_id); }
    }

    fn add_bend(&mut self, track_id: usize, start: u32, duration: u32, channel_id: i32, bend: &BendEffect)
        requires
            start >= 1,
            ticks_positive(old(self).events@),
        ensures
            grows(old(self).events@, final(self).events@),
            stamped(old(self).events@, final(self).events@, track_id),
            ticks_positive(final(self).events@),
            final(self).repeats@ == old(self).repeats@,
            final(self).events@.last() == pitch_bend_event(
                if start + duration > u32::MAX { u32::MAX } else { (start + duration) as u32 },
                track_id,
                channel_id,
                DEFAULT_BEND,
            ),
    {
        self.add_bend_points(track_id, start, duration, channel_id, &bend.points, 275);
    }

    fn add_tremolo_bar(
        &mut self,
        track_id: usize,
        start: u32,
        duration: u32,
        channel_id: i32,
        tremolo_bar: &TremoloBarEffect,
    )
        requires
            start >= 1,
            ticks_positive(old(self).events@),
        ensures
            grows(old(self).events@, final(self).events@),
            stamped(old(self).events@, final(self).events@, track_id),
            ticks_positive(final(self).events@),
            final(self).repeats@ == old(self).repeats@,
            final(self).events@.last() == pitch_bend_event(
                if start + duration > u32::MAX { u32::MAX } else { (start + duration) as u32 },
                track_id,
                channel_id,
                DEFAULT_BEND,
            ),
    {
        self.add_bend_points(track_id, start, duration, channel_id, &tremolo_bar.points, 550);
    }
}


/// A harmonic other than a semi harmonic.
pub open spec fn plain_harmonic(h: Option<crate::song::HarmonicEffect>) -> bool {
    match h {
        Some(x) => x.kind != HarmonicType::Semi,
        None => false,
    }
}

/// The octave-down doubling of a harmonic at `key`: a softer note an octave
/// lower, when that is above key 0.
pub open spec fn doubling(
    track_id: usize,
    key: int,
    start: u32,
    duration: u32,
    velocity: i16,
    channel_id: i32,
) -> Seq<MidiEvent> {
    if key - 12 > 0 {
        note_events(
            track_id,
            clamp_i32(key - 12) as i32,
            start,
            duration,
            floor_velocity(velocity - 4 * VELOCITY_INCREMENT) as i16,
            channel_id,
        )
    } else {
        Seq::empty()
    }
}

/// `a` ends with `b`.
pub open spec fn ends_with(a: Seq<MidiEvent>, b: Seq<MidiEvent>) -> bool {
    a.len() >= b.len() && a.subrange(a.len() - b.len(), a.len() as int) == b
}

/// Key of a fretted note: the track's transposition plus the fret plus the
/// open string's pitch.
pub open spec fn initial_key_of(track_offset: int, note: Note, string_tuning: int) -> int {
    track_offset + note.value + string_tuning
}

/// Key of a note after its harmonic; a percussion channel plays no harmonic.
pub open spec fn resolved_key(
    track_offset: int,
    string_tuning: int,
    note: Note,
    percussion: bool,
) -> int {
    let k = initial_key_of(track_offset, note, string_tuning);
    match note.effect.harmonic {
        Some(h) => if percussion {
            k
        } else {
            harmonic_key(h.kind, h.right_hand_fret, note.value as int, k)
        },
        None => k,
    }
}

/// Whether the note's events are all emitted by a repeating effect: a trill or
/// tremolo picking, neither of which plays on a percussion channel.
pub open spec fn replaced_by_repetition(note: Note, percussion: bool) -> bool {
    !percussion && (note.effect.trill is Some || note.effect.tremolo_picking is Some)
}

impl MidiBuilder {
    /// A note played repeatedly from `start` for `duration` ticks, each time
    /// for `length` ticks, alternating with `other_key` when it is given;
    /// repetitions stop once less than ten ticks remain.
    fn add_repetitions(
        &mut self,
        track_id: usize,
        key: i32,
        other_key: Option<i32>,
        start: u32,
        duration: u32,
        length: u32,
        velocity: i16,
        channel_id: i32,
    )
        requires
            start >= 1,
            ticks_positive(old(self).events@),
        ensures
            grows(old(self).events@, final(self).events@),
            stamped(old(self).events@, final(self).events@, track_id),
            ticks_positive(final(self).events@),
            final(self).repeats@ == old(self).repeats@,
    {
        if length == 0 {
            return;
        }
        let ghost e0 = self.events@;
        let limit = start.saturating_add(duration);
        let mut tick = start;
        let mut len = length;
        let mut use_other = other_key.is_some();
        while (tick as u64) + 10 < limit as u64
            invariant
                tick >= 1,
                len >= 1,
                tick <= limit,
                grows(e0, self.events@),
                stamped(e0, self.events@, track_id),
                ticks_positive(self.events@),
                self.repeats@ == old(self).repeats@,
            decreases limit - tick,
        {
            if tick as u64 + len as u64 >= limit as u64 {
                len = limit - tick - 1;
            }
            let iter_key = match other_key {
                Some(k) => if use_other {
                    k
                } else {
                    key
                },
                None => key,
            };
            let ghost e1 = self.events@;
            self.add_note(track_id, iter_key, tick, len, velocity, channel_id);
            proof { lemma_grows_trans(e0, e1, self.events@); lemma_stamped_trans(e0, e1, self.events@, track_id); }
            use_other = !use_other;
            tick = tick + len;
        }
    }

    /// A linear pitch ramp from the note to the next note on the string, in
    /// steps of 120 ticks, ending unbent at the next beat.
    fn add_slide(
        &mut self,
        track_id: usize,
        channel_id: i32,
        start: u32,
        value_1: i16,
        value_2: i16,
        next_start: i64,
    )
        requires
            start >= 1,
            ticks_positive(old(self).events@),
        ensures
            grows(old(self).events@, final(self).events@),
            stamped(old(self).events@, final(self).events@, track_id),
            ticks_positive(final(self).events@),
            final(self).repeats@ == old(self).repeats@,
            final(self).events@.last() == pitch_bend_event(
                tick_of(next_start as int) as u32,
                track_id,
                channel_id,
                DEFAULT_BEND,
            ),
    {
        let ghost e0 = self.events@;
        let tick1 = start;
        let tick2 = to_tick(next_start);
        let distance: i64 = value_2 as i64 - value_1 as i64;
        let magnitude: i64 = if distance < 0 {
            -distance
        } else {
            distance
        };
        let length: i64 = tick2.saturating_sub(tick1) as i64;
        let points: i64 = length / 120;
        if points > 0 {
            let step: i64 = length / points;
            let mut p: i64 = 1;
            while p <= points
                invariant
                    1 <= p <= points + 1,
                    points == length / 120,
                    points > 0,
                    step == length / points,
                    0 <= length <= u32::MAX,
                    0 <= magnitude <= 65535,
                    tick1 >= 1,
                    grows(e0, self.events@),
                    stamped(e0, self.events@, track_id),
                    ticks_positive(self.events@),
                    self.repeats@ == old(self).repeats@,
                decreases points + 1 - p,
            {
                proof {
                    assert(step * points <= length) by (nonlinear_arith)
                        requires
                            step == length / points,
                            points > 0,
                            length >= 0,
                    ;
                    assert(0 <= step * p <= step * points) by (nonlinear_arith)
                        requires
                            1 <= p <= points,
                            step >= 0,
                    ;
                    assert(step * p * magnitude <= length * 65535) by (nonlinear_arith)
                        requires
                            0 <= step * p <= length,
                            0 <= magnitude <= 65535,
                    ;
                    assert(0 <= step * p * magnitude) by (nonlinear_arith)
                        requires
                            0 <= step * p,
                            0 <= magnitude,
                    ;
                    assert(length >= 120);
                    assert((step * p * magnitude) / (length as int) <= magnitude) by (nonlinear_arith)
                        requires
                            0 <= step * p <= length,
                            0 <= magnitude,
                            length > 0,
                    ;
                }
                let offset: i64 = step * p;
                let scaled: i64 = offset * magnitude / length;
                let tone: i64 = if distance < 0 {
                    -scaled
                } else {
                    scaled
                };
                let bend = trunc_div100_exec(6400 + 550 * tone) as i32;
                let bend_tick: u32 = tick1.saturating_add(offset as u32);
                let ghost e1 = self.events@;
                self.add_pitch_bend(bend_tick, track_id, channel_id, bend);
                proof { lemma_grows_trans(e0, e1, self.events@); lemma_stamped_trans(e0, e1, self.events@, track_id); }
                p = p + 1;
            }
        }
        let ghost e2 = self.events@;
        self.add_pitch_bend(tick2, track_id, channel_id, DEFAULT_BEND);
        proof { lemma_grows_trans(e0, e2, self.events@); lemma_stamped_trans(e0, e2, self.events@, track_id); }
    }

    /// An expression ramp from 31 toward 127 across the note, then full
    /// expression at its end.
    fn add_fade_in(&mut self, track_id: usize, channel_id: i32, start: u32, duration: u32)
        requires
            start >= 1,
            ticks_positive(old(self).events@),
        ensures
            no_bends(old(self).events@, final(self).events@),
            grows(old(self).events@, final(self).events@),
            stamped(old(self).events@, final(self).events@, track_id),
            ticks_positive(final(self).events@),
            final(self).repeats@ == old(self).repeats@,
            final(self).events@.last() == control_event(
                if start + duration > u32::MAX { u32::MAX } else { (start + duration) as u32 },
                track_id,
                channel_id,
                0x0B,
                127,
            ),
    {
        let ghost e0 = self.events@;
        let mut expression: i32 = 31;
        let mut tick = start;
        let end = start.saturating_add(duration);
        let tick_increment = duration / 96;
        while tick < end && expression < 127
            invariant
                31 <= expression <= 127,
                tick >= 1,
                grows(e0, self.events@),
                no_bends(e0, self.events@),
                stamped(e0, self.events@, track_id),
                ticks_positive(self.events@),
                self.repeats@ == old(self).repeats@,
            decreases 127 - expression,
        {
            let ghost e1 = self.events@;
            self.add_expression(tick, track_id, channel_id, expression);
            proof { lemma_grows_trans(e0, e1, self.events@); lemma_no_bends_trans(e0, e1, self.events@); lemma_stamped_trans(e0, e1, self.events@, track_id); }
            tick = tick.saturating_add(tick_increment);
            expression = expression + 1;
        }
        let ghost e2 = self.events@;
        self.add_expression(end, track_id, channel_id, 127);
        proof { lemma_grows_trans(e0, e2, self.events@); lemma_no_bends_trans(e0, e2, self.events@); lemma_stamped_trans(e0, e2, self.events@, track_id); }
    }

    /// A grace note before the main note. An on-beat grace, or one that would
    /// start within the first quarter, takes its time from the main note.
    fn add_grace(
        &mut self,
        track_id: usize,
        channel_id: i32,
        track_offset: i32,
        string_tuning: i32,
        start: &mut u32,
        duration: &mut u32,
        tempo: u32,
        grace: &crate::song::GraceEffect,
    )
        requires
            *old(start) >= 1,
            ticks_positive(old(self).events@),
        ensures
            no_bends(old(self).events@, final(self).events@),
            grows(old(self).events@, final(self).events@),
            stamped(old(self).events@, final(self).events@, track_id),
            ticks_positive(final(self).events@),
            final(self).repeats@ == old(self).repeats@,
            *final(start) >= 1,
    {
        let ghost e0 = self.events@;
        let grace_key = to_i32(track_offset as i64 + grace.fret as i64 + string_tuning as i64);
        let grace_length = grace.duration_time();
        let grace_duration = if grace.is_dead {
            apply_static_duration(tempo, DEFAULT_DURATION_DEAD, grace_length)
        } else {
            grace_length
        };
        let on_beat_duration = start.saturating_sub(grace_length);
        if grace.is_on_beat || (on_beat_duration as i64) < QUARTER_TIME {
            *start = start.saturating_add(grace_length);
            *duration = duration.saturating_sub(grace_length);
        }
        self.add_note(track_id, grace_key, *start - grace_length, grace_duration, grace.velocity, channel_id);
    }

    /// Bend, tremolo bar, slide and vibrato of a note on a pitched channel.
    fn add_pitch_effects(
        &mut self,
        track_id: usize,
        channel_id: i32,
        start: u32,
        duration: u32,
        note: &Note,
        next_note_beat: Option<(&Beat, &Note)>,
    )
        requires
            start >= 1,
            ticks_positive(old(self).events@),
        ensures
            (note.effect.bend is None && note.effect.tremolo_bar is None && note.effect.slide is None
                && !note.effect.vibrato) ==> final(self).events@ == old(self).events@,
            grows(old(self).events@, final(self).events@),
            stamped(old(self).events@, final(self).events@, track_id),
            ticks_positive(final(self).events@),
            final(self).repeats@ == old(self).repeats@,
    {
        let ghost e0 = self.events@;
        match &note.effect.bend {
            Some(bend_effect) => {
                let ghost e6 = self.events@;
                self.add_bend(track_id, start, duration, channel_id, bend_effect);
                proof { lemma_grows_trans(e0, e6, self.events@); lemma_stamped_trans(e0, e6, self.events@, track_id); }
            },
            None => {},
        }
        match &note.effect.tremolo_bar {
            Some(tremolo_bar) => {
                let ghost e7 = self.events@;
                self.add_tremolo_bar(track_id, start, duration, channel_id, tremolo_bar);
                proof { lemma_grows_trans(e0, e7, self.events@); lemma_stamped_trans(e0, e7, self.events@, track_id); }
            },
            None => {},
        }
        if note.effect.slide.is_some() {
            match next_note_beat {
                Some((next_beat, next_note)) => {
                    let ghost e8 = self.events@;
                    self.add_slide(track_id, channel_id, start, note.value, next_note.value, next_beat.start);
                    proof { lemma_grows_trans(e0, e8, self.events@); lemma_stamped_trans(e0, e8, self.events@, track_id); }
                },
                None => {},
            }
        }
        if note.effect.vibrato {
            let ghost e9 = self.events@;
            self.add_vibrato(track_id, start, duration, channel_id);
            proof { lemma_grows_trans(e0, e9, self.events@); lemma_stamped_trans(e0, e9, self.events@, track_id); }
        }
    }

    /// The key of a harmonic. A semi harmonic also plays the plain key softer;
    /// a harmonic more than an octave up is doubled an octave lower, softer still.
    fn add_harmonic(
        &mut self,
        track_id: usize,
        channel_id: i32,
        start: u32,
        duration: u32,
        note: &Note,
        harmonic: &crate::song::HarmonicEffect,
        initial_key: i64,
        velocity: i16,
    ) -> (key: i64)
        requires
            start >= 1,
            -10_000_000_000 <= initial_key <= 10_000_000_000,
            ticks_positive(old(self).events@),
        ensures
            grows(old(self).events@, final(self).events@),
            stamped(old(self).events@, final(self).events@, track_id),
            ticks_positive(final(self).events@),
            final(self).repeats@ == old(self).repeats@,
            key == harmonic_key(harmonic.kind, harmonic.right_hand_fret, note.value as int, initial_key as int),
            key - 12 > 0 ==> ends_with(
                final(self).events@,
                note_events(
                    track_id,
                    clamp_i32(key - 12) as i32,
                    start,
                    duration,
                    floor_velocity(velocity - 4 * VELOCITY_INCREMENT) as i16,
                    channel_id,
                ),
            ),
            harmonic.kind != HarmonicType::Semi ==> final(self).events@ == old(self).events@ + doubling(
                track_id,
                key as int,
                start,
                duration,
                velocity,
                channel_id,
            ),
    {
        let ghost e0 = self.events@;
        if harmonic.kind == HarmonicType::Semi {
            let semi_velocity: i16 = if (velocity as i32) - 48 < MIN_VELOCITY as i32 {
                MIN_VELOCITY
            } else {
                velocity - 48
            };
            self.add_note(track_id, to_i32(initial_key), start, duration, semi_velocity, channel_id);
        }
        let key = resolve_harmonic_key(harmonic.kind, harmonic.right_hand_fret, note.value, initial_key);
        if key - 12 > 0 {
            let double_velocity: i16 = if (velocity as i32) - 64 < MIN_VELOCITY as i32 {
                MIN_VELOCITY
            } else {
                velocity - 64
            };
            let ghost e11 = self.events@;
            let double_key = to_i32(key - 12);
            self.add_note(track_id, double_key, start, duration, double_velocity, channel_id);
            proof {
                lemma_grows_trans(e0, e11, self.events@); lemma_stamped_trans(e0, e11, self.events@, track_id);
                let n = note_events(track_id, double_key, start, duration, double_velocity, channel_id);
                assert(self.events@.subrange(self.events@.len() - n.len(), self.events@.len() as int) =~= n);
            }
        }
        proof {
            if key - 12 <= 0 && harmonic.kind != HarmonicType::Semi {
                assert(self.events@ =~= e0 + doubling(track_id, key as int, start, duration, velocity, channel_id));
            }
        }
        key
    }

    /// Emits the events of a note's effects. Returns the key the note itself
    /// is played at, or `None` when a trill or tremolo picking already played
    /// it. A grace note may move the note's start later and shorten it.
    fn add_key_effect(
        &mut self,
        track_id: usize,
        track_offset: i32,
        string_tuning: i32,
        start: &mut u32,
        duration: &mut u32,
        tempo: u32,
        note: &Note,
        next_note_beat: Option<(&Beat, &Note)>,
        velocity: i16,
        midi_channel: &MidiChannel,
    ) -> (r: Option<i32>)
        requires
            *old(start) >= 1,
            ticks_positive(old(self).events@),
        ensures
            midi_channel.bank == 128 ==> no_bends(old(self).events@, final(self).events@),
            grows(old(self).events@, final(self).events@),
            stamped(old(self).events@, final(self).events@, track_id),
            ticks_positive(final(self).events@),
            final(self).repeats@ == old(self).repeats@,
            *final(start) >= 1,
            note.effect.grace is None ==> *final(start) == *old(start) && *final(duration)
                == *old(duration),
            (r is None) <==> replaced_by_repetition(*note, midi_channel.bank == 128),
            r matches Some(k) ==> k == clamp_i32(
                resolved_key(
                    track_offset as int,
                    string_tuning as int,
                    *note,
                    midi_channel.bank == 128,
                ),
            ),
            r is Some && note.effect.harmonic is Some && midi_channel.bank != 128 && resolved_key(
                track_offset as int,
                string_tuning as int,
                *note,
                false,
            ) - 12 > 0 ==> ends_with(
                final(self).events@,
                note_events(
                    track_id,
                    clamp_i32(
                        resolved_key(track_offset as int, string_tuning as int, *note, false) - 12,
                    ) as i32,
                    *final(start),
                    *final(duration),
                    floor_velocity(velocity - 4 * VELOCITY_INCREMENT) as i16,
                    midi_channel.channel_id as i32,
                ),
            ),
            (midi_channel.bank != 128 && !note.effect.fade_in && note.effect.grace is None
                && note.effect.trill is None && note.effect.tremolo_picking is None && note.effect.bend is None
                && note.effect.tremolo_bar is None && note.effect.slide is None && !note.effect.vibrato
                && plain_harmonic(note.effect.harmonic)) ==> {
                let key = resolved_key(track_offset as int, string_tuning as int, *note, false);
                &&& final(self).events@ == old(self).events@ + doubling(
                    track_id,
                    key,
                    *old(start),
                    *old(duration),
                    velocity,
                    midi_channel.channel_id as i32,
                )
                &&& *final(start) == *old(start)
                &&& *final(duration) == *old(duration)
            },
    {
        let ghost e0 = self.events@;
        let channel_id = midi_channel.channel_id as i32;
        let is_percussion = midi_channel.is_percussion();
        let initial_key: i64 = track_offset as i64 + note.value as i64 + string_tuning as i64;
        if note.effect.fade_in {
            self.add_fade_in(track_id, channel_id, *start, *duration);
        }
        let ghost e1 = self.events@;
        match &note.effect.grace {
            Some(grace) => {
                self.add_grace(track_id, channel_id, track_offset, string_tuning, start, duration, tempo, grace);
            },
            None => {},
        }
        proof { lemma_grows_trans(e0, e1, self.events@); lemma_stamped_trans(e0, e1, self.events@, track_id); }
        if !is_percussion {
            match &note.effect.trill {
                Some(trill) => {
                    let trill_key = to_i32(track_offset as i64 + trill.fret as i64 + string_tuning as i64);
                    let trill_length = duration_ticks(&trill.duration);
                    let ghost e4 = self.events@;
                    self.add_repetitions(track_id, to_i32(initial_key), Some(trill_key), *start, *duration, trill_length, velocity, channel_id);
                    proof { lemma_grows_trans(e0, e4, self.events@); lemma_stamped_trans(e0, e4, self.events@, track_id); }
                    return None;
                },
                None => {},
            }
            match &note.effect.tremolo_picking {
                Some(tremolo_picking) => {
                    let tp_length = duration_ticks(&tremolo_picking.duration);
                    let ghost e5 = self.events@;
                    self.add_repetitions(track_id, to_i32(initial_key), None, *start, *duration, tp_length, velocity, channel_id);
                    proof { lemma_grows_trans(e0, e5, self.events@); lemma_stamped_trans(e0, e5, self.events@, track_id); }
                    return None;
                },
                None => {},
            }
            let ghost e6 = self.events@;
            self.add_pitch_effects(track_id, channel_id, *start, *duration, note, next_note_beat);
            proof { lemma_grows_trans(e0, e6, self.events@); lemma_stamped_trans(e0, e6, self.events@, track_id); }
            match &note.effect.harmonic {
                Some(harmonic) => {
                    let ghost e7 = self.events@;
                    let key = self.add_harmonic(track_id, channel_id, *start, *duration, note, harmonic, initial_key, velocity);
                    proof { lemma_grows_trans(e0, e7, self.events@); lemma_stamped_trans(e0, e7, self.events@, track_id); }
                    return Some(to_i32(key));
                },
                None => {},
            }
        }
        Some(to_i32(initial_key))
    }
}


/// The event belongs to a track played on a percussion channel (the first
/// channel with the track's channel id).
pub open spec fn percussion_event(song: Song, e: MidiEvent) -> bool {
    match e.track {
        Some(t) => t < song.tracks@.len() && (exists|c: int|
            0 <= c < song.midi_channels@.len() && song.midi_channels@[c].channel_id
                == song.tracks@[t as int].channel_id) && song.midi_channels@[channel_index(
            song.midi_channels@,
            song.tracks@[t as int].channel_id,
        )].bank == crate::song::DEFAULT_PERCUSSION_BANK,
        None => false,
    }
}

/// The event belongs to no track (tempo changes) or to one of the song's
/// `n` tracks.
pub open spec fn track_in_song(e: MidiEvent, n: int) -> bool {
    match e.track {
        Some(t) => t < n,
        None => true,
    }
}

/// Index of the first channel whose id is `id`.
pub open spec fn channel_index(channels: Seq<MidiChannel>, id: u8) -> int {
    choose|i: int|
        0 <= i < channels.len() && channels[i].channel_id == id && forall|j: int|
            0 <= j < i ==> channels[j].channel_id != id
}

/// Index of the first channel whose id is `channel_id`.
fn find_channel(channels: &Vec<MidiChannel>, channel_id: u8) -> (r: Option<usize>)
    ensures
        match r {
            Some(i) => i < channels@.len() && channels@[i as int].channel_id == channel_id && forall|j: int|
                0 <= j < i ==> channels@[j].channel_id != channel_id,
            None => forall|j: int| 0 <= j < channels@.len() ==> channels@[j].channel_id != channel_id,
        },
{
    let mut i: usize = 0;
    while i < channels.len()
        invariant
            i <= channels@.len(),
            forall|j: int| 0 <= j < i ==> channels@[j].channel_id != channel_id,
        decreases channels@.len() - i,
    {
        if channels[i].channel_id == channel_id {
            return Some(i);
        }
        i = i + 1;
    }
    None
}

/// `a + b`, saturated at the bounds of `i64`.
fn add_i64(a: i64, b: i64) -> (r: i64)
    ensures
        r == sat_i64(a + b),
{
    let x: i128 = a as i128 + b as i128;
    if x > i64::MAX as i128 {
        i64::MAX
    } else if x < i64::MIN as i128 {
        i64::MIN
    } else {
        x as i64
    }
}

/// `x` clamped into `0..=u32::MAX`.
pub open spec fn clamp_u32(x: int) -> int {
    if x < 0 {
        0
    } else if x > u32::MAX {
        u32::MAX as int
    } else {
        x
    }
}

fn clamp_to_u32(x: i64) -> (r: u32)
    ensures
        r == clamp_u32(x as int),
{
    if x < 0 {
        0
    } else if x > u32::MAX as i64 {
        u32::MAX
    } else {
        x as u32
    }
}

/// `a + b` saturated at the bounds of `i64`.
pub open spec fn sat_i64(x: int) -> int {
    if x > i64::MAX {
        i64::MAX as int
    } else if x < i64::MIN {
        i64::MIN as int
    } else {
        x
    }
}

/// The open repeat section after reading the first `n` headers: whether one is
/// open, its start, and the length of its measures so far (headers without a
/// positive length add nothing).
pub open spec fn section_after(headers: Seq<MeasureHeader>, n: int) -> (bool, int, int)
    decreases n,
{
    if n <= 0 || n > headers.len() {
        (false, 0, 0)
    } else {
        let prev = section_after(headers, n - 1);
        let h = headers[n - 1];
        let (open, start, length) = if h.repeat_open {
            (true, h.start as int, 0int)
        } else {
            prev
        };
        let add = open && h.time_signature.denominator.wf() && h.spec_length() > 0;
        (open, start, if add {
            sat_i64(length + h.spec_length())
        } else {
            length
        })
    }
}

/// The repeat that header `n - 1` closes, if it closes an open section:
/// back-to tick, plays, end tick.
pub open spec fn new_repeats(headers: Seq<MeasureHeader>, n: int) -> Seq<(int, int, int)> {
    let (open, start, length) = section_after(headers, n);
    let h = headers[n - 1];
    if h.repeat_close > 0 && open {
        seq![(clamp_u32(start), h.repeat_close as int, clamp_u32(sat_i64(start + length)))]
    } else {
        Seq::empty()
    }
}

/// The repeats closed by the first `n` headers, in order.
pub open spec fn repeats_of(headers: Seq<MeasureHeader>, n: int) -> Seq<(int, int, int)>
    decreases n,
{
    if n <= 0 || n > headers.len() {
        Seq::empty()
    } else {
        repeats_of(headers, n - 1) + new_repeats(headers, n)
    }
}

/// The repeats start with `prefix` and then hold, in order, the back-to
/// tick, plays and end tick of each entry of `rest`.
pub open spec fn same_repeats(repeats: Seq<Repeat>, prefix: Seq<Repeat>, rest: Seq<(int, int, int)>) -> bool {
    &&& repeats.len() == prefix.len() + rest.len()
    &&& forall|k: int| 0 <= k < prefix.len() ==> #[trigger] repeats[k] == prefix[k]
    &&& forall|k: int|
        0 <= k < rest.len() ==> #[trigger] repeats[prefix.len() + k].back_to == rest[k].0
            && repeats[prefix.len() + k].play_count == rest[k].1 && repeats[prefix.len() + k].end_time
            == rest[k].2
}

/// A tempo of the song model as a tempo event value, negative tempos as 0.
fn to_tempo(value: i32) -> (r: u32)
    ensures
        value >= 0 ==> r == value,
        value < 0 ==> r == 0,
{
    if value < 0 {
        0
    } else {
        value as u32
    }
}

/// The beat after `b` in the first voice, or else the first beat of the next
/// measure.
fn next_beat_of<'a>(track: &'a Track, m: usize, beats: &'a Vec<Beat>, b: usize) -> Option<&'a Beat> {
    if b < usize::MAX && b + 1 < beats.len() {
        Some(&beats[b + 1])
    } else if m < usize::MAX && m + 1 < track.measures.len() {
        let next_measure = &track.measures[m + 1];
        if next_measure.voices.len() > 0 && next_measure.voices[0].beats.len() > 0 {
            Some(&next_measure.voices[0].beats[0])
        } else {
            None
        }
    } else {
        None
    }
}

/// The first note on `string` in `beat`, if any.
fn note_of<'a>(beat: Option<&'a Beat>, string: i8) -> (r: Option<&'a Note>)
    ensures
        r matches Some(n) ==> n.string == string,
{
    match beat {
        Some(b) => match find_note_on_string(&b.notes, string) {
            Some(i) => Some(&b.notes[i]),
            None => None,
        },
        None => None,
    }
}

impl MidiBuilder {
    /// The events of every note of a beat that is not tied to the one before.
    /// A note on a string the track does not have is skipped.
    fn add_notes(
        &mut self,
        track_id: usize,
        track: &Track,
        measure_id: usize,
        measure_header: &MeasureHeader,
        midi_channel: &MidiChannel,
        previous_beat: Option<&Beat>,
        beat_id: usize,
        beat: &Beat,
        next_beat: Option<&Beat>,
    )
        requires
            beat_id < usize::MAX,
            ticks_positive(old(self).events@),
        ensures
            midi_channel.bank == 128 ==> no_bends(old(self).events@, final(self).events@),
            grows(old(self).events@, final(self).events@),
            stamped(old(self).events@, final(self).events@, track_id),
            ticks_positive(final(self).events@),
            final(self).repeats@ == old(self).repeats@,
    {
        let ghost e0 = self.events@;
        let mut start = to_tick(beat.start);
        let channel_id = midi_channel.channel_id as i32;
        let tempo = to_tempo(measure_header.tempo.value);
        let track_offset = track.offset;
        let beat_duration = duration_ticks(&beat.duration);
        let mut n: usize = 0;
        while n < beat.notes.len()
            invariant
                beat_id < usize::MAX,
                start >= 1,
                grows(e0, self.events@),
                midi_channel.bank == 128 ==> no_bends(e0, self.events@),
                stamped(e0, self.events@, track_id),
                ticks_positive(self.events@),
                self.repeats@ == old(self).repeats@,
            decreases beat.notes@.len() - n,
        {
            let note = &beat.notes[n];
            let string_index: i64 = note.string as i64 - 1;
            if note.kind != NoteType::Tie && 0 <= string_index && string_index < track.strings.len() as i64 {
                let (_string_id, string_tuning) = track.strings[string_index as usize];
                let mut duration = apply_duration_effect(
                    track,
                    measure_id,
                    beat_id,
                    note,
                    next_beat,
                    tempo,
                    beat_duration,
                );
                let previous_note = note_of(previous_beat, note.string);
                let next_note = note_of(next_beat, note.string);
                let next_note_beat = match (next_beat, next_note) {
                    (Some(b), Some(nn)) => Some((b, nn)),
                    _ => None,
                };
                let velocity = apply_velocity_effect(note, previous_note, midi_channel);
                let ghost e1 = self.events@;
                let key = self.add_key_effect(
                    track_id,
                    track_offset,
                    string_tuning,
                    &mut start,
                    &mut duration,
                    tempo,
                    note,
                    next_note_beat,
                    velocity,
                    midi_channel,
                );
                proof { lemma_grows_trans(e0, e1, self.events@); if midi_channel.bank == 128 { lemma_no_bends_trans(e0, e1, self.events@); } lemma_stamped_trans(e0, e1, self.events@, track_id); }
                match key {
                    Some(k) => {
                        let ghost e2 = self.events@;
                        self.add_note(track_id, k, start, duration, velocity, channel_id);
                        proof { lemma_grows_trans(e0, e2, self.events@); if midi_channel.bank == 128 { lemma_no_bends_trans(e0, e2, self.events@); } lemma_stamped_trans(e0, e2, self.events@, track_id); }
                    },
                    None => {},
                }
            }
            n = n + 1;
        }
    }

    /// The events of every beat with notes in every voice of measure `m`.
    fn add_beat_events(
        &mut self,
        track_id: usize,
        track: &Track,
        m: usize,
        measure_header: &MeasureHeader,
        midi_channel: &MidiChannel,
    )
        requires
            m < track.measures@.len(),
            ticks_positive(old(self).events@),
        ensures
            midi_channel.bank == 128 ==> no_bends(old(self).events@, final(self).events@),
            grows(old(self).events@, final(self).events@),
            stamped(old(self).events@, final(self).events@, track_id),
            ticks_positive(final(self).events@),
            final(self).repeats@ == old(self).repeats@,
    {
        let ghost e0 = self.events@;
        let measure = &track.measures[m];
        let mut v: usize = 0;
        while v < measure.voices.len()
            invariant
                grows(e0, self.events@),
                midi_channel.bank == 128 ==> no_bends(e0, self.events@),
                stamped(e0, self.events@, track_id),
                ticks_positive(self.events@),
                self.repeats@ == old(self).repeats@,
            decreases measure.voices@.len() - v,
        {
            let beats = &measure.voices[v].beats;
            let mut b: usize = 0;
            while b < beats.len()
                invariant
                    grows(e0, self.events@),
                    midi_channel.bank == 128 ==> no_bends(e0, self.events@),
                    stamped(e0, self.events@, track_id),
                    ticks_positive(self.events@),
                    self.repeats@ == old(self).repeats@,
                decreases beats@.len() - b,
            {
                let beat = &beats[b];
                if !beat.empty && beat.notes.len() > 0 {
                    let previous_beat = if b == 0 {
                        None
                    } else {
                        Some(&beats[b - 1])
                    };
                    let next_beat = next_beat_of(track, m, beats, b);
                    let ghost e1 = self.events@;
                    self.add_notes(
                        track_id,
                        track,
                        m,
                        measure_header,
                        midi_channel,
                        previous_beat,
                        b,
                        beat,
                        next_beat,
                    );
                    proof { lemma_grows_trans(e0, e1, self.events@); if midi_channel.bank == 128 { lemma_no_bends_trans(e0, e1, self.events@); } lemma_stamped_trans(e0, e1, self.events@, track_id); }
                }
                b = b + 1;
            }
            v = v + 1;
        }
    }

    /// The channel setup of a track, then its notes measure by measure; the
    /// first track also carries the tempo changes.
    fn add_track_events(
        &mut self,
        song_tempo: i32,
        track_id: usize,
        track: &Track,
        measure_headers: &Vec<MeasureHeader>,
        midi_channel: &MidiChannel,
    )
        requires
            ticks_positive(old(self).events@),
        ensures
            midi_channel.bank == 128 ==> no_bends(old(self).events@, final(self).events@),
            owned(old(self).events@, final(self).events@, track_id),
            grows(old(self).events@, final(self).events@),
            ticks_positive(final(self).events@),
            final(self).repeats@ == old(self).repeats@,
            final(self).events@.len() >= old(self).events@.len() + 6,
            final(self).events@.subrange(old(self).events@.len() as int, old(self).events@.len() + 6int)
                == setup_events(track_id, *midi_channel),
    {
        let ghost e0 = self.events@;
        self.add_track_channel_midi_control(track_id, midi_channel);
        let ghost e_setup = self.events@;
        assert(e_setup[e0.len() as int].tick == FIRST_TICK);
        let mut prev_tempo: i32 = song_tempo;
        let count = if track.measures.len() < measure_headers.len() {
            track.measures.len()
        } else {
            measure_headers.len()
        };
        let mut i: usize = 0;
        while i < count
            invariant
                count <= track.measures@.len(),
                count <= measure_headers@.len(),
                grows(e_setup, self.events@),
                midi_channel.bank == 128 ==> no_bends(e_setup, self.events@),
                owned(e_setup, self.events@, track_id),
                e_setup.len() > e0.len(),
                e_setup[e0.len() as int].tick == FIRST_TICK,
                grows(e0, e_setup),
                ticks_positive(self.events@),
                self.repeats@ == old(self).repeats@,
            decreases count - i,
        {
            let measure_header = &measure_headers[i];
            if track_id == 0 {
                let measure_tempo = measure_header.tempo.value;
                if measure_tempo != prev_tempo {
                    let ghost e1 = self.events@;
                    self.add_tempo_change(to_tick(measure_header.start), to_tempo(measure_tempo));
                    proof {
                        lemma_grows_trans(e_setup, e1, self.events@); if midi_channel.bank == 128 { lemma_no_bends_trans(e_setup, e1, self.events@); }
                        lemma_owned_trans(e_setup, e1, self.events@, track_id);
                    }
                    prev_tempo = measure_tempo;
                }
            }
            let ghost e2 = self.events@;
            self.add_beat_events(track_id, track, i, measure_header, midi_channel);
            proof {
                lemma_grows_trans(e_setup, e2, self.events@); if midi_channel.bank == 128 { lemma_no_bends_trans(e_setup, e2, self.events@); }
                lemma_owned_trans(e_setup, e2, self.events@, track_id);
            }
            i = i + 1;
        }
        proof {
            lemma_grows_trans(e0, e_setup, self.events@); if midi_channel.bank == 128 { lemma_no_bends_trans(e0, e_setup, self.events@); }
            lemma_owned_trans(e0, e_setup, self.events@, track_id);
            assert(self.events@.subrange(e0.len() as int, e0.len() + 6int) =~= e_setup.subrange(
                e0.len() as int,
                e0.len() + 6int,
            ));
            assert(e_setup.subrange(e0.len() as int, e0.len() + 6int) =~= setup_events(track_id, *midi_channel));
        }
    }

    /// One repeat per closing repeat sign after an opening one: it goes back to
    /// the start of the measure that opened the section and ends after the
    /// measures since then. A closing sign with no opening before it is ignored.
    fn add_repeats(&mut self, song: &Song)
        ensures
            final(self).events@ == old(self).events@,
            same_repeats(
                final(self).repeats@,
                old(self).repeats@,
                repeats_of(song.measure_headers@, song.measure_headers@.len() as int),
            ),
    {
        let mut open = false;
        let mut start: i64 = 0;
        let mut length: i64 = 0;
        let mut i: usize = 0;
        let ghost base = self.repeats@;
        while i < song.measure_headers.len()
            invariant
                i <= song.measure_headers@.len(),
                self.events@ == old(self).events@,
                base == old(self).repeats@,
                section_after(song.measure_headers@, i as int) == (open, start as int, length as int),
                same_repeats(self.repeats@, base, repeats_of(song.measure_headers@, i as int)),
            decreases song.measure_headers@.len() - i,
        {
            let measure_header = &song.measure_headers[i];
            if measure_header.repeat_open {
                open = true;
                start = measure_header.start;
                length = 0;
            }
            if open && measure_header.time_signature.denominator.value > 0
                && measure_header.time_signature.denominator.tuplet_enters > 0 {
                let l = measure_header.length();
                length = if l > 0 {
                    add_i64(length, l)
                } else {
                    length
                };
            }
            proof {
                let h = song.measure_headers@[i as int];
                assert(*measure_header == h);
                assert(section_after(song.measure_headers@, i + 1) == (open, start as int, length as int));
            }
            let ghost before = self.repeats@;
            if measure_header.repeat_close > 0 && open {
                let back_to = clamp_to_u32(start);
                let end_time = clamp_to_u32(add_i64(start, length));
                let repeat = Repeat::new(back_to, measure_header.repeat_close as u8, end_time);
                self.repeats.push(repeat);
            }
            proof {
                let prev = repeats_of(song.measure_headers@, i as int);
                let next = repeats_of(song.measure_headers@, i + 1);
                assert(next == prev + new_repeats(song.measure_headers@, i + 1));
                assert forall|k: int| 0 <= k < next.len() implies #[trigger] self.repeats@[base.len() + k].back_to
                    == next[k].0 && self.repeats@[base.len() + k].play_count == next[k].1
                    && self.repeats@[base.len() + k].end_time == next[k].2 by {
                    if k < prev.len() {
                        assert(next[k] == prev[k]);
                        assert(self.repeats@[base.len() + k] == before[base.len() + k]);
                    } else {
                        assert(next[k] == new_repeats(song.measure_headers@, i + 1)[0]);
                    }
                }
            }
            i = i + 1;
        }
    }

    /// All events of a song sorted by tick (events of one tick keep the order
    /// they were made in), and its repeats. A track whose channel is missing
    /// from the song's channel table plays nothing.
    pub fn build_for_song(self, song: &std::rc::Rc<Song>) -> (r: (Vec<MidiEvent>, Vec<Repeat>))
        requires
            self.spec_events().len() == 0,
            self.spec_repeats().len() == 0,
        ensures
            same_repeats(
                r.1@,
                Seq::empty(),
                repeats_of(song.measure_headers@, song.measure_headers@.len() as int),
            ),
            sorted_by_tick(r.0@),
            ticks_positive(r.0@),
            (song.tracks@.len() > 0 && exists|c: int|
                0 <= c < song.midi_channels@.len() && song.midi_channels@[c].channel_id
                    == song.tracks@[0].channel_id) ==> r.0@.len() >= 6 && r.0@[0].tick == FIRST_TICK
                && r.0@.subrange(0, 6) == setup_events(
                0,
                song.midi_channels@[channel_index(song.midi_channels@, song.tracks@[0].channel_id)],
            ),
            song.tracks@.len() == 0 ==> r.0@.len() == 0,
            forall|i: int| 0 <= i < r.0@.len() ==> track_in_song(#[trigger] r.0@[i], song.tracks@.len() as int),
            forall|i: int|
                0 <= i < r.0@.len() && percussion_event(**song, #[trigger] r.0@[i]) ==> !is_bend(r.0@[i]),
    {
        let song: &Song = &**song;
        let mut builder = self;
        let mut t: usize = 0;
        let mut first_found = false;
        while t < song.tracks.len()
            invariant
                t <= song.tracks@.len(),
                forall|i: int| 0 <= i < builder.events@.len() ==> track_in_song(#[trigger] builder.events@[i], t as int),
                forall|i: int|
                    0 <= i < builder.events@.len() && percussion_event(*song, #[trigger] builder.events@[i])
                        ==> !is_bend(builder.events@[i]),
                builder.repeats@.len() == 0,
                ticks_positive(builder.events@),
                t > 0 && first_found ==> builder.events@.len() >= 6 && builder.events@.subrange(0, 6)
                    == setup_events(
                    0,
                    song.midi_channels@[channel_index(song.midi_channels@, song.tracks@[0].channel_id)],
                ),
                t == 0 ==> builder.events@.len() == 0,
                t > 0 ==> (first_found <==> exists|c: int|
                    0 <= c < song.midi_channels@.len() && song.midi_channels@[c].channel_id
                        == song.tracks@[0].channel_id),
            decreases song.tracks@.len() - t,
        {
            let track = &song.tracks[t];
            let found = find_channel(&song.midi_channels, track.channel_id);
            match found {
                Some(c) => {
                    let ghost e1 = builder.events@;
                    builder.add_track_events(song.tempo.value, t, track, &song.measure_headers, &song.midi_channels[c]);
                    proof {
                        let ci = channel_index(song.midi_channels@, song.tracks@[t as int].channel_id);
                        assert(0 <= c < song.midi_channels@.len() && song.midi_channels@[c as int].channel_id
                            == song.tracks@[t as int].channel_id);
                        if ci < c {
                            assert(song.midi_channels@[ci].channel_id != song.tracks@[t as int].channel_id);
                        } else if c < ci {
                            assert(song.midi_channels@[c as int].channel_id != song.tracks@[t as int].channel_id);
                        }
                        assert(ci == c);
                        assert forall|i: int|
                            0 <= i < builder.events@.len() && percussion_event(*song, #[trigger] builder.events@[i])
                                implies !is_bend(builder.events@[i]) by {
                            if i < e1.len() {
                                assert(builder.events@[i] == e1[i]);
                            } else {
                                assert(builder.events@[i].track == Some(t) || builder.events@[i].track is None);
                            }
                        }
                        assert forall|i: int| 0 <= i < builder.events@.len() implies track_in_song(
                            #[trigger] builder.events@[i],
                            t + 1,
                        ) by {
                            if i < e1.len() {
                                assert(builder.events@[i] == e1[i]);
                                assert(track_in_song(e1[i], t as int));
                            }
                        }
                        if t > 0 && first_found {
                            assert(builder.events@.subrange(0, 6) =~= e1.subrange(0, 6));
                        }
                        if t == 0 {
                            let ci = channel_index(song.midi_channels@, song.tracks@[0].channel_id);
                            assert(0 <= c < song.midi_channels@.len() && song.midi_channels@[c as int].channel_id
                                == song.tracks@[0].channel_id);
                            if ci < c {
                                assert(song.midi_channels@[ci].channel_id != song.tracks@[0].channel_id);
                            } else if c < ci {
                                assert(song.midi_channels@[c as int].channel_id != song.tracks@[0].channel_id);
                            }
                            assert(e1.len() == 0);
                            assert(builder.events@.subrange(0, 6) =~= builder.events@.subrange(
                                e1.len() as int,
                                e1.len() + 6int,
                            ));
                        }
                    }
                },
                None => {},
            }
            if t == 0 {
                first_found = found.is_some();
                proof {
                    if found is None {
                        assert(!(exists|c: int|
                            0 <= c < song.midi_channels@.len() && song.midi_channels@[c].channel_id
                                == song.tracks@[0].channel_id));
                    }
                }
            }
            proof {
                assert forall|i: int| 0 <= i < builder.events@.len() implies track_in_song(
                    #[trigger] builder.events@[i],
                    t + 1,
                ) by {
                    assert(track_in_song(builder.events@[i], t as int) || track_in_song(builder.events@[i], t + 1));
                }
            }
            t = t + 1;
        }
        let ghost before = builder.events@;
        sort_by_tick(&mut builder.events);
        proof {
            let after = builder.events@;
            assert(ticks_positive(after)) by {
                assert forall|i: int| 0 <= i < after.len() implies after[i].tick >= 1 by {
                    assert(before.contains(after[i]));
                }
            }
            assert forall|i: int| 0 <= i < after.len() && percussion_event(*song, #[trigger] after[i]) implies !is_bend(
                after[i],
            ) by {
                assert(before.contains(after[i]));
                let j = choose|j: int| 0 <= j < before.len() && before[j] == after[i];
                assert(percussion_event(*song, before[j]));
            }
            assert forall|i: int| 0 <= i < after.len() implies track_in_song(
                #[trigger] after[i],
                song.tracks@.len() as int,
            ) by {
                assert(before.contains(after[i]));
                let j = choose|j: int| 0 <= j < before.len() && before[j] == after[i];
                assert(track_in_song(before[j], t as int));
            }
            if song.tracks@.len() > 0 && first_found {
                let prefix = before.subrange(0, 6);
                assert forall|i: int| 0 <= i < prefix.len() implies #[trigger] prefix[i].tick == FIRST_TICK by {}
                assert(at_tick(after, FIRST_TICK) == at_tick(before, FIRST_TICK));
                lemma_sorted_prefix(before, after, prefix);
                assert(after[0] == after.subrange(0, 6)[0]);
            }
        }
        builder.add_repeats(song);
        (builder.events, builder.repeats)
    }
}

} // verus!

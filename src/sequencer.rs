//! Replays a sorted event list against a clock: each advance moves a tick
//! cursor, and the events in the window crossed are handed out once.
use vstd::prelude::*;
use crate::midi_event::MidiEvent;
use crate::player_params::{MidiPlayerParams, Repeat, adjusted};

verus! {

#[verifier::external_type_specification]
#[verifier::external_body]
pub struct ExInstant(std::time::Instant);

/// Relies on std::time::Instant::now: reads the monotonic clock.
pub assume_specification[ std::time::Instant::now ]() -> std::time::Instant;

/// Relies on std::time::Instant::duration_since: the time elapsed from `earlier`
/// (zero when `earlier` is later).
pub assume_specification[ std::time::Instant::duration_since ](
    this: &std::time::Instant,
    earlier: std::time::Instant,
) -> core::time::Duration;

/// Relies on core::time::Duration::as_secs: the whole seconds of a duration.
pub assume_specification[ core::time::Duration::as_secs ](d: &core::time::Duration) -> u64;

/// Relies on core::time::Duration::subsec_micros: the fraction of a second in
/// microseconds, always under one million.
pub assume_specification[ core::time::Duration::subsec_micros ](d: &core::time::Duration) -> (r:
    u32)
    ensures
        r < 1_000_000,
;

/// Ticks in one quarter note.
pub const QUARTER_TICKS: u128 = 960;

/// Ticks that pass in `elapsed_micros` microseconds at `tempo_bpm` quarter
/// notes per minute, truncated, saturated at `u32::MAX`.
pub open spec fn spec_tick_increase(tempo_bpm: int, elapsed_micros: int) -> int {
    let t = (960 * tempo_bpm * elapsed_micros) / 60_000_000;
    if t > u32::MAX {
        u32::MAX as int
    } else {
        t
    }
}

/// Ticks that pass in `elapsed_micros` microseconds at `tempo_bpm`.
pub fn tick_increase(tempo_bpm: u32, elapsed_micros: u64) -> (r: u32)
    ensures
        r == spec_tick_increase(tempo_bpm as int, elapsed_micros as int),
{
    proof {
        assert(960 * (tempo_bpm as u128) * (elapsed_micros as u128) <= 960 * 0xffff_ffffu128
            * 0xffff_ffff_ffff_ffffu128) by (nonlinear_arith)
            requires
                tempo_bpm <= 0xffff_ffffu32,
                elapsed_micros <= 0xffff_ffff_ffff_ffffu64,
        ;
    }
    let bump: u128 = QUARTER_TICKS * tempo_bpm as u128 * elapsed_micros as u128 / 60_000_000;
    if bump > u32::MAX as u128 {
        u32::MAX
    } else {
        bump as u32
    }
}

/// `p` splits `s` at tick `t`: the events before `p` are at `t` or earlier,
/// those from `p` on are later.
pub open spec fn is_split(s: Seq<MidiEvent>, t: int, p: int) -> bool {
    &&& 0 <= p <= s.len()
    &&& forall|i: int| 0 <= i < p ==> s[i].tick <= t
    &&& forall|i: int| p <= i < s.len() ==> s[i].tick > t
}

/// The events are in non-decreasing tick order.
pub open spec fn sorted_by_tick(s: Seq<MidiEvent>) -> bool {
    forall|i: int, j: int| 0 <= i <= j < s.len() ==> s[i].tick <= s[j].tick
}

/// The repeats are in non-decreasing order of the tick they go back to.
pub open spec fn sorted_by_back_to(s: Seq<Repeat>) -> bool {
    forall|i: int, j: int| 0 <= i <= j < s.len() ==> s[i].back_to <= s[j].back_to
}

/// Number of events at tick `t` or earlier in a sorted list.
pub open spec fn split(s: Seq<MidiEvent>, t: int) -> int {
    choose|p: int| is_split(s, t, p)
}

/// The events of a sorted list whose tick lies in `(from, to]`.
pub open spec fn window(s: Seq<MidiEvent>, from: int, to: int) -> Seq<MidiEvent> {
    s.subrange(split(s, from), split(s, to))
}

/// Two split points of one tick are the same.
pub proof fn lemma_split_unique(s: Seq<MidiEvent>, t: int, p: int, q: int)
    requires
        is_split(s, t, p),
        is_split(s, t, q),
    ensures
        p == q,
{
    if p < q {
        assert(s[p].tick <= t);
    } else if q < p {
        assert(s[q].tick <= t);
    }
}

/// A sorted list splits at every tick.
pub proof fn lemma_split_exists(s: Seq<MidiEvent>, t: int)
    requires
        sorted_by_tick(s),
    ensures
        is_split(s, t, split(s, t)),
    decreases s.len(),
{
    if s.len() == 0 {
        assert(is_split(s, t, 0));
    } else if s.last().tick <= t {
        assert(is_split(s, t, s.len() as int));
    } else {
        let d = s.drop_last();
        assert(sorted_by_tick(d)) by {
            assert forall|i: int, j: int| 0 <= i <= j < d.len() implies d[i].tick <= d[j].tick by {
                assert(d[i] == s[i] && d[j] == s[j]);
            }
        }
        lemma_split_exists(d, t);
        let p = split(d, t);
        assert forall|i: int| p <= i < s.len() implies s[i].tick > t by {
            if i < s.len() - 1 {
                assert(d[i] == s[i]);
            }
        }
        assert forall|i: int| 0 <= i < p implies s[i].tick <= t by {
            assert(d[i] == s[i]);
        }
        assert(is_split(s, t, p));
    }
}

/// The split points of a sorted list do not go down as the tick grows.
pub proof fn lemma_split_monotonic(s: Seq<MidiEvent>, a: int, b: int)
    requires
        sorted_by_tick(s),
        a <= b,
    ensures
        split(s, a) <= split(s, b),
{
    lemma_split_exists(s, a);
    lemma_split_exists(s, b);
    if split(s, a) > split(s, b) {
        assert(s[split(s, b)].tick <= a);
    }
}

/// Total number of events handed out over successive windows
/// `(ticks[0], ticks[1]]`, `(ticks[1], ticks[2]]`, ...
pub open spec fn windows_total(s: Seq<MidiEvent>, ticks: Seq<u32>) -> int
    decreases ticks.len(),
{
    if ticks.len() < 2 {
        0
    } else {
        windows_total(s, ticks.drop_last()) + window(s, ticks[ticks.len() - 2] as int, ticks.last()
            as int).len()
    }
}

/// The windows handed out between successive ticks, one after the other.
pub open spec fn windows_concat(s: Seq<MidiEvent>, ticks: Seq<u32>) -> Seq<MidiEvent>
    decreases ticks.len(),
{
    if ticks.len() < 2 {
        Seq::empty()
    } else {
        windows_concat(s, ticks.drop_last()) + window(
            s,
            ticks[ticks.len() - 2] as int,
            ticks.last() as int,
        )
    }
}

/// Walking a sorted event list through a rising sequence of ticks hands out
/// each event between the first and the last tick exactly once, in order:
/// the windows put together are the events after the first tick and up to the
/// last one.
pub proof fn lemma_windows_cover(s: Seq<MidiEvent>, ticks: Seq<u32>)
    requires
        sorted_by_tick(s),
        ticks.len() >= 1,
        forall|i: int, j: int| 0 <= i <= j < ticks.len() ==> ticks[i] <= ticks[j],
    ensures
        windows_concat(s, ticks) == s.subrange(split(s, ticks[0] as int), split(s, ticks.last() as int)),
        windows_total(s, ticks) == split(s, ticks.last() as int) - split(s, ticks[0] as int),
    decreases ticks.len(),
{
    lemma_split_exists(s, ticks[0] as int);
    lemma_split_exists(s, ticks.last() as int);
    if ticks.len() >= 2 {
        let d = ticks.drop_last();
        lemma_windows_cover(s, d);
        let a = ticks[0] as int;
        let b = ticks[ticks.len() - 2] as int;
        let c = ticks.last() as int;
        lemma_split_monotonic(s, a, b);
        lemma_split_monotonic(s, b, c);
        lemma_split_exists(s, b);
        assert(s.subrange(split(s, a), split(s, b)) + s.subrange(split(s, b), split(s, c))
            =~= s.subrange(split(s, a), split(s, c)));
    }
}

/// Replaying a sorted list from tick 0 in any rising steps until the last
/// event's tick is passed hands out every event of tick 1 or later exactly once:
/// the counts add up to the length of the list when no event is at tick 0.
pub proof fn lemma_sequence_hands_out_all(s: Seq<MidiEvent>, ticks: Seq<u32>)
    requires
        sorted_by_tick(s),
        ticks.len() >= 1,
        ticks[0] == 0,
        forall|i: int, j: int| 0 <= i <= j < ticks.len() ==> ticks[i] <= ticks[j],
        forall|i: int| 0 <= i < s.len() ==> s[i].tick >= 1,
        forall|i: int| 0 <= i < s.len() ==> s[i].tick <= ticks.last(),
    ensures
        windows_concat(s, ticks) == s,
        windows_total(s, ticks) == s.len(),
{
    lemma_windows_cover(s, ticks);
    assert(is_split(s, 0, 0));
    assert(is_split(s, ticks.last() as int, s.len() as int));
    lemma_split_exists(s, 0);
    lemma_split_exists(s, ticks.last() as int);
    lemma_split_unique(s, 0, 0, split(s, 0));
    lemma_split_unique(s, ticks.last() as int, s.len() as int, split(s, ticks.last() as int));
    assert(s.subrange(0, s.len() as int) =~= s);
}

/// First index whose event is later than `t`.
fn upper_bound(events: &Vec<MidiEvent>, t: u32) -> (r: usize)
    requires
        sorted_by_tick(events@),
    ensures
        is_split(events@, t as int, r as int),
        r == split(events@, t as int),
{
    let mut lo: usize = 0;
    let mut hi: usize = events.len();
    while lo < hi
        invariant
            0 <= lo <= hi <= events@.len(),
            sorted_by_tick(events@),
            forall|i: int| 0 <= i < lo ==> events@[i].tick <= t,
            forall|i: int| hi <= i < events@.len() ==> events@[i].tick > t,
        decreases hi - lo,
    {
        let mid = lo + (hi - lo) / 2;
        if events[mid].tick <= t {
            lo = mid + 1;
        } else {
            hi = mid;
        }
    }
    proof {
        lemma_split_exists(events@, t as int);
        lemma_split_unique(events@, t as int, lo as int, split(events@, t as int));
    }
    lo
}

/// Number of repeats that go back to `t` or earlier.
fn repeats_upto(repeats: &Vec<Repeat>, t: u32) -> (r: usize)
    requires
        sorted_by_back_to(repeats@),
    ensures
        r <= repeats@.len(),
        forall|i: int| 0 <= i < r ==> repeats@[i].back_to <= t,
        forall|i: int| r <= i < repeats@.len() ==> repeats@[i].back_to > t,
{
    let mut lo: usize = 0;
    let mut hi: usize = repeats.len();
    while lo < hi
        invariant
            0 <= lo <= hi <= repeats@.len(),
            sorted_by_back_to(repeats@),
            forall|i: int| 0 <= i < lo ==> repeats@[i].back_to <= t,
            forall|i: int| hi <= i < repeats@.len() ==> repeats@[i].back_to > t,
        decreases hi - lo,
    {
        let mid = lo + (hi - lo) / 2;
        if repeats[mid].back_to <= t {
            lo = mid + 1;
        } else {
            hi = mid;
        }
    }
    lo
}

/// `k` splits the repeats at tick `t`: those before `k` go back to `t` or
/// earlier, the others later.
pub open spec fn is_repeat_split(repeats: Seq<Repeat>, t: int, k: int) -> bool {
    &&& 0 <= k <= repeats.len()
    &&& forall|i: int| 0 <= i < k ==> repeats[i].back_to <= t
    &&& forall|i: int| k <= i < repeats.len() ==> repeats[i].back_to > t
}

/// The repeat in force at tick `t`: the last one that goes back to `t` or
/// earlier, if it ends at `t` or later.
pub open spec fn repeat_at(repeats: Seq<Repeat>, t: int) -> Option<Repeat> {
    let k = choose|k: int| is_repeat_split(repeats, t, k);
    if k == 0 {
        None
    } else if repeats[k - 1].end_time >= t {
        Some(repeats[k - 1])
    } else {
        None
    }
}

pub struct MidiSequencer {
    current_tick: u32,
    last_tick: u32,
    last_time: std::time::Instant,
    sorted_events: Vec<MidiEvent>,
    sorted_repeats: Vec<Repeat>,
}

impl MidiSequencer {
    pub closed spec fn spec_tick(&self) -> u32 {
        self.current_tick
    }

    pub closed spec fn spec_last_tick(&self) -> u32 {
        self.last_tick
    }

    pub closed spec fn spec_events(&self) -> Seq<MidiEvent> {
        self.sorted_events@
    }

    pub closed spec fn spec_repeats(&self) -> Seq<Repeat> {
        self.sorted_repeats@
    }

    /// The events are sorted by tick, the repeats by the tick they go back
    /// to, and the last tick is not after the current one.
    pub open spec fn wf(&self) -> bool {
        &&& sorted_by_tick(self.spec_events())
        &&& sorted_by_back_to(self.spec_repeats())
        &&& self.spec_last_tick() <= self.spec_tick()
    }

    /// A sequencer at tick 0 over sorted events and repeats.
    pub fn new(sorted_events: Vec<MidiEvent>, sorted_repeats: Vec<Repeat>) -> (r: Self)
        requires
            sorted_by_tick(sorted_events@),
            sorted_by_back_to(sorted_repeats@),
        ensures
            r.wf(),
            r.spec_tick() == 0,
            r.spec_last_tick() == 0,
            r.spec_events() == sorted_events@,
            r.spec_repeats() == sorted_repeats@,
    {
        MidiSequencer {
            current_tick: 0,
            last_tick: 0,
            last_time: std::time::Instant::now(),
            sorted_events,
            sorted_repeats,
        }
    }

    pub fn events(&self) -> (r: &[MidiEvent])
        ensures
            r@ == self.spec_events(),
    {
        self.sorted_events.as_slice()
    }

    /// Moves both cursors to `tick`: the next advance starts from there.
    pub fn set_tick(&mut self, tick: u32)
        requires
            old(self).wf(),
        ensures
            final(self).wf(),
            final(self).spec_tick() == tick,
            final(self).spec_last_tick() == tick,
            final(self).spec_events() == old(self).spec_events(),
            final(self).spec_repeats() == old(self).spec_repeats(),
    {
        self.last_tick = tick;
        self.current_tick = tick;
    }

    /// Anchors the clock at the present moment.
    pub fn reset_last_time(&mut self)
        requires
            old(self).wf(),
        ensures
            final(self).wf(),
            final(self).spec_tick() == old(self).spec_tick(),
            final(self).spec_last_tick() == old(self).spec_last_tick(),
            final(self).spec_events() == old(self).spec_events(),
            final(self).spec_repeats() == old(self).spec_repeats(),
    {
        self.last_time = std::time::Instant::now();
    }

    pub fn reset_ticks(&mut self)
        requires
            old(self).wf(),
        ensures
            final(self).wf(),
            final(self).spec_tick() == 0,
            final(self).spec_last_tick() == 0,
            final(self).spec_events() == old(self).spec_events(),
            final(self).spec_repeats() == old(self).spec_repeats(),
    {
        self.current_tick = 0;
        self.last_tick = 0;
    }

    pub fn get_tick(&self) -> (r: u32)
        ensures
            r == self.spec_tick(),
    {
        self.current_tick
    }

    pub fn get_last_tick(&self) -> (r: u32)
        ensures
            r == self.spec_last_tick(),
    {
        self.last_tick
    }

    /// The events in the window `(last tick, current tick]`: an empty list when
    /// the cursor has not moved, `None` once no event lies after the last tick.
    pub fn get_next_events(&self) -> (r: Option<&[MidiEvent]>)
        requires
            self.wf(),
        ensures
            self.spec_last_tick() == self.spec_tick() ==> (r matches Some(w) && w@.len() == 0),
            self.spec_last_tick() < self.spec_tick() ==> (r is None <==> forall|i: int|
                0 <= i < self.spec_events().len() ==> #[trigger] self.spec_events()[i].tick
                    < self.spec_last_tick()),
            self.spec_last_tick() < self.spec_tick() && r is Some ==> r->0@ == window(
                self.spec_events(),
                self.spec_last_tick() as int,
                self.spec_tick() as int,
            ),
    {
        if self.last_tick == self.current_tick {
            let empty: &[MidiEvent] = &self.sorted_events.as_slice()[0..0];
            return Some(empty);
        }
        let start = upper_bound(&self.sorted_events, self.last_tick);
        let n = self.sorted_events.len();
        if start == n && (n == 0 || self.sorted_events[n - 1].tick < self.last_tick) {
            proof {
                assert forall|i: int| 0 <= i < n implies #[trigger] self.sorted_events@[i].tick
                    < self.last_tick by {
                    assert(self.sorted_events@[i].tick <= self.sorted_events@[n - 1].tick);
                }
            }
            return None;
        }
        let end = upper_bound(&self.sorted_events, self.current_tick);
        proof {
            lemma_split_monotonic(self.sorted_events@, self.last_tick as int, self.current_tick as int);
        }
        let w: &[MidiEvent] = &self.sorted_events.as_slice()[start..end];
        proof {
            if start < n {
                assert(self.sorted_events@[start as int].tick > self.last_tick);
            } else {
                assert(self.sorted_events@[n - 1].tick >= self.last_tick);
            }
        }
        Some(w)
    }

    /// The repeat in force at the last tick.
    pub fn get_current_repeat(&self) -> (r: Option<&Repeat>)
        requires
            self.wf(),
        ensures
            match repeat_at(self.spec_repeats(), self.spec_last_tick() as int) {
                Some(rep) => r == Some(&rep),
                None => r is None,
            },
    {
        let k = repeats_upto(&self.sorted_repeats, self.last_tick);
        proof {
            let t = self.last_tick as int;
            let reps = self.sorted_repeats@;
            assert(is_repeat_split(reps, t, k as int));
            let c = choose|c: int| is_repeat_split(reps, t, c);
            if c < k {
                assert(reps[c].back_to <= t);
            } else if k < c {
                assert(reps[k as int].back_to <= t);
            }
        }
        if k == 0 {
            return None;
        }
        let repeat = &self.sorted_repeats[k - 1];
        if repeat.end_time >= self.last_tick {
            Some(repeat)
        } else {
            None
        }
    }

    /// Moves the cursor by the ticks that pass in `elapsed_micros` at the
    /// player's tempo, and applies the repeat in force. Right after a reset or
    /// a seek (both cursors equal) the cursor moves by one tick only.
    pub fn advance_by(&mut self, player_param: &mut MidiPlayerParams, elapsed_micros: u64)
        requires
            old(self).wf(),
        ensures
            final(self).wf(),
            final(self).spec_events() == old(self).spec_events(),
            final(self).spec_repeats() == old(self).spec_repeats(),
            advanced(*old(self), *final(self), *old(player_param), *final(player_param), elapsed_micros as int),
    {
        if self.current_tick == self.last_tick {
            if self.current_tick < u32::MAX {
                self.current_tick = self.current_tick + 1;
            }
            return;
        }
        let tempo = player_param.adjusted_tempo();
        let inc = tick_increase(tempo, elapsed_micros);
        let moved: u32 = if self.current_tick as u64 + inc as u64 > u32::MAX as u64 {
            u32::MAX
        } else {
            self.current_tick + inc
        };
        let step: u32 = moved - self.current_tick;
        self.last_tick = self.current_tick;
        self.current_tick = moved;
        let armed = match player_param.get_repeat() {
            Some(rep) => Some((rep.end_time, rep.play_count, rep.back_to)),
            None => None,
        };
        match armed {
            Some((end_time, play_count, back_to)) => {
                if end_time <= self.last_tick {
                    if play_count > 1 {
                        self.current_tick = back_to;
                        self.last_tick = if back_to >= step {
                            back_to - step
                        } else {
                            0
                        };
                    }
                    player_param.decrease_play_count();
                }
            },
            None => {
                match self.get_current_repeat() {
                    Some(new_repeat) => {
                        let copy = new_repeat.copy();
                        player_param.set_repeat(copy);
                    },
                    None => {},
                }
            },
        }
    }

    /// Reads the clock and advances the cursor by the time elapsed since the
    /// last advance.
    pub fn advance(&mut self, player_param: &mut MidiPlayerParams)
        requires
            old(self).wf(),
        ensures
            final(self).wf(),
            final(self).spec_events() == old(self).spec_events(),
            final(self).spec_repeats() == old(self).spec_repeats(),
            old(self).spec_tick() == old(self).spec_last_tick() ==> {
                &&& final(self).spec_tick() == (if old(self).spec_tick() < u32::MAX {
                    old(self).spec_tick() + 1
                } else {
                    u32::MAX as int
                })
                &&& final(self).spec_last_tick() == old(self).spec_last_tick()
                &&& *final(player_param) == *old(player_param)
            },
            exists|us: u64|
                #[trigger] advanced(*old(self), *final(self), *old(player_param), *final(player_param), us as int),
    {
        let ghost s0 = *self;
        let now = std::time::Instant::now();
        let elapsed = now.duration_since(self.last_time);
        let secs = elapsed.as_secs();
        let micros = elapsed.subsec_micros();
        let total: u64 = if secs > (u64::MAX - 1_000_000) / 1_000_000 {
            u64::MAX
        } else {
            secs * 1_000_000 + micros as u64
        };
        self.last_time = now;
        let ghost s_mid = *self;
        let ghost p0 = *player_param;
        self.advance_by(player_param, total);
        proof {
            assert(advanced(s_mid, *self, p0, *player_param, total as int));
            assert(advanced(s0, *self, p0, *player_param, total as int));
        }
    }

    /// Moves the cursor forward by `tick` ticks.
    pub fn advance_tick(&mut self, tick: u32)
        requires
            old(self).wf(),
            old(self).spec_tick() + tick <= u32::MAX,
        ensures
            final(self).wf(),
            final(self).spec_last_tick() == old(self).spec_tick(),
            final(self).spec_tick() == old(self).spec_tick() + tick,
            final(self).spec_events() == old(self).spec_events(),
            final(self).spec_repeats() == old(self).spec_repeats(),
    {
        self.last_tick = self.current_tick;
        self.current_tick = self.current_tick + tick;
    }
}

/// What one advance by `elapsed_micros` does to the cursors and to the
/// player's repeat. Right after a reset or a seek (both cursors equal) the
/// cursor moves by one tick and the player is untouched. Otherwise the cursor
/// moves by the ticks of the elapsed time at the player's tempo; a repeat
/// whose end was reached jumps back to its start while plays remain, and
/// loses a play; with no repeat in force, the one at the last tick is armed.
pub open spec fn advanced(
    s0: MidiSequencer,
    s1: MidiSequencer,
    p0: MidiPlayerParams,
    p1: MidiPlayerParams,
    elapsed_micros: int,
) -> bool {
    &&& p1.spec_tempo() == p0.spec_tempo()
    &&& p1.spec_tempo_percentage() == p0.spec_tempo_percentage()
    &&& p1.spec_solo_track_id() == p0.spec_solo_track_id()
    &&& if s0.spec_tick() == s0.spec_last_tick() {
        &&& s1.spec_tick() == (if s0.spec_tick() < u32::MAX {
            s0.spec_tick() + 1
        } else {
            u32::MAX as int
        })
        &&& s1.spec_last_tick() == s0.spec_last_tick()
        &&& p1 == p0
    } else {
        let inc = spec_tick_increase(adjusted_tempo_of(p0), elapsed_micros);
        let moved = if s0.spec_tick() + inc > u32::MAX {
            u32::MAX as int
        } else {
            s0.spec_tick() + inc
        };
        match p0.spec_repeat() {
            Some(rep) => if rep.end_time <= s0.spec_tick() {
                &&& (if rep.play_count > 1 {
                    &&& s1.spec_tick() == rep.back_to
                    &&& s1.spec_last_tick() == (if rep.back_to >= moved - s0.spec_tick() {
                        rep.back_to - (moved - s0.spec_tick())
                    } else {
                        0
                    })
                } else {
                    &&& s1.spec_tick() == moved
                    &&& s1.spec_last_tick() == s0.spec_tick()
                })
                &&& (if rep.play_count == 1 {
                    p1.spec_repeat() is None
                } else {
                    p1.spec_repeat() matches Some(n) && n.play_count == (if rep.play_count > 0 {
                        rep.play_count - 1
                    } else {
                        0
                    }) && n.back_to == rep.back_to && n.end_time == rep.end_time
                })
            } else {
                &&& s1.spec_tick() == moved
                &&& s1.spec_last_tick() == s0.spec_tick()
                &&& p1 == p0
            },
            None => {
                &&& s1.spec_tick() == moved
                &&& s1.spec_last_tick() == s0.spec_tick()
                &&& same_repeat(p1.spec_repeat(), repeat_at(s0.spec_repeats(), s0.spec_tick() as int))
            },
        }
    }
}

/// Both are absent, or both present with the same fields.
pub open spec fn same_repeat(a: Option<Repeat>, b: Option<Repeat>) -> bool {
    match (a, b) {
        (None, None) => true,
        (Some(x), Some(y)) => x.back_to == y.back_to && x.play_count == y.play_count && x.end_time
            == y.end_time && x.alternative_repeat@ == y.alternative_repeat@,
        _ => false,
    }
}

/// The player's tempo scaled by its percentage, saturated at `u32::MAX`.
pub open spec fn adjusted_tempo_of(p: MidiPlayerParams) -> int {
    let a = adjusted(p.spec_tempo() as int, p.spec_tempo_percentage() as int);
    if a > u32::MAX {
        u32::MAX as int
    } else {
        a
    }
}

} // verus!

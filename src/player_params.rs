//! Values that change while a song plays: tempo, solo track and the repeat
//! being played.
use vstd::prelude::*;

verus! {

/// A section of the timeline to play again: from `back_to` up to `end_time`,
/// `play_count` times.
#[derive(Debug, Clone)]
pub struct Repeat {
    pub back_to: u32,
    pub play_count: u8,
    pub end_time: u32,
    pub alternative_repeat: Vec<u32>,
}

impl Repeat {
    /// A repeat with no alternative endings.
    pub fn new(back_to: u32, play_count: u8, end_time: u32) -> (r: Repeat)
        ensures
            r.back_to == back_to,
            r.play_count == play_count,
            r.end_time == end_time,
            r.alternative_repeat@.len() == 0,
    {
        Repeat { back_to, play_count, end_time, alternative_repeat: Vec::new() }
    }

    /// One play fewer, never below zero.
    pub fn decrease_play_count(&mut self)
        ensures
            final(self).play_count == (if old(self).play_count > 0 {
                old(self).play_count - 1
            } else {
                0
            }),
            final(self).back_to == old(self).back_to,
            final(self).end_time == old(self).end_time,
            final(self).alternative_repeat@ == old(self).alternative_repeat@,
    {
        if self.play_count > 0 {
            self.play_count = self.play_count - 1;
        }
    }

    /// A copy of the repeat.
    pub fn copy(&self) -> (r: Repeat)
        ensures
            r.back_to == self.back_to,
            r.play_count == self.play_count,
            r.end_time == self.end_time,
            r.alternative_repeat@ == self.alternative_repeat@,
    {
        Repeat {
            back_to: self.back_to,
            play_count: self.play_count,
            end_time: self.end_time,
            alternative_repeat: self.alternative_repeat.clone(),
        }
    }
}

pub struct MidiPlayerParams {
    tempo: u32,
    tempo_percentage: u32,
    solo_track_id: Option<usize>,
    repeat: Option<Repeat>,
}

/// The tempo scaled by a percentage, truncated.
pub open spec fn adjusted(tempo: int, percentage: int) -> int {
    (tempo * percentage) / 100
}

impl MidiPlayerParams {
    pub closed spec fn spec_tempo(&self) -> u32 {
        self.tempo
    }

    pub closed spec fn spec_tempo_percentage(&self) -> u32 {
        self.tempo_percentage
    }

    pub closed spec fn spec_solo_track_id(&self) -> Option<usize> {
        self.solo_track_id
    }

    pub closed spec fn spec_repeat(&self) -> Option<Repeat> {
        self.repeat
    }

    pub fn new(tempo: u32, tempo_percentage: u32, solo_track_id: Option<usize>) -> (r: Self)
        ensures
            r.spec_tempo() == tempo,
            r.spec_tempo_percentage() == tempo_percentage,
            r.spec_solo_track_id() == solo_track_id,
            r.spec_repeat().is_none(),
    {
        MidiPlayerParams { tempo, tempo_percentage, solo_track_id, repeat: None }
    }

    pub fn solo_track_id(&self) -> (r: Option<usize>)
        ensures
            r == self.spec_solo_track_id(),
    {
        self.solo_track_id
    }

    pub fn set_solo_track_id(&mut self, solo_track_id: Option<usize>)
        ensures
            final(self).spec_solo_track_id() == solo_track_id,
            final(self).spec_tempo() == old(self).spec_tempo(),
            final(self).spec_tempo_percentage() == old(self).spec_tempo_percentage(),
            final(self).spec_repeat() == old(self).spec_repeat(),
    {
        self.solo_track_id = solo_track_id;
    }

    /// The tempo scaled by the tempo percentage, saturated at `u32::MAX`.
    pub fn adjusted_tempo(&self) -> (r: u32)
        ensures
            r == (if adjusted(self.spec_tempo() as int, self.spec_tempo_percentage() as int)
                > u32::MAX {
                u32::MAX as int
            } else {
                adjusted(self.spec_tempo() as int, self.spec_tempo_percentage() as int)
            }),
    {
        proof {
            assert((self.tempo as u64) * (self.tempo_percentage as u64) <= 0xffff_ffffu64
                * 0xffff_ffffu64) by (nonlinear_arith)
                requires
                    self.tempo <= 0xffff_ffffu64,
                    self.tempo_percentage <= 0xffff_ffffu64,
            ;
        }
        let scaled: u64 = self.tempo as u64 * self.tempo_percentage as u64 / 100;
        if scaled > u32::MAX as u64 {
            u32::MAX
        } else {
            scaled as u32
        }
    }

    pub fn set_tempo(&mut self, tempo: u32)
        ensures
            final(self).spec_tempo() == tempo,
            final(self).spec_tempo_percentage() == old(self).spec_tempo_percentage(),
            final(self).spec_solo_track_id() == old(self).spec_solo_track_id(),
            final(self).spec_repeat() == old(self).spec_repeat(),
    {
        self.tempo = tempo;
    }

    pub fn set_tempo_percentage(&mut self, tempo_percentage: u32)
        ensures
            final(self).spec_tempo_percentage() == tempo_percentage,
            final(self).spec_tempo() == old(self).spec_tempo(),
            final(self).spec_solo_track_id() == old(self).spec_solo_track_id(),
            final(self).spec_repeat() == old(self).spec_repeat(),
    {
        self.tempo_percentage = tempo_percentage;
    }

    pub fn get_repeat(&self) -> (r: Option<&Repeat>)
        ensures
            r == match self.spec_repeat() {
                Some(rep) => Some(&rep),
                None => None::<&Repeat>,
            },
    {
        match &self.repeat {
            Some(rep) => Some(rep),
            None => None,
        }
    }

    pub fn set_repeat(&mut self, repeat: Repeat)
        ensures
            final(self).spec_repeat() == Some(repeat),
            final(self).spec_tempo() == old(self).spec_tempo(),
            final(self).spec_tempo_percentage() == old(self).spec_tempo_percentage(),
            final(self).spec_solo_track_id() == old(self).spec_solo_track_id(),
    {
        self.repeat = Some(repeat);
    }

    /// One play fewer for the current repeat; a repeat with one play left is
    /// dropped.
    pub fn decrease_play_count(&mut self)
        ensures
            final(self).spec_tempo() == old(self).spec_tempo(),
            final(self).spec_tempo_percentage() == old(self).spec_tempo_percentage(),
            final(self).spec_solo_track_id() == old(self).spec_solo_track_id(),
            match old(self).spec_repeat() {
                None => final(self).spec_repeat().is_none(),
                Some(rep) => if rep.play_count == 1 {
                    final(self).spec_repeat().is_none()
                } else {
                    final(self).spec_repeat() matches Some(n) && n.play_count == (if rep.play_count
                        > 0 {
                        rep.play_count - 1
                    } else {
                        0
                    }) && n.back_to == rep.back_to && n.end_time == rep.end_time
                        && n.alternative_repeat@ == rep.alternative_repeat@
                },
            },
    {
        let mut purge_repeat = false;
        match self.repeat.take() {
            Some(mut rep) => {
                if rep.play_count == 1 {
                    purge_repeat = true;
                }
                rep.decrease_play_count();
                if !purge_repeat {
                    self.repeat = Some(rep);
                }
            },
            None => {},
        }
    }

    pub fn unset_repeat(&mut self)
        ensures
            final(self).spec_repeat().is_none(),
            final(self).spec_tempo() == old(self).spec_tempo(),
            final(self).spec_tempo_percentage() == old(self).spec_tempo_percentage(),
            final(self).spec_solo_track_id() == old(self).spec_solo_track_id(),
    {
        self.repeat = None;
    }
}

} // verus!

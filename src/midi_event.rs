//! Timed MIDI-like events produced by the builder and replayed by the sequencer.
use vstd::prelude::*;

verus! {

/// A playback event at an absolute tick. `track` is `None` for events that
/// belong to no track (tempo changes).
#[derive(Debug, Clone, Copy, PartialEq, Eq, Structural)]
pub struct MidiEvent {
    pub tick: u32,
    pub event: MidiEventType,
    pub track: Option<usize>,
}

#[derive(Debug, Clone, Copy, PartialEq, Eq, Hash, Structural)]
pub enum MidiEventType {
    /// channel, key, velocity
    NoteOn(i32, i32, i16),
    /// channel, key
    NoteOff(i32, i32),
    /// tempo in beats per minute
    TempoChange(u32),
    /// channel, command, data1, data2
    MidiMessage(i32, i32, i32, i32),
}

impl MidiEvent {
    pub fn is_midi_message(&self) -> (r: bool)
        ensures
            r == (self.event is MidiMessage),
    {
        matches!(self.event, MidiEventType::MidiMessage(_, _, _, _))
    }

    pub fn is_tempo_change(&self) -> (r: bool)
        ensures
            r == (self.event is TempoChange),
    {
        matches!(self.event, MidiEventType::TempoChange(_))
    }

    /// True unless the event is at once a tempo change and a MIDI message,
    /// which no event is: every event counts as a note event.
    pub fn is_note_event(&self) -> (r: bool)
        ensures
            r == (!(self.event is TempoChange) || !(self.event is MidiMessage)),
            r,
    {
        !self.is_tempo_change() || !self.is_midi_message()
    }

    pub fn new_note_on(tick: u32, track: usize, key: i32, velocity: i16, channel: i32) -> (r: Self)
        ensures
            r == (MidiEvent {
                tick,
                event: MidiEventType::NoteOn(channel, key, velocity),
                track: Some(track),
            }),
    {
        MidiEvent { tick, event: MidiEventType::NoteOn(channel, key, velocity), track: Some(track) }
    }

    pub fn new_note_off(tick: u32, track: usize, key: i32, channel: i32) -> (r: Self)
        ensures
            r == (MidiEvent { tick, event: MidiEventType::NoteOff(channel, key), track: Some(track) }),
    {
        MidiEvent { tick, event: MidiEventType::NoteOff(channel, key), track: Some(track) }
    }

    pub fn new_tempo_change(tick: u32, tempo: u32) -> (r: Self)
        ensures
            r == (MidiEvent { tick, event: MidiEventType::TempoChange(tempo), track: None }),
    {
        MidiEvent { tick, event: MidiEventType::TempoChange(tempo), track: None }
    }

    pub fn new_midi_message(
        tick: u32,
        track: usize,
        channel: i32,
        command: i32,
        data1: i32,
        data2: i32,
    ) -> (r: Self)
        ensures
            r == (MidiEvent {
                tick,
                event: MidiEventType::MidiMessage(channel, command, data1, data2),
                track: Some(track),
            }),
    {
        MidiEvent {
            tick,
            event: MidiEventType::MidiMessage(channel, command, data1, data2),
            track: Some(track),
        }
    }
}

} // verus!

use std::rc::Rc;

use ruxguitar::builder::{apply_static_duration, apply_velocity_effect};
use ruxguitar::song::{
    Beat, BeatEffects, BeatStroke, GpVersion, HarmonicEffect, KeySignature, Measure, MidiChannel,
    Note, NoteEffect, NoteType, SongInfo, Track, Voice,
};
use ruxguitar::{
    Duration, MeasureHeader, MidiBuilder, MidiEvent, MidiEventType, Song, Tempo, FIRST_TICK,
};

fn channel(id: u8, bank: u8) -> MidiChannel {
    MidiChannel {
        channel_id: id,
        effect_channel_id: 0,
        instrument: 25,
        volume: 100,
        balance: 64,
        chorus: 0,
        reverb: 0,
        phaser: 0,
        tremolo: 0,
        bank,
    }
}

fn note(value: i16, string: i8, effect: NoteEffect) -> Note {
    let mut n = Note::new(effect);
    n.value = value;
    n.string = string;
    n.kind = NoteType::Normal;
    n
}

fn beat(start: i64, notes: Vec<Note>) -> Beat {
    Beat {
        notes,
        duration: Duration::default(),
        empty: false,
        text: String::new(),
        start,
        effect: BeatEffects { stroke: BeatStroke::default(), chord: None },
    }
}

fn song(tracks_beats: Vec<Vec<Beat>>, headers: usize) -> Song {
    let mut measure_headers = Vec::new();
    for m in 0..headers {
        let mut h = MeasureHeader::default();
        h.start = 960 + 3840 * m as i64;
        measure_headers.push(h);
    }
    let mut tracks = Vec::new();
    for (t, beats) in tracks_beats.into_iter().enumerate() {
        let mut track = Track::default();
        track.channel_id = t as u8;
        track.strings = vec![(1, 64), (2, 59), (3, 55), (4, 50), (5, 45), (6, 40)];
        let mut measures = Vec::new();
        for m in 0..headers {
            let voice_beats = if m == 0 { beats.clone() } else { vec![] };
            measures.push(Measure {
                key_signature: KeySignature::new(0, false),
                time_signature: Default::default(),
                track_index: t,
                header_index: m,
                voices: vec![Voice { measure_index: m as i16, beats: voice_beats }],
            });
        }
        track.measures = measures;
        tracks.push(track);
    }
    Song {
        version: GpVersion::GP4,
        song_info: SongInfo::empty(),
        triplet_feel: None,
        lyrics: None,
        page_setup: None,
        tempo: Tempo::default(),
        hide_tempo: None,
        key_signature: 0,
        octave: None,
        midi_channels: (0..64).map(|i| channel(i, if i == 9 { 128 } else { 0 })).collect(),
        measure_headers,
        tracks,
    }
}

fn note_ons(events: &[MidiEvent]) -> Vec<(u32, i32, i16)> {
    events
        .iter()
        .filter_map(|e| match e.event {
            MidiEventType::NoteOn(_, key, velocity) => Some((e.tick, key, velocity)),
            _ => None,
        })
        .collect()
}

#[test]
fn natural_harmonic_is_doubled_an_octave_down() {
    let mut effect = NoteEffect::default();
    effect.harmonic = Some(HarmonicEffect::default());
    let s = song(vec![vec![beat(960, vec![note(12, 1, effect)])]], 1);
    let (events, _) = MidiBuilder::new().build_for_song(&Rc::new(s));
    let ons = note_ons(&events);
    assert_eq!(ons.len(), 2);
    assert!(ons.contains(&(960, 76, 95)));
    assert!(ons.contains(&(960, 64, 31)));
}

#[test]
fn events_are_sorted_and_start_with_channel_setup() {
    let plain = NoteEffect::default();
    let s = song(
        vec![
            vec![beat(960, vec![note(0, 1, plain.clone())]), beat(1920, vec![note(3, 2, plain.clone())])],
            vec![beat(1440, vec![note(5, 6, plain.clone())])],
        ],
        2,
    );
    let (events, _) = MidiBuilder::new().build_for_song(&Rc::new(s));
    assert_eq!(events[0].tick, FIRST_TICK);
    assert!(events.windows(2).all(|w| w[0].tick <= w[1].tick));
    // six setup messages per track come first, in the order they were made
    assert!(events[..12].iter().all(|e| e.tick == 1 && e.is_midi_message()));
    assert_eq!(events[0].event, MidiEventType::MidiMessage(0, 0xB0, 0x27, 100));
    assert_eq!(note_ons(&events), vec![(960, 64, 95), (1440, 45, 95), (1920, 62, 95)]);
    // a quarter note ends a quarter later
    assert!(events.iter().any(|e| e.tick == 1920 && e.event == MidiEventType::NoteOff(0, 64)));
}

#[test]
fn repeats_come_from_measure_headers() {
    let mut s = song(vec![vec![]], 3);
    s.measure_headers[1].repeat_open = true;
    s.measure_headers[2].repeat_close = 2;
    let (_, repeats) = MidiBuilder::new().build_for_song(&Rc::new(s));
    assert_eq!(repeats.len(), 1);
    assert_eq!(repeats[0].back_to, 4800);
    assert_eq!(repeats[0].play_count, 2);
    assert_eq!(repeats[0].end_time, 4800 + 2 * 3840);
}

#[test]
fn dead_note_duration_is_capped_by_tempo() {
    // 120 beats per minute: 120 * 30 / 60 = 60 ticks
    assert_eq!(apply_static_duration(120, 30, 960), 60);
    assert_eq!(apply_static_duration(120, 30, 40), 40);
}

#[test]
fn velocity_effects() {
    let ch = channel(0, 0);
    let mut ghost = NoteEffect::default();
    ghost.ghost_note = true;
    let n = note(0, 1, ghost);
    assert_eq!(apply_velocity_effect(&n, None, &ch), 79);
    let mut hammer = NoteEffect::default();
    hammer.hammer = true;
    let prev = note(0, 1, hammer);
    let plain = note(0, 1, NoteEffect::default());
    assert_eq!(apply_velocity_effect(&plain, Some(&prev), &ch), 70);
    // percussion ignores the hammer-on before
    assert_eq!(apply_velocity_effect(&plain, Some(&prev), &channel(9, 128)), 95);
    let mut heavy = NoteEffect::default();
    heavy.heavy_accentuated_note = true;
    assert_eq!(apply_velocity_effect(&note(0, 1, heavy), None, &ch), 127);
}

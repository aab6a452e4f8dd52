use std::rc::Rc;

use ruxguitar::config::Config;
use ruxguitar::song::GpVersion;
use ruxguitar::{parse_gp_data, MidiBuilder, MidiEventType, MidiSequencer};

fn le32(v: i32) -> [u8; 4] {
    v.to_le_bytes()
}

/// A GP3 file with one track of six strings and one 4/4 measure holding a
/// quarter note on fret 5 of string 1.
fn tiny_gp3() -> Vec<u8> {
    let mut d = vec![24u8];
    d.extend_from_slice(b"FICHIER GUITAR PRO v3.00");
    d.extend_from_slice(&[0u8; 6]);
    for _ in 0..8 {
        d.extend_from_slice(&le32(1));
        d.push(0);
    }
    d.extend_from_slice(&le32(0)); // notices
    d.push(0); // triplet feel
    d.extend_from_slice(&le32(120)); // tempo
    d.push(0); // key signature
    d.extend_from_slice(&[0u8; 768]); // channel table
    d.extend_from_slice(&le32(1)); // measures
    d.extend_from_slice(&le32(1)); // tracks
    d.extend_from_slice(&[0x03, 4, 4]); // header: 4/4
    d.push(0); // track flags
    d.push(5);
    d.extend_from_slice(b"Lead ");
    d.extend_from_slice(&[0u8; 35]);
    d.extend_from_slice(&le32(6));
    for t in [64, 59, 55, 50, 45, 40, 0] {
        d.extend_from_slice(&le32(t));
    }
    d.extend_from_slice(&le32(1)); // port
    d.extend_from_slice(&le32(1)); // channel
    d.extend_from_slice(&le32(2)); // effect channel
    d.extend_from_slice(&le32(24)); // frets
    d.extend_from_slice(&le32(0)); // offset
    d.extend_from_slice(&[255, 0, 0, 0]); // color
    d.extend_from_slice(&le32(1)); // beats in the voice
    d.push(0x00); // beat flags
    d.push(0); // quarter note
    d.push(0x40); // string 1
    d.push(0x20); // note flags: type and fret
    d.push(1); // normal note
    d.push(5); // fret
    d
}

#[test]
fn tiny_file_parses_into_a_well_formed_song() {
    let song = parse_gp_data(&tiny_gp3()).unwrap();
    assert_eq!(song.version, GpVersion::GP3);
    assert_eq!(song.tempo.value, 120);
    assert_eq!(song.midi_channels.len(), 64);
    assert_eq!(song.midi_channels[9].bank, 128);
    assert_eq!(song.measure_headers.len(), 1);
    assert_eq!(song.measure_headers[0].start, 960);
    assert_eq!(song.measure_headers[0].length(), 3840);
    assert_eq!(song.tracks.len(), 1);
    let track = &song.tracks[0];
    assert_eq!(track.name, "Lead ");
    assert_eq!(track.strings.len(), 6);
    assert_eq!(track.strings[0], (1, 64));
    assert_eq!(track.channel_id, 0);
    assert_eq!(track.measures.len(), 1);
    let measure = &track.measures[0];
    assert_eq!((measure.track_index, measure.header_index), (0, 0));
    assert_eq!(measure.voices.len(), 1);
    let beat = &measure.voices[0].beats[0];
    assert_eq!(beat.start, 960);
    assert_eq!(beat.notes.len(), 1);
    assert_eq!(beat.notes[0].value, 5);
    assert_eq!(beat.notes[0].string, 1);
}

#[test]
fn tiny_file_plays_its_note() {
    let song = Rc::new(parse_gp_data(&tiny_gp3()).unwrap());
    let (events, repeats) = MidiBuilder::new().build_for_song(&song);
    assert!(repeats.is_empty());
    assert_eq!(events.len(), 8);
    assert!(events[..6].iter().all(|e| e.tick == 1));
    assert_eq!(events[6].tick, 960);
    assert_eq!(events[6].event, MidiEventType::NoteOn(0, 69, 95));
    assert_eq!(events[7].tick, 1920);
    assert_eq!(events[7].event, MidiEventType::NoteOff(0, 69));
    let mut sequencer = MidiSequencer::new(events.clone(), repeats);
    sequencer.advance_tick(1);
    assert_eq!(sequencer.get_next_events().unwrap().len(), 6);
    sequencer.advance_tick(2000);
    assert_eq!(sequencer.get_next_events().unwrap().len(), 2);
    sequencer.advance_tick(10);
    assert!(sequencer.get_next_events().is_none());
}

#[test]
fn truncated_file_is_rejected() {
    let data = tiny_gp3();
    for cut in [31, 100, 900, data.len() - 1] {
        assert!(parse_gp_data(&data[..cut]).is_err());
    }
}

#[test]
fn config_reports_changes() {
    let mut config = Config::new();
    assert_eq!(config.get_tabs_folder(), None);
    assert!(config.set_tabs_folder(Some("/tabs".to_string())));
    assert!(!config.set_tabs_folder(Some("/tabs".to_string())));
    assert_eq!(config.get_tabs_folder(), Some("/tabs".to_string()));
    assert!(config.set_tabs_folder(None));
}

#[test]
fn measure_and_beat_at_a_tick() {
    let song = parse_gp_data(&tiny_gp3()).unwrap();
    assert_eq!(song.get_measure_beat_for_tick(0, 0), (0, 0));
    assert_eq!(song.get_measure_beat_for_tick(0, 1500), (0, 0));
}

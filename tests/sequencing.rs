use ruxguitar::player_params::{MidiPlayerParams, Repeat};
use ruxguitar::sequencer::tick_increase;
use ruxguitar::{MidiEvent, MidiSequencer};

#[test]
fn test_tick_increase() {
    // 100 beats per minute for 32 ms
    let result = tick_increase(100, 32_000);
    assert_eq!(result, 51);
}

#[test]
fn test_tick_increase_bis() {
    // 120 beats per minute for 100 ms
    let result = tick_increase(120, 100_000);
    assert_eq!(result, 192);
}

fn sample_events() -> Vec<MidiEvent> {
    let mut events = Vec::new();
    for t in [1u32, 1, 1, 960, 960, 1440, 1440, 1920, 2500, 2500, 3000] {
        events.push(MidiEvent::new_note_on(t, 0, 60, 95, 0));
    }
    events
}

#[test]
fn windows_hand_out_every_event_once() {
    let events = sample_events();
    for step in [1u32, 7, 112, 480, 5000] {
        let mut sequencer = MidiSequencer::new(events.clone(), vec![]);
        assert_eq!(sequencer.get_next_events().unwrap().len(), 0);
        sequencer.advance_tick(1);
        let mut pos = sequencer.get_next_events().unwrap().len();
        assert_eq!(pos, 3);
        loop {
            sequencer.advance_tick(step);
            match sequencer.get_next_events() {
                Some(batch) => {
                    assert_eq!(&events[pos..pos + batch.len()], batch);
                    pos += batch.len();
                }
                None => break,
            }
        }
        assert_eq!(pos, events.len());
    }
}

#[test]
fn window_is_empty_when_cursor_has_not_moved() {
    let mut sequencer = MidiSequencer::new(sample_events(), vec![]);
    sequencer.set_tick(960);
    assert_eq!(sequencer.get_next_events().unwrap().len(), 0);
    assert_eq!(sequencer.get_tick(), 960);
    assert_eq!(sequencer.get_last_tick(), 960);
}

#[test]
fn first_advance_after_reset_moves_one_tick() {
    let mut sequencer = MidiSequencer::new(sample_events(), vec![]);
    let mut params = MidiPlayerParams::new(120, 100, None);
    sequencer.advance_by(&mut params, 1_000_000);
    assert_eq!(sequencer.get_tick(), 1);
    // one second at 120 beats per minute is two quarters
    sequencer.advance_by(&mut params, 1_000_000);
    assert_eq!(sequencer.get_tick(), 1921);
    assert_eq!(sequencer.get_last_tick(), 1);
}

#[test]
fn repeat_jumps_back_and_counts_down() {
    let repeats = vec![Repeat::new(960, 2, 1920)];
    let mut sequencer = MidiSequencer::new(sample_events(), repeats);
    let mut params = MidiPlayerParams::new(60, 100, None);
    sequencer.set_tick(1000);
    sequencer.advance_tick(10);
    // entering the section arms the repeat
    sequencer.advance_by(&mut params, 100_000);
    assert!(params.get_repeat().is_some());
    sequencer.set_tick(2000);
    sequencer.advance_tick(10);
    sequencer.advance_by(&mut params, 100_000);
    assert_eq!(sequencer.get_tick(), 960);
    assert_eq!(params.get_repeat().unwrap().play_count, 1);
}

#[test]
fn adjusted_tempo_scales_by_percentage() {
    let params = MidiPlayerParams::new(120, 50, Some(2));
    assert_eq!(params.adjusted_tempo(), 60);
    assert_eq!(params.solo_track_id(), Some(2));
}

#[test]
fn play_count_drops_repeat_at_last_play() {
    let mut params = MidiPlayerParams::new(120, 100, None);
    params.set_repeat(Repeat::new(0, 1, 10));
    params.decrease_play_count();
    assert!(params.get_repeat().is_none());
}

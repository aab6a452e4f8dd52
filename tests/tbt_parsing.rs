use ruxguitar::song::{SlideType, TimeSignature};
use ruxguitar::bytes::ParseFailure;
use ruxguitar::tbt::{
    calculate_duration, compute_delta_list_count, convert_effect, convert_tuning,
    decode_delta_list_chunks, expand_delta_list, infer_time_signature, is_tbt_file,
    parse_and_validate_tbt_header, parse_track_notes, TbtParseOptions, MAX_DELTA_LIST_CHUNKS,
};
use ruxguitar::tbt_types::{
    TbtBarType, TbtFeatures, TbtStringEffect, TbtTrack, TbtVersion, NOTE_FRET_FLAG, NOTE_MUTED,
    NOTE_STOP,
};

#[test]
fn test_is_tbt_file() {
    assert!(is_tbt_file(b"TBT\x6f"));
    assert!(is_tbt_file(b"TBT\x70some more data"));
    assert!(!is_tbt_file(b"GP5"));
    assert!(!is_tbt_file(b"TB"));
}

#[test]
fn test_tbt_version_from_byte() {
    assert_eq!(TbtVersion::from_byte(0x6f), Some(TbtVersion::V0x6f));
    assert_eq!(TbtVersion::from_byte(0x70), Some(TbtVersion::V0x70));
    assert_eq!(TbtVersion::from_byte(0x71), Some(TbtVersion::V0x71));
    assert_eq!(TbtVersion::from_byte(0x72), Some(TbtVersion::V0x72));
    assert_eq!(TbtVersion::from_byte(0x00), None);
    assert_eq!(TbtVersion::from_byte(0xff), None);
}

#[test]
fn test_tbt_version_capabilities() {
    assert!(!TbtVersion::V0x6f.has_alternate_time_regions());
    assert!(!TbtVersion::V0x6f.has_space_count_per_track());
    assert!(!TbtVersion::V0x6f.has_modulation_pitch_bend());

    assert!(TbtVersion::V0x70.has_alternate_time_regions());
    assert!(TbtVersion::V0x70.has_space_count_per_track());
    assert!(!TbtVersion::V0x70.has_modulation_pitch_bend());

    assert!(TbtVersion::V0x71.has_alternate_time_regions());
    assert!(TbtVersion::V0x71.has_space_count_per_track());
    assert!(TbtVersion::V0x71.has_modulation_pitch_bend());

    assert!(TbtVersion::V0x72.has_alternate_time_regions());
    assert!(TbtVersion::V0x72.has_space_count_per_track());
    assert!(TbtVersion::V0x72.has_modulation_pitch_bend());
}

#[test]
fn test_features_from_byte() {
    let features = TbtFeatures::from_byte(0x18);
    assert!(features.has_alternate_time_regions);
    assert!(features.feature_bit_3);

    let features = TbtFeatures::from_byte(0x08);
    assert!(!features.has_alternate_time_regions);
    assert!(features.feature_bit_3);

    let features = TbtFeatures::from_byte(0x00);
    assert!(!features.has_alternate_time_regions);
    assert!(!features.feature_bit_3);
}

#[test]
fn test_string_effect_from_byte() {
    assert_eq!(TbtStringEffect::from_byte(0x68), Some(TbtStringEffect::HammerOn));
    assert_eq!(TbtStringEffect::from_byte(0x70), Some(TbtStringEffect::PullOff));
    assert_eq!(TbtStringEffect::from_byte(0x2f), Some(TbtStringEffect::SlideUp));
    assert_eq!(TbtStringEffect::from_byte(0x5c), Some(TbtStringEffect::SlideDown));
    assert_eq!(TbtStringEffect::from_byte(0x7e), Some(TbtStringEffect::Vibrato));
    assert_eq!(TbtStringEffect::from_byte(0x00), None);
}

#[test]
fn test_header_too_small() {
    let data = vec![0u8; 32];
    let result = parse_and_validate_tbt_header(&data, TbtParseOptions::default());
    assert!(result.is_err());
    assert!(result
        .unwrap_err()
        .to_string()
        .contains("too small for header"));
}

#[test]
fn test_delta_list_decoder() {
    let pairs = &[0x01, 0xAA, 0x01, 0xBB, 0x01, 0xCC, 0x07, 0x00];
    let result = expand_delta_list(pairs, 1, 10);
    assert_eq!(result[0][0], 0xAA);
    assert_eq!(result[1][0], 0xBB);
    assert_eq!(result[2][0], 0xCC);
    for slot in result.iter().take(10).skip(3) {
        assert_eq!(slot[0], 0);
    }
}

#[test]
fn test_compute_delta_list_count() {
    let pairs = &[0x01, 0xAA, 0x01, 0xBB, 0x05, 0xCC];
    let count = compute_delta_list_count(pairs);
    assert_eq!(count, 7);
}

#[test]
fn test_max_chunks_limit() {
    let mut malformed_input: Vec<u8> = Vec::new();
    for _ in 0..(MAX_DELTA_LIST_CHUNKS + 100) {
        malformed_input.extend_from_slice(&[0x01, 0x00, 0x01, 0xAA]);
    }
    let result = decode_delta_list_chunks(&malformed_input, 1, 100_000_000);
    assert!(result.is_err(), "Should reject input requiring too many chunks");
    if let Err(e) = result {
        assert_eq!(e, ParseFailure::TooLarge);
    } else {
        panic!("Expected Failure with TooLarge error kind");
    }
}

#[test]
fn test_bar_type_parsing() {
    assert_eq!(TbtBarType::Single as u8, 0);
}

#[test]
fn test_note_value_parsing() {
    assert_eq!(NOTE_MUTED, 0x11);
    assert_eq!(NOTE_STOP, 0x12);
    assert_eq!(NOTE_FRET_FLAG, 0x80);
    let encoded_fret5 = NOTE_FRET_FLAG + 5;
    assert_eq!(encoded_fret5, 0x85);
    let encoded_open = NOTE_FRET_FLAG;
    assert_eq!(encoded_open, 0x80);
}

#[test]
fn test_time_signature_inference() {
    let ts = infer_time_signature(16);
    assert_eq!(ts.numerator, 4);
    assert_eq!(ts.denominator.value, 4);

    let ts = infer_time_signature(12);
    assert_eq!(ts.numerator, 3);
    assert_eq!(ts.denominator.value, 4);

    let ts = infer_time_signature(8);
    assert_eq!(ts.numerator, 2);
    assert_eq!(ts.denominator.value, 4);
}

#[test]
fn test_duration_calculation() {
    let ts = TimeSignature::default();
    let dur = calculate_duration(0, 1, &ts);
    assert_eq!(dur.value, 16);
    let dur = calculate_duration(0, 2, &ts);
    assert_eq!(dur.value, 8);
    let dur = calculate_duration(0, 4, &ts);
    assert_eq!(dur.value, 4);
    let dur = calculate_duration(0, 8, &ts);
    assert_eq!(dur.value, 2);
}

#[test]
fn test_effect_conversion() {
    let effect = convert_effect(Some(TbtStringEffect::HammerOn));
    assert!(effect.hammer);
    let effect = convert_effect(Some(TbtStringEffect::PullOff));
    assert!(effect.hammer);
    let effect = convert_effect(Some(TbtStringEffect::SlideUp));
    assert!(matches!(effect.slide, Some(SlideType::ShiftSlideTo)));
    let effect = convert_effect(Some(TbtStringEffect::Vibrato));
    assert!(effect.vibrato);
    let effect = convert_effect(Some(TbtStringEffect::Harmonic));
    assert!(effect.harmonic.is_some());
    let effect = convert_effect(None);
    assert!(!effect.hammer);
    assert!(effect.slide.is_none());
    assert!(!effect.vibrato);
}

#[test]
fn test_tuning_conversion() {
    let tbt_track = TbtTrack {
        string_count: 6,
        tuning: [0, 0, 0, 0, 0, 0, 0, 0],
        ..Default::default()
    };
    let strings = convert_tuning(&tbt_track);
    assert_eq!(strings.len(), 6);
    let string1 = strings.iter().find(|(num, _)| *num == 1);
    assert!(string1.is_some());
    assert_eq!(string1.unwrap().1, 64);
    let string6 = strings.iter().find(|(num, _)| *num == 6);
    assert!(string6.is_some());
    assert_eq!(string6.unwrap().1, 40);

    let drop_d_track = TbtTrack {
        string_count: 6,
        tuning: [0xFE, 0, 0, 0, 0, 0, 0, 0],
        ..Default::default()
    };
    let drop_d_strings = convert_tuning(&drop_d_track);
    let low_string = drop_d_strings.iter().find(|(num, _)| *num == 6);
    assert_eq!(low_string.unwrap().1, 38);
}

#[test]
fn standard_tuning_maps_all_six_strings() {
    let track = TbtTrack { string_count: 6, ..Default::default() };
    let strings = convert_tuning(&track);
    assert_eq!(strings, vec![(1, 64), (2, 59), (3, 55), (4, 50), (5, 45), (6, 40)]);
}

#[test]
fn note_grid_reads_frets_mutes_and_effects() {
    // one chunk: slot 0 holds fret 3, slot 1 muted, slot 8 a hammer-on, rest empty
    let mut input: Vec<u8> = vec![0x05, 0x00];
    input.extend_from_slice(&[0x01, 0x83, 0x01, NOTE_MUTED, 0x06, 0x00, 0x01, 0x68, 0x0B, 0x00]);
    let (rest, notes) = parse_track_notes(&input, 1).unwrap();
    assert!(rest.is_empty());
    assert_eq!(notes.len(), 2);
    assert_eq!(notes[0].fret, 3);
    assert_eq!(notes[0].effect, Some(TbtStringEffect::HammerOn));
    assert!(notes[1].is_muted);
    assert_eq!(notes[1].string, 1);
}

#[test]
fn delta_count_reads_long_increments() {
    // a zero byte announces a two-byte increment: 0x0102 = 258 slots
    assert_eq!(compute_delta_list_count(&[0x00, 0x02, 0x01, 0xAA, 0x02, 0xBB]), 260);
}

#[test]
fn truncated_chunk_is_an_error() {
    assert!(decode_delta_list_chunks(&[0x02, 0x00, 0x01], 1, 4).is_err());
}

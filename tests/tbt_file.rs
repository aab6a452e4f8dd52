use std::io::Write;

use ruxguitar::bytes::make_string;
use ruxguitar::song::NoteType;
use ruxguitar::tbt::{
    decompress_zlib, parse_and_validate_tbt_header, parse_pascal1_string, parse_tbt_data,
    tbt_to_song, validate_header_crc32, TbtParseOptions,
};
use ruxguitar::tbt_types::{TbtBarType, TbtVersion};

fn zlib(data: &[u8]) -> Vec<u8> {
    let mut encoder = flate2::write::ZlibEncoder::new(Vec::new(), flate2::Compression::default());
    encoder.write_all(data).unwrap();
    encoder.finish().unwrap()
}

/// A version 0x6f file of one six-string track, 32 spaces with a bar line at
/// space 16 and one note, fret 3 on the lowest string, at space 0.
fn tiny_tbt() -> Vec<u8> {
    let mut metadata: Vec<u8> = vec![6, 25, 28, 100, 0, 0, 0, 0, 64, 0, 0, 0, 0, 0];
    metadata.extend_from_slice(&[0u8; 8]);
    metadata.push(0);
    for text in ["Hi", "Me", "", "", ""] {
        metadata.extend_from_slice(&(text.len() as u16).to_le_bytes());
        metadata.extend_from_slice(text.as_bytes());
    }
    let mut body: Vec<u8> = vec![3, 0, 16, 0, 1, 0x01, 15, 0];
    body.extend_from_slice(&[3, 0, 0x01, 0x83, 0x00, 0x7F, 0x02, 0x00]);
    let metadata = zlib(&metadata);
    let body = zlib(&body);

    let mut header: Vec<u8> = b"TBT".to_vec();
    header.extend_from_slice(&[0x6f, 100, 1, 4]);
    header.extend_from_slice(b"1.60");
    header.push(0x08);
    header.extend_from_slice(&[0u8; 28]);
    header.extend_from_slice(&1u16.to_le_bytes());
    header.extend_from_slice(&32u16.to_le_bytes());
    header.extend_from_slice(&0u16.to_le_bytes());
    header.extend_from_slice(&100u16.to_le_bytes());
    header.extend_from_slice(&(metadata.len() as u32).to_le_bytes());
    header.extend_from_slice(&0u32.to_le_bytes());
    let total = (64 + metadata.len() + body.len()) as u32;
    header.extend_from_slice(&total.to_le_bytes());
    let crc = crc32fast::hash(&header[..60]);
    header.extend_from_slice(&crc.to_le_bytes());
    assert_eq!(header.len(), 64);
    let mut file = header;
    file.extend_from_slice(&metadata);
    file.extend_from_slice(&body);
    file
}

#[test]
fn header_of_a_built_file_validates() {
    let data = tiny_tbt();
    let result = parse_and_validate_tbt_header(&data, TbtParseOptions::default()).unwrap();
    assert!(result.header_crc_valid);
    assert!(result.warnings.is_empty());
    assert_eq!(result.header.version, TbtVersion::V0x6f);
    assert_eq!(result.header.version_string, "1.60");
    assert_eq!(result.header.space_count, 32);
    assert_eq!(result.header.tempo2, 100);
}

#[test]
fn corrupted_header_fails_unless_skipped() {
    let mut data = tiny_tbt();
    data[10] ^= 0xFF;
    assert!(!validate_header_crc32(&data, u32::from_le_bytes([data[60], data[61], data[62], data[63]])));
    assert!(parse_and_validate_tbt_header(&data, TbtParseOptions::default()).is_err());
    let lenient = TbtParseOptions { skip_crc_validation: true };
    let result = parse_and_validate_tbt_header(&data, lenient).unwrap();
    assert!(!result.header_crc_valid);
    assert_eq!(result.warnings.len(), 1);
}

#[test]
fn built_file_parses_and_converts() {
    let data = tiny_tbt();
    let tbt = parse_tbt_data(&data).unwrap();
    assert_eq!(tbt.metadata.tracks.len(), 1);
    assert_eq!(tbt.metadata.tracks[0].string_count, 6);
    assert_eq!(tbt.metadata.song_info.title, "Hi");
    assert_eq!(tbt.metadata.song_info.artist, "Me");
    assert_eq!(tbt.bar_lines.len(), 1);
    assert_eq!(tbt.bar_lines[0].space, 16);
    assert_eq!(tbt.bar_lines[0].bar_type, TbtBarType::Single);
    assert_eq!(tbt.track_notes[0].len(), 1);
    assert_eq!(tbt.track_notes[0][0].fret, 3);
    assert_eq!(tbt.track_notes[0][0].string, 0);

    let song = tbt_to_song(&tbt).unwrap();
    assert_eq!(song.midi_channels.len(), 64);
    assert_eq!(song.measure_headers.len(), 2);
    assert_eq!(song.measure_headers[0].start, 960);
    assert_eq!(song.measure_headers[1].start, 960 + 3840);
    assert!(song.measure_headers[0].repeat_open);
    assert_eq!(song.tempo.value, 100);
    let track = &song.tracks[0];
    assert_eq!(track.name, "Track 1");
    assert_eq!(track.strings[5], (6, 40));
    assert_eq!(track.measures.len(), 2);
    let beat = &track.measures[0].voices[0].beats[0];
    assert_eq!(beat.start, 960);
    assert_eq!(beat.duration.value, 1);
    assert_eq!(beat.notes.len(), 1);
    assert_eq!(beat.notes[0].string, 6);
    assert_eq!(beat.notes[0].value, 3);
    assert_eq!(beat.notes[0].kind, NoteType::Normal);
    assert!(track.measures[1].voices[0].beats[0].empty);
}

#[test]
fn corrupt_zlib_stream_is_a_parse_error() {
    assert_eq!(decompress_zlib(&zlib(b"abc")).unwrap(), b"abc".to_vec());
    assert!(decompress_zlib(&[1, 2, 3, 4]).is_err());
}

#[test]
fn text_decoding() {
    // Windows-1252 maps 0xE9 to e with an acute accent
    assert_eq!(make_string(&[b'c', b'a', b'f', 0xE9]), "caf\u{e9}");
    // a UTF-8 byte order mark with malformed UTF-8 after it decodes to nothing
    assert_eq!(make_string(&[0xEF, 0xBB, 0xBF, 0xFF]), "");
    let (_, s) = parse_pascal1_string(&[2, b'h', 0xFF]).unwrap();
    assert_eq!(s, "h\u{fffd}");
}

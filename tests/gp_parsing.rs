use ruxguitar::bytes::{parse_byte_size_string, parse_int, parse_int_byte_sized_string, skip};
use ruxguitar::gp::{parse_duration, parse_gp_version, parse_slide_type};
use ruxguitar::song::{convert_velocity, GpVersion, KeySignature, MeasureHeader, SlideType};
use ruxguitar::{parse_gp_data, Duration, RuxError, Song, FIRST_TICK, QUARTER_TIME};

#[test]
fn test_gp_ordering() {
    assert!(GpVersion::GP4 < GpVersion::GP5);
    assert!(GpVersion::GP5 >= GpVersion::GP5);
    assert!(GpVersion::GP3 < GpVersion::GP4);
    assert!(GpVersion::GP3 < GpVersion::GP5);
}

#[test]
fn test_read_byte_size_string() {
    let data: Vec<u8> = vec![
        0x18, 0x46, 0x49, 0x43, 0x48, 0x49, 0x45, 0x52, 0x20, 0x47, 0x55, 0x49, 0x54, 0x41, 0x52,
        0x20, 0x50, 0x52, 0x4f, 0x20, 0x76, 0x33, 0x2e, 0x30, 0x30, 0x00, 0x00, 0x00, 0x00, 0x00,
        0x00,
    ];
    let (_rest, res) = parse_byte_size_string(&data, 30).unwrap();
    assert_eq!(res, "FICHIER GUITAR PRO v3.00");
}

#[test]
fn test_types_accessible() {
    fn _assert_types() {
        let _: fn(&[u8]) -> Result<Song, RuxError> = parse_gp_data;
        let _: u32 = FIRST_TICK;
        let _: i64 = QUARTER_TIME;
    }
}

#[test]
fn test_parse_error() {
    let invalid_data = vec![0u8; 10];
    let result = parse_gp_data(&invalid_data);
    assert!(result.is_err(), "Should return error for invalid data");
    let err = result.unwrap_err();
    assert!(matches!(err, RuxError::ParsingError(_)), "Should be a ParsingError");
}

#[test]
fn version_string_selects_version() {
    let mut data = vec![24u8];
    data.extend_from_slice(b"FICHIER GUITAR PRO v5.10");
    data.extend_from_slice(&[0u8; 6]);
    data.push(0xAB);
    let (rest, version) = parse_gp_version(&data).unwrap();
    assert_eq!(version, GpVersion::GP5_10);
    assert_eq!(rest, &[0xAB]);
}

#[test]
fn unknown_version_is_a_parse_error() {
    let mut data = vec![24u8];
    data.extend_from_slice(b"FICHIER GUITAR PRO v9.99");
    data.extend_from_slice(&[0u8; 6]);
    assert!(parse_gp_version(&data).is_err());
    let mut file = data.clone();
    file.extend_from_slice(&[0u8; 100]);
    assert!(matches!(parse_gp_data(&file), Err(RuxError::ParsingError(_))));
}

#[test]
fn little_endian_integers() {
    let (rest, v) = parse_int(&[0xFE, 0xFF, 0xFF, 0xFF, 7]).unwrap();
    assert_eq!(v, -2);
    assert_eq!(rest, &[7]);
    assert!(parse_int(&[1, 2, 3]).is_err());
}

#[test]
fn skip_is_a_no_op_on_empty_input() {
    let empty: &[u8] = &[];
    assert!(skip(empty, 4).is_empty());
    assert_eq!(skip(&[1, 2, 3], 2), &[3]);
}

#[test]
fn int_byte_sized_string_reads_declared_length() {
    // field size 4, text length 3
    let data = [4u8, 0, 0, 0, 3, b'a', b'b', b'c', 9];
    let (rest, s) = parse_int_byte_sized_string(&data).unwrap();
    assert_eq!(s, "abc");
    assert_eq!(rest, &[9]);
    // a length byte that disagrees with the field size is malformed
    let bad = [5u8, 0, 0, 0, 3, b'a', b'b', b'c', 9];
    assert!(parse_int_byte_sized_string(&bad).is_err());
}

#[test]
fn duration_of_eighth_triplet() {
    // value byte 1 is an eighth, tuplet 3 gives three in the time of two
    let data = [1u8, 3, 0, 0, 0];
    let (_rest, d) = parse_duration(&data, 0x20).unwrap();
    assert_eq!(d.value, 8);
    assert_eq!(d.tuplet_enters, 3);
    assert_eq!(d.tuplet_times, 2);
    assert_eq!(d.time(), 320);
    // tuplet 4 is unknown
    assert!(parse_duration(&[1u8, 4, 0, 0, 0], 0x20).is_err());
}

#[test]
fn duration_time_formula() {
    let quarter = Duration::default();
    assert_eq!(quarter.time(), 960);
    let dotted_half = Duration { value: 2, dotted: true, ..Duration::default() };
    assert_eq!(dotted_half.time(), 2880);
    let double_dotted_quarter = Duration { value: 4, double_dotted: true, ..Duration::default() };
    assert_eq!(double_dotted_quarter.time(), 1680);
    let quintuplet_sixteenth = Duration { value: 16, tuplet_enters: 5, tuplet_times: 4, ..Duration::default() };
    assert_eq!(quintuplet_sixteenth.time(), 192);
    assert_eq!(quintuplet_sixteenth.convert_time(240), 192);
}

#[test]
fn measure_length_is_numerator_times_denominator() {
    let header = MeasureHeader::default();
    assert_eq!(header.length(), 3840);
}

#[test]
fn velocity_from_dynamic() {
    assert_eq!(convert_velocity(1), 15);
    assert_eq!(convert_velocity(6), 95);
    assert_eq!(convert_velocity(8), 127);
}

#[test]
fn slide_bits_lowest_wins() {
    assert_eq!(parse_slide_type(&[0x06]).unwrap().1, Some(SlideType::LegatoSlideTo));
    assert_eq!(parse_slide_type(&[0x20]).unwrap().1, Some(SlideType::IntoFromAbove));
    assert_eq!(parse_slide_type(&[0x00]).unwrap().1, None);
}

#[test]
fn key_signature_names() {
    assert_eq!(KeySignature::new(0, false).to_string(), "C major");
    assert_eq!(KeySignature::new(-1, false).to_string(), "F major");
    assert_eq!(KeySignature::new(1, false).to_string(), "G major");
    assert_eq!(KeySignature::new(-6, true).to_string(), "D\u{266d} minor");
}

//! Decoding of TabIt (TBT) files: the fixed header, the compressed metadata
//! and body with their delta run-length encoded grids, and the conversion of
//! the result into a song.
use vstd::prelude::*;
use crate::bytes::{
    is_rest_of, lemma_rest_refl, lemma_rest_trans, parse_byte, parse_u16, parse_u32, take,
    ParseFailure,
};
use crate::error::RuxError;
use crate::song::{
    Beat, BeatEffects, BeatStroke, BendEffect, BendPoint, Duration, GpVersion, HarmonicEffect,
    HarmonicType, KeySignature, Measure, MeasureHeader, MidiChannel, Note, NoteEffect, NoteType,
    SlapEffect, SlideType, Song, SongInfo, Tempo, TimeSignature, Track, TremoloPickingEffect,
    TripletFeel, Voice, DEFAULT_BANK, DEFAULT_PERCUSSION_BANK, QUARTER_TIME,
};
use crate::tbt_types::{
    TbtAlternateTime, TbtBarLine, TbtBarType, TbtEffectChange, TbtEffectChangeType, TbtFeatures,
    TbtHeader, TbtMetadata, TbtNote, TbtSong, TbtSongInfo, TbtStringEffect, TbtTrack, TbtVersion,
    NOTE_FRET_FLAG, NOTE_MUTED, NOTE_STOP,
};

verus! {

/// Size of the header in bytes.
pub const TBT_HEADER_SIZE: usize = 64;

/// Offset of the header's own CRC-32, which covers the bytes before it.
pub const CRC32_HEADER_OFFSET: usize = 0x3c;

/// Ticks in a space (a sixteenth note).
pub const TICKS_PER_SPACE: u32 = 240;

/// Ticks in a twentieth of a space.
pub const TICKS_PER_VSQ: u32 = 12;

/// Ticks in half a space.
pub const TICKS_PER_DSQ: u32 = 120;

/// Slots of the note grid per space.
pub const SLOTS_PER_SPACE: usize = 20;

/// Strings a track can have.
pub const STRINGS_PER_TRACK: usize = 8;

/// Slots of a note grid row: 8 notes, 8 effects and 4 more.
pub const NOTES_SLOT_COUNT: usize = 20;

/// Slots of the alternate time grid per space.
pub const ALT_TIME_SLOTS_PER_SPACE: usize = 2;

/// Most chunks one delta list may span.
pub const MAX_DELTA_LIST_CHUNKS: usize = 10_000;

/// Whether the data starts with the magic bytes "TBT".
pub fn is_tbt_file(data: &[u8]) -> (r: bool)
    ensures
        r == (data@.len() >= 3 && data@[0] == 0x54 && data@[1] == 0x42 && data@[2] == 0x54),
{
    data.len() >= 3 && data[0] == 0x54 && data[1] == 0x42 && data[2] == 0x54
}

/// Text of bytes read as UTF-8, with each malformed sequence replaced.
pub uninterp spec fn utf8_lossy(b: Seq<u8>) -> Seq<char>;

/// Relies on String::from_utf8_lossy: the text of the bytes with malformed
/// sequences replaced; nothing read gives nothing.
#[verifier::external_body]
fn lossy_string(b: &[u8]) -> (r: String)
    ensures
        r@ == utf8_lossy(b@),
        b@.len() == 0 ==> r@.len() == 0,
{
    String::from_utf8_lossy(b).into_owned()
}

/// Reads a string with a one-byte length.
pub fn parse_pascal1_string(input: &[u8]) -> (r: Result<(&[u8], String), ParseFailure>)
    ensures
        r is Ok <==> (input@.len() >= 1 && input@[0] <= input@.len() - 1),
        r matches Ok((rest, s)) ==> rest@ == input@.subrange(1 + input@[0], input@.len() as int)
            && s@ == utf8_lossy(input@.subrange(1, 1 + input@[0])),
{
    let (i1, len) = parse_byte(input)?;
    let (i2, bytes) = take(i1, len as usize)?;
    proof {
        assert(bytes@ =~= input@.subrange(1, 1 + input@[0]));
        assert(i2@ =~= input@.subrange(1 + input@[0], input@.len() as int));
    }
    Ok((i2, lossy_string(bytes)))
}

/// Reads a string with a two-byte little-endian length.
pub fn parse_pascal2_string(input: &[u8]) -> (r: Result<(&[u8], String), ParseFailure>)
    ensures
        r matches Ok((rest, s)) ==> is_rest_of(rest@, input@),
        input@.len() < 2 ==> r is Err,
        input@.len() >= 2 ==> (r is Ok <==> crate::bytes::le_u16(input@) <= input@.len() - 2),
        r matches Ok((rest, s)) ==> ({
            let n = crate::bytes::le_u16(input@);
            &&& rest@ == input@.subrange(2 + n, input@.len() as int)
            &&& s@ == utf8_lossy(input@.subrange(2, 2 + n))
        }),
{
    let (i1, len) = parse_u16(input)?;
    let (i2, bytes) = take(i1, len as usize)?;
    proof {
        lemma_rest_trans(input@, i1@, i2@);
        assert(bytes@ =~= input@.subrange(2, 2 + len));
        assert(i2@ =~= input@.subrange(2 + len, input@.len() as int));
    }
    Ok((i2, lossy_string(bytes)))
}

/// Names the CRC-32 of some bytes.
pub uninterp spec fn crc32_of(b: Seq<u8>) -> u32;

/// Relies on crc32fast::hash: the CRC-32 (IEEE) of the bytes.
#[verifier::external_body]
fn compute_crc32(data: &[u8]) -> (r: u32)
    ensures
        r == crc32_of(data@),
{
    crc32fast::hash(data)
}

/// Whether the header CRC-32 of the data, over its first 60 bytes, is
/// `expected_crc`.
pub fn validate_header_crc32(data: &[u8], expected_crc: u32) -> (r: bool)
    ensures
        r == (data@.len() >= CRC32_HEADER_OFFSET && crc32_of(data@.subrange(0, CRC32_HEADER_OFFSET as int))
            == expected_crc),
{
    if data.len() < CRC32_HEADER_OFFSET {
        return false;
    }
    compute_crc32(&data[0..CRC32_HEADER_OFFSET]) == expected_crc
}

/// Names what zlib inflation makes of some bytes, when they are a valid
/// stream.
pub uninterp spec fn zlib_inflate(b: Seq<u8>) -> Option<Seq<u8>>;

/// Relies on flate2::read::ZlibDecoder read to the end: the inflated bytes
/// of a valid zlib stream.
#[verifier::external_body]
fn inflate(compressed: &[u8]) -> (r: Option<Vec<u8>>)
    ensures
        match r {
            Some(v) => zlib_inflate(compressed@) == Some(v@),
            None => zlib_inflate(compressed@) is None,
        },
{
    let mut decoder = flate2::read::ZlibDecoder::new(compressed);
    let mut out: Vec<u8> = Vec::new();
    match std::io::Read::read_to_end(&mut decoder, &mut out) {
        Ok(_) => Some(out),
        Err(_) => None,
    }
}

/// The inflated bytes of a zlib stream; a corrupt stream is a parsing error.
pub fn decompress_zlib(compressed: &[u8]) -> (r: Result<Vec<u8>, RuxError>)
    ensures
        match r {
            Ok(v) => zlib_inflate(compressed@) == Some(v@),
            Err(e) => zlib_inflate(compressed@) is None && e is ParsingError,
        },
{
    match inflate(compressed) {
        Some(v) => Ok(v),
        None => Err(RuxError::ParsingError(String::from_str("Failed to decompress TBT data"))),
    }
}

/// Bytes of a header whose version text has `l` bytes: 64, or more when the
/// text runs past the feature byte.
pub open spec fn tbt_header_len(l: int) -> int {
    if l <= 4 {
        64
    } else {
        60 + l
    }
}

/// The counts, lengths and checksums of a header, read from the 24 bytes
/// that end it.
pub open spec fn header_tail_read(h: TbtHeader, t: Seq<u8>) -> bool {
    &&& h.bar_count == crate::bytes::le_u16(t)
    &&& h.space_count == crate::bytes::le_u16(t.subrange(2, t.len() as int))
    &&& h.last_non_empty_space == crate::bytes::le_u16(t.subrange(4, t.len() as int))
    &&& h.tempo2 == crate::bytes::le_u16(t.subrange(6, t.len() as int))
    &&& h.compressed_metadata_len == crate::bytes::le_u32(t.subrange(8, t.len() as int))
    &&& h.crc32_body == crate::bytes::le_u32(t.subrange(12, t.len() as int))
    &&& h.total_byte_count == crate::bytes::le_u32(t.subrange(16, t.len() as int))
    &&& h.crc32_header == crate::bytes::le_u32(t.subrange(20, t.len() as int))
}

/// Reads the 24 bytes that end a header: bar, space, last space and tempo
/// counts, then metadata length, body checksum, file size and header checksum.
fn parse_header_tail(t: &[u8]) -> (r: Result<(&[u8], (u16, u16, u16, u16, u32, u32, u32, u32)), ParseFailure>)
    ensures
        r is Ok <==> t@.len() >= 24,
        r matches Ok((rest, v)) ==> rest@ == t@.subrange(24, t@.len() as int) && is_rest_of(rest@, t@)
            && v.0 == crate::bytes::le_u16(t@) && v.1 == crate::bytes::le_u16(t@.subrange(2, t@.len() as int))
            && v.2 == crate::bytes::le_u16(t@.subrange(4, t@.len() as int)) && v.3 == crate::bytes::le_u16(
            t@.subrange(6, t@.len() as int),
        ) && v.4 == crate::bytes::le_u32(t@.subrange(8, t@.len() as int)) && v.5 == crate::bytes::le_u32(
            t@.subrange(12, t@.len() as int),
        ) && v.6 == crate::bytes::le_u32(t@.subrange(16, t@.len() as int)) && v.7 == crate::bytes::le_u32(
            t@.subrange(20, t@.len() as int),
        ),
{
    if t.len() < 24 {
        return Err(ParseFailure::Incomplete);
    }
    let (a, bar_count) = parse_u16(t)?;
    let (b, space_count) = parse_u16(a)?;
    let (c, last) = parse_u16(b)?;
    let (d, tempo2) = parse_u16(c)?;
    let (e, meta) = parse_u32(d)?;
    let (f, body) = parse_u32(e)?;
    let (g, total) = parse_u32(f)?;
    let (h, crc) = parse_u32(g)?;
    proof {
        assert(a@ =~= t@.subrange(2, t@.len() as int));
        assert(b@ =~= t@.subrange(4, t@.len() as int));
        assert(c@ =~= t@.subrange(6, t@.len() as int));
        assert(d@ =~= t@.subrange(8, t@.len() as int));
        assert(e@ =~= t@.subrange(12, t@.len() as int));
        assert(f@ =~= t@.subrange(16, t@.len() as int));
        assert(g@ =~= t@.subrange(20, t@.len() as int));
        assert(h@ =~= t@.subrange(24, t@.len() as int));
        crate::bytes::lemma_rest_drop(t@, 24);
    }
    Ok((h, (bar_count, space_count, last, tempo2, meta, body, total, crc)))
}

/// Reads the 64-byte header: magic, version, tempo, track count, version
/// text, feature byte at 0x0b, then the counts, lengths and checksums from
/// 0x28 on.
#[verifier::rlimit(100)]
pub fn parse_tbt_header(input: &[u8]) -> (r: Result<(&[u8], TbtHeader), ParseFailure>)
    ensures
        r matches Ok((rest, h)) ==> is_rest_of(rest@, input@) && Some(h.version)
            == TbtVersion::spec_from_byte(input@[3]) && h.tempo1 == input@[4] && h.track_count
            == input@[5],
        input@.len() < 3 ==> r is Err,
        input@.len() >= 4 && !(input@[0] == 0x54 && input@[1] == 0x42 && input@[2] == 0x54) ==> r is Err,
        input@.len() >= 4 && TbtVersion::spec_from_byte(input@[3]) is None ==> r is Err,
        (input@.len() >= 7 && input@[0] == 0x54 && input@[1] == 0x42 && input@[2] == 0x54
            && TbtVersion::spec_from_byte(input@[3]) is Some) ==> (r is Ok <==> input@.len()
            >= tbt_header_len(input@[6] as int)),
        r matches Ok((rest, _)) ==> rest@ == input@.subrange(tbt_header_len(input@[6] as int), input@.len() as int),
        r matches Ok((_, h)) ==> header_tail_read(
            h,
            input@.subrange(tbt_header_len(input@[6] as int) - 24, input@.len() as int),
        ),
{
    if !is_tbt_file(input) {
        return Err(ParseFailure::Malformed);
    }
    if input.len() < 7 || TbtVersion::from_byte(input[3]).is_none() {
        if input.len() >= 4 && TbtVersion::from_byte(input[3]).is_none() {
            return Err(ParseFailure::Malformed);
        }
        return Err(ParseFailure::Incomplete);
    }
    let needed: usize = if input[6] <= 4 {
        64
    } else {
        60 + input[6] as usize
    };
    if input.len() < needed {
        return Err(ParseFailure::Incomplete);
    }
    let (i0, _magic) = take(input, 3)?;
    let (i1, version_byte) = parse_byte(i0)?;
    let version = match TbtVersion::from_byte(version_byte) {
        Some(v) => v,
        None => {
            return Err(ParseFailure::Malformed);
        },
    };
    let (i2, tempo1) = parse_byte(i1)?;
    let (i3, track_count) = parse_byte(i2)?;
    let (i4, version_string) = parse_pascal1_string(i3)?;
    proof {
        assert(i0@ =~= input@.subrange(3, input@.len() as int));
        assert(version_byte == input@[3]);
        assert(tempo1 == input@[4]);
        assert(track_count == input@[5]);
        lemma_rest_trans(input@, i0@, i1@);
        lemma_rest_trans(input@, i1@, i2@);
        lemma_rest_trans(input@, i2@, i3@);
        crate::bytes::lemma_rest_drop(i3@, 1 + i3@[0]);
        lemma_rest_trans(input@, i3@, i4@);
    }
    let consumed: usize = 7 + (i3[0] as usize);
    let skip_to_feature: usize = if consumed < 0x0b {
        0x0b - consumed
    } else {
        0
    };
    let (i5, _) = take(i4, skip_to_feature)?;
    let (i6, feature_byte) = parse_byte(i5)?;
    let (i7, _) = take(i6, 28)?;
    let (i15, tail) = parse_header_tail(i7)?;
    let (bar_count, space_count, last_non_empty_space, tempo2) = (tail.0, tail.1, tail.2, tail.3);
    let (compressed_metadata_len, crc32_body, total_byte_count, crc32_header) = (tail.4, tail.5, tail.6, tail.7);
    proof {
        lemma_rest_trans(input@, i4@, i5@);
        lemma_rest_trans(input@, i5@, i6@);
        lemma_rest_trans(input@, i6@, i7@);
        lemma_rest_trans(input@, i7@, i15@);
        assert(i15@.len() == input@.len() - tbt_header_len(input@[6] as int));
        assert(i15@ =~= input@.subrange(tbt_header_len(input@[6] as int), input@.len() as int));
        assert(i7@ =~= input@.subrange(tbt_header_len(input@[6] as int) - 24, input@.len() as int));
    }
    Ok((
        i15,
        TbtHeader {
            version,
            tempo1,
            track_count,
            version_string,
            features: TbtFeatures::from_byte(feature_byte),
            bar_count,
            space_count,
            last_non_empty_space,
            tempo2,
            compressed_metadata_len,
            crc32_body,
            total_byte_count,
            crc32_header,
        },
    ))
}

/// Parses the header of a file that holds at least 64 bytes.
pub fn parse_tbt_header_only(data: &[u8]) -> (r: Result<TbtHeader, RuxError>)
    ensures
        data@.len() < TBT_HEADER_SIZE ==> r is Err,
        r matches Ok(h) ==> Some(h.version) == TbtVersion::spec_from_byte(data@[3]) && h.tempo1
            == data@[4] && h.track_count == data@[5],
        r matches Err(e) ==> e is ParsingError,
{
    if data.len() < TBT_HEADER_SIZE {
        return Err(RuxError::ParsingError(String::from_str("TBT file too small for header")));
    }
    match parse_tbt_header(data) {
        Ok((_, header)) => Ok(header),
        Err(_) => Err(RuxError::ParsingError(String::from_str("Failed to parse TBT header"))),
    }
}

/// Whether header checks are strict.
#[derive(Debug, Clone, Copy, PartialEq, Eq, Structural)]
pub struct TbtParseOptions {
    /// Accept a header whose CRC-32 does not match.
    pub skip_crc_validation: bool,
}

impl Default for TbtParseOptions {
    fn default() -> (r: Self)
        ensures
            !r.skip_crc_validation,
    {
        TbtParseOptions { skip_crc_validation: false }
    }
}

/// The warnings of a header check, in order: a checksum mismatch (when it is
/// accepted), a file size that differs from the header's, no tracks or more
/// than 32, and a zero tempo.
pub open spec fn expected_warnings(crc_valid: bool, size_ok: bool, track_count: u8, tempo1: u8) -> Seq<Seq<char>> {
    let a = if crc_valid { Seq::empty() } else { seq!["Header CRC32 mismatch"@] };
    let b = if size_ok { a } else { a.push("File size mismatch between header and data"@) };
    let c = if track_count == 0 {
        b.push("Track count is 0"@)
    } else if track_count > 32 {
        b.push("Unusually high track count"@)
    } else {
        b
    };
    if tempo1 == 0 {
        c.push("Tempo1 is 0"@)
    } else {
        c
    }
}

/// A parsed header with what its checks found.
#[derive(Debug)]
pub struct TbtValidationResult {
    pub header: TbtHeader,
    /// Whether the header CRC-32 matched.
    pub header_crc_valid: bool,
    pub warnings: Vec<String>,
}

/// Parses the header and checks it: a CRC-32 mismatch is an error unless the
/// options skip it; a size that differs from the file's, no tracks, more than
/// 32 tracks or a zero tempo are warnings.
pub fn parse_and_validate_tbt_header(data: &[u8], options: TbtParseOptions) -> (r: Result<
    TbtValidationResult,
    RuxError,
>)
    ensures
        data@.len() < TBT_HEADER_SIZE ==> r is Err,
        r matches Ok(v) ==> v.header_crc_valid == (crc32_of(data@.subrange(0, CRC32_HEADER_OFFSET as int))
            == v.header.crc32_header),
        r matches Ok(v) ==> !v.header_crc_valid ==> options.skip_crc_validation,
        r matches Err(e) ==> e is ParsingError,
        (data@.len() >= TBT_HEADER_SIZE && data@[0] == 0x54 && data@[1] == 0x42 && data@[2] == 0x54
            && TbtVersion::spec_from_byte(data@[3]) is Some && data@[6] <= 4) ==> (r is Ok <==> (
        options.skip_crc_validation || crc32_of(data@.subrange(0, CRC32_HEADER_OFFSET as int))
            == crate::bytes::le_u32(data@.subrange(60, data@.len() as int)))),
        r matches Ok(v) ==> Some(v.header.version) == TbtVersion::spec_from_byte(data@[3]) && v.header.tempo1
            == data@[4] && v.header.track_count == data@[5],
        r matches Ok(v) ==> header_tail_read(
            v.header,
            data@.subrange(tbt_header_len(data@[6] as int) - 24, data@.len() as int),
        ),
        r matches Ok(v) ==> v.warnings@.map_values(|w: String| w@) == expected_warnings(
            v.header_crc_valid,
            data@.len() == v.header.total_byte_count,
            v.header.track_count,
            v.header.tempo1,
        ),
{
    if data.len() < TBT_HEADER_SIZE {
        return Err(RuxError::ParsingError(String::from_str("TBT file too small for header (need 64 bytes)")));
    }
    let header = match parse_tbt_header(data) {
        Ok((_, h)) => h,
        Err(_) => {
            return Err(RuxError::ParsingError(String::from_str("Failed to parse TBT header")));
        },
    };
    let mut warnings: Vec<String> = Vec::new();
    let header_crc_valid = validate_header_crc32(data, header.crc32_header);
    let size_ok = data.len() as u64 == header.total_byte_count as u64;
    let ghost a = if header_crc_valid { Seq::<Seq<char>>::empty() } else { seq!["Header CRC32 mismatch"@] };
    if !header_crc_valid {
        if !options.skip_crc_validation {
            return Err(RuxError::ParsingError(String::from_str("Header CRC32 mismatch")));
        }
        warnings.push(String::from_str("Header CRC32 mismatch"));
    }
    assert(warnings@.map_values(|w: String| w@) =~= a);
    let ghost b = if size_ok { a } else { a.push("File size mismatch between header and data"@) };
    if !size_ok {
        warnings.push(String::from_str("File size mismatch between header and data"));
    }
    assert(warnings@.map_values(|w: String| w@) =~= b);
    let ghost c = if header.track_count == 0 {
        b.push("Track count is 0"@)
    } else if header.track_count > 32 {
        b.push("Unusually high track count"@)
    } else {
        b
    };
    if header.track_count == 0 {
        warnings.push(String::from_str("Track count is 0"));
    } else if header.track_count > 32 {
        warnings.push(String::from_str("Unusually high track count"));
    }
    assert(warnings@.map_values(|w: String| w@) =~= c);
    if header.tempo1 == 0 {
        warnings.push(String::from_str("Tempo1 is 0"));
    }
    assert(warnings@.map_values(|w: String| w@) =~= expected_warnings(
        header_crc_valid,
        size_ok,
        header.track_count,
        header.tempo1,
    ));
    Ok(TbtValidationResult { header, header_crc_valid, warnings })
}


/// Byte `k` of the block of one-byte values that starts at `off`.
pub open spec fn block_byte(input: Seq<u8>, off: int, k: int) -> u8 {
    input[off + k]
}

/// Bytes of the per-track space counts: four per track from version 0x70 on.
pub open spec fn space_block_len(version: TbtVersion) -> int {
    if version == TbtVersion::V0x6f {
        0
    } else {
        4
    }
}

/// Bytes per track of the modulation and pitch bend blocks (from 0x71 on).
pub open spec fn modulation_block_len(version: TbtVersion) -> int {
    if version == TbtVersion::V0x71 || version == TbtVersion::V0x72 {
        3
    } else {
        0
    }
}

/// Start of the blocks that follow volume (transposition on).
pub open spec fn late_blocks(n: int, version: TbtVersion) -> int {
    space_block_len(version) * n + 4 * n + modulation_block_len(version) * n
}

/// Size of the track blocks of the metadata for `n` tracks.
pub open spec fn metadata_tracks_len(n: int, version: TbtVersion) -> int {
    late_blocks(n, version) + 19 * n
}

/// The track read from the metadata blocks: track `k` takes the `k`-th value
/// of each block.
pub open spec fn track_matches(t: TbtTrack, input: Seq<u8>, n: int, version: TbtVersion, k: int) -> bool {
    let e = space_block_len(version) * n;
    let l = late_blocks(n, version);
    &&& t.index == k
    &&& (version == TbtVersion::V0x6f ==> t.space_count is None)
    &&& (version != TbtVersion::V0x6f ==> t.space_count == Some(
        crate::bytes::le_u32(input.subrange(4 * k, 4 * k + 4)) as u32,
    ))
    &&& t.string_count == input[e + k]
    &&& t.clean_guitar == input[e + n + k]
    &&& t.muted_guitar == input[e + 2 * n + k]
    &&& t.volume == input[e + 3 * n + k]
    &&& (modulation_block_len(version) == 0 ==> t.modulation is None && t.pitch_bend is None)
    &&& (modulation_block_len(version) != 0 ==> t.modulation == Some(input[e + 4 * n + k])
        && t.pitch_bend == Some(
        crate::bytes::le_u16(input.subrange(e + 5 * n + 2 * k, e + 5 * n + 2 * k + 2)) as u16,
    ))
    &&& t.transpose_half_steps == crate::bytes::le_i8(input.subrange(l + k, l + k + 1))
    &&& t.midi_bank == input[l + n + k]
    &&& t.reverb == input[l + 2 * n + k]
    &&& t.chorus == input[l + 3 * n + k]
    &&& t.pan == input[l + 4 * n + k]
    &&& t.highest_note == input[l + 5 * n + k]
    &&& t.display_midi_note_numbers == (input[l + 6 * n + k] != 0)
    &&& t.midi_channel == input[l + 7 * n + k]
    &&& t.top_line_text == (input[l + 8 * n + k] != 0)
    &&& t.bottom_line_text == (input[l + 9 * n + k] != 0)
    &&& t.tuning@ == input.subrange(l + 10 * n + 8 * k, l + 10 * n + 8 * k + 8)
    &&& t.is_drum == (input[l + 18 * n + k] != 0)
}

/// Track `k` of `n` from the metadata blocks.
#[verifier::rlimit(50)]
fn track_from_blocks(input: &[u8], n: usize, version: TbtVersion, e: usize, l: usize, k: usize) -> (t: TbtTrack)
    requires
        n <= 255,
        k < n,
        e == space_block_len(version) * n,
        l == late_blocks(n as int, version),
        l + 19 * n <= input@.len(),
    ensures
        track_matches(t, input@, n as int, version, k as int),
{
    let with_space = version.has_space_count_per_track();
    let with_mod = version.has_modulation_pitch_bend();
        let space_count = if with_space {
            let o = 4 * k;
            Some(input[o] as u32 + 256 * input[o + 1] as u32 + 65536 * input[o + 2] as u32 + 16777216 * input[o + 3] as u32)
        } else {
            None
        };
        let (modulation, pitch_bend) = if with_mod {
            let o = e + 5 * n + 2 * k;
            (Some(input[e + 4 * n + k]), Some(input[o] as u16 + 256 * input[o + 1] as u16))
        } else {
            (None, None)
        };
        let t0 = l + 10 * n + 8 * k;
        let tb = input[l + k];
        let t = TbtTrack {
            index: k as u8,
            space_count,
            string_count: input[e + k],
            clean_guitar: input[e + n + k],
            muted_guitar: input[e + 2 * n + k],
            volume: input[e + 3 * n + k],
            modulation,
            pitch_bend,
            transpose_half_steps: if tb >= 128 {
                (tb as i16 - 256) as i8
            } else {
                tb as i8
            },
            midi_bank: input[l + n + k],
            reverb: input[l + 2 * n + k],
            chorus: input[l + 3 * n + k],
            pan: input[l + 4 * n + k],
            highest_note: input[l + 5 * n + k],
            display_midi_note_numbers: input[l + 6 * n + k] != 0,
            midi_channel: input[l + 7 * n + k],
            top_line_text: input[l + 8 * n + k] != 0,
            bottom_line_text: input[l + 9 * n + k] != 0,
            tuning: [
                input[t0],
                input[t0 + 1],
                input[t0 + 2],
                input[t0 + 3],
                input[t0 + 4],
                input[t0 + 5],
                input[t0 + 6],
                input[t0 + 7],
            ],
            is_drum: input[l + 18 * n + k] != 0,
        };
        proof {
            assert(t.tuning@ =~= input@.subrange(t0 as int, t0 + 8));
            assert(input@.subrange(l + k, l + k + 1)[0] == input@[l + k]);
            if with_space {
                let o = 4 * k;
                assert(input@.subrange(o as int, o + 4)[0] == input@[o as int]);
                assert(input@.subrange(o as int, o + 4)[1] == input@[o + 1]);
                assert(input@.subrange(o as int, o + 4)[2] == input@[o + 2]);
                assert(input@.subrange(o as int, o + 4)[3] == input@[o + 3]);
            }
            if with_mod {
                let o = e + 5 * n + 2 * k;
                assert(input@.subrange(o as int, o + 2)[0] == input@[o as int]);
                assert(input@.subrange(o as int, o + 2)[1] == input@[o + 1]);
            }
            assert(track_matches(t, input@, n as int, version, k as int));
        }
    t
}

/// Reads the per-track blocks of the metadata, each holding one value for
/// every track in turn: space counts (from 0x70), string counts, sounds,
/// volume, modulation and pitch bend (from 0x71), transposition, bank,
/// reverb, chorus, pan, highest note, display flag, MIDI channel, text
/// flags, tunings and drum flags.
pub fn parse_metadata_tracks(input: &[u8], track_count: u8, version: TbtVersion) -> (r: Result<(&[u8], Vec<TbtTrack>), ParseFailure>)
    ensures
        r is Ok <==> metadata_tracks_len(track_count as int, version) <= input@.len(),
        r matches Ok((rest, _)) ==> rest@ == input@.subrange(
            metadata_tracks_len(track_count as int, version),
            input@.len() as int,
        ),
        r matches Ok((_, tracks)) ==> tracks@.len() == track_count,
        r matches Ok((_, tracks)) ==> forall|k: int|
            0 <= k < track_count ==> #[trigger] track_matches(tracks@[k], input@, track_count as int, version, k),
{
    let n = track_count as usize;
    let with_space = version.has_space_count_per_track();
    let with_mod = version.has_modulation_pitch_bend();
    let e: usize = if with_space {
        4 * n
    } else {
        0
    };
    let l: usize = e + 4 * n + if with_mod {
        3 * n
    } else {
        0
    };
    let size: usize = l + 19 * n;
    proof {
        assert(e == space_block_len(version) * n);
        assert(l == late_blocks(n as int, version));
    }
    if input.len() < size {
        return Err(ParseFailure::Incomplete);
    }
    let mut tracks: Vec<TbtTrack> = Vec::new();
    let mut k: usize = 0;
    while k < n
        invariant
            n == track_count,
            k <= n,
            tracks@.len() == k,
            e == space_block_len(version) * n,
            l == late_blocks(n as int, version),
            with_space == (version != TbtVersion::V0x6f),
            with_mod == (modulation_block_len(version) != 0),
            size == l + 19 * n,
            size <= input@.len(),
            forall|j: int| 0 <= j < k ==> #[trigger] track_matches(tracks@[j], input@, n as int, version, j),
        decreases n - k,
    {
        let t = track_from_blocks(input, n, version, e, l, k);
        tracks.push(t);
        k = k + 1;
    }
    Ok((&input[size..input.len()], tracks))
}

/// Reads the five strings of the song information.
pub fn parse_song_info(input: &[u8]) -> (r: Result<(&[u8], TbtSongInfo), ParseFailure>)
    ensures
        r matches Ok((rest, _)) ==> is_rest_of(rest@, input@),
{
    let (i1, title) = parse_pascal2_string(input)?;
    let (i2, artist) = parse_pascal2_string(i1)?;
    let (i3, album) = parse_pascal2_string(i2)?;
    let (i4, transcribed_by) = parse_pascal2_string(i3)?;
    let (i5, comment) = parse_pascal2_string(i4)?;
    proof {
        lemma_rest_trans(input@, i1@, i2@);
        lemma_rest_trans(input@, i2@, i3@);
        lemma_rest_trans(input@, i3@, i4@);
        lemma_rest_trans(input@, i4@, i5@);
    }
    Ok((i5, TbtSongInfo { title, artist, album, transcribed_by, comment }))
}

/// Reads the inflated metadata: the track settings, then the song
/// information (the format stores no track names).
pub fn parse_metadata(decompressed: &[u8], track_count: u8, version: TbtVersion) -> (r: Result<TbtMetadata, RuxError>)
    ensures
        r matches Ok(m) ==> m.tracks@.len() == track_count,
        r matches Err(e) ==> e is ParsingError,
{
    let (remaining, tracks) = match parse_metadata_tracks(decompressed, track_count, version) {
        Ok(v) => v,
        Err(_) => {
            return Err(RuxError::ParsingError(String::from_str("Failed to parse track metadata")));
        },
    };
    let (_, song_info) = match parse_song_info(remaining) {
        Ok(v) => v,
        Err(_) => {
            return Err(RuxError::ParsingError(String::from_str("Failed to parse song info")));
        },
    };
    Ok(TbtMetadata { tracks, song_info })
}

/// Inflates and reads the metadata that follows the 64-byte header.
pub fn parse_tbt_metadata(data: &[u8], header: &TbtHeader) -> (r: Result<TbtMetadata, RuxError>)
    ensures
        r matches Ok(m) ==> m.tracks@.len() == header.track_count,
        data@.len() < TBT_HEADER_SIZE + header.compressed_metadata_len ==> r is Err,
        r matches Err(e) ==> e is ParsingError,
{
    let metadata_len = header.compressed_metadata_len as u64;
    if (data.len() as u64) < TBT_HEADER_SIZE as u64 + metadata_len {
        return Err(RuxError::ParsingError(String::from_str("File too small for metadata")));
    }
    let end = TBT_HEADER_SIZE + metadata_len as usize;
    let decompressed = decompress_zlib(&data[TBT_HEADER_SIZE..end])?;
    parse_metadata(decompressed.as_slice(), header.track_count, header.version)
}

/// The slots that the pairs from `pos` on fill: a pair is a count byte and a
/// value byte, or a zero byte, a two-byte count and a value byte; a cut-off
/// long pair ends the list.
pub open spec fn delta_count_from(p: Seq<u8>, pos: int) -> int
    decreases p.len() - pos,
{
    if pos < 0 || pos >= p.len() {
        0
    } else if p[pos] != 0 {
        p[pos] + (if pos + 2 < p.len() {
            delta_count_from(p, pos + 2)
        } else {
            0
        })
    } else if pos + 3 >= p.len() {
        0
    } else {
        (p[pos + 1] + 256 * p[pos + 2]) + delta_count_from(p, pos + 4)
    }
}

/// The number of slots that the pairs of a delta list fill, saturated at
/// `usize::MAX`.
pub fn compute_delta_list_count(pairs: &[u8]) -> (r: usize)
    ensures
        r == (if delta_count_from(pairs@, 0) > usize::MAX {
            usize::MAX as int
        } else {
            delta_count_from(pairs@, 0)
        }),
{
    let mut count: usize = 0;
    let mut pos: usize = 0;
    let ghost mut done: int = 0;
    while pos < pairs.len()
        invariant
            0 <= done,
            done + delta_count_from(pairs@, pos as int) == delta_count_from(pairs@, 0),
            count == (if done > usize::MAX { usize::MAX as int } else { done }),
        decreases pairs@.len() - pos,
    {
        let increment: usize;
        let advance: usize;
        if pairs[pos] != 0 {
            increment = pairs[pos] as usize;
            advance = 2;
        } else if pairs.len() - pos <= 3 {
            increment = 0;
            advance = pairs.len() - pos;
        } else {
            increment = pairs[pos + 1] as usize + 256 * pairs[pos + 2] as usize;
            advance = 4;
        }
        proof {
            done = done + increment;
        }
        count = count.saturating_add(increment);
        let ghost old_pos = pos as int;
        proof {
            assert(delta_count_from(pairs@, old_pos) == increment + (if old_pos + advance < pairs@.len() && advance >= 2 {
                delta_count_from(pairs@, old_pos + advance)
            } else {
                0
            }));
            assert(delta_count_from(pairs@, pairs@.len() as int) == 0);
        }
        pos = if advance >= pairs.len() - pos {
            pairs.len()
        } else {
            pos + advance
        };
    }
    proof {
        assert(delta_count_from(pairs@, pos as int) == 0);
    }
    count
}

/// The runs of a delta list from `pos` on, as (count, value): a count byte
/// and a value byte, or a zero byte, a two-byte count and a value byte. A
/// cut-off pair ends the list.
pub open spec fn runs_from(p: Seq<u8>, pos: int) -> Seq<(int, u8)>
    decreases p.len() - pos,
{
    if pos < 0 || pos >= p.len() {
        Seq::empty()
    } else if p[pos] != 0 {
        if pos + 1 >= p.len() {
            Seq::empty()
        } else {
            seq![(p[pos] as int, p[pos + 1])] + runs_from(p, pos + 2)
        }
    } else if p.len() - pos <= 3 {
        Seq::empty()
    } else {
        seq![(p[pos + 1] + 256 * p[pos + 2], p[pos + 3])] + runs_from(p, pos + 4)
    }
}

/// Slots the runs cover.
pub open spec fn runs_total(runs: Seq<(int, u8)>) -> int
    decreases runs.len(),
{
    if runs.len() == 0 {
        0
    } else {
        runs[0].0 + runs_total(runs.drop_first())
    }
}

/// Value of slot `u` when the runs fill the slots one after another; 0 past
/// their end.
pub open spec fn run_value(runs: Seq<(int, u8)>, u: int) -> u8
    decreases runs.len(),
{
    if runs.len() == 0 {
        0
    } else if u < runs[0].0 {
        runs[0].1
    } else {
        run_value(runs.drop_first(), u - runs[0].0)
    }
}

proof fn lemma_runs_total_nonneg(runs: Seq<(int, u8)>)
    requires
        forall|k: int| 0 <= k < runs.len() ==> #[trigger] runs[k].0 >= 0,
    ensures
        runs_total(runs) >= 0,
    decreases runs.len(),
{
    if runs.len() > 0 {
        assert(runs[0].0 >= 0);
        lemma_runs_total_nonneg(runs.drop_first());
    }
}

proof fn lemma_runs_append(a: Seq<(int, u8)>, b: Seq<(int, u8)>, u: int)
    requires
        forall|k: int| 0 <= k < a.len() ==> #[trigger] a[k].0 >= 0,
        0 <= u,
    ensures
        runs_total(a + b) == runs_total(a) + runs_total(b),
        u < runs_total(a) ==> run_value(a + b, u) == run_value(a, u),
        u >= runs_total(a) ==> run_value(a + b, u) == run_value(b, u - runs_total(a)),
    decreases a.len(),
{
    if a.len() == 0 {
        assert(a + b =~= b);
    } else {
        let rest = a.drop_first();
        assert((a + b).drop_first() =~= rest + b);
        assert((a + b)[0] == a[0]);
        assert(a[0].0 >= 0);
        assert forall|k: int| 0 <= k < rest.len() implies #[trigger] rest[k].0 >= 0 by {
            assert(rest[k] == a[k + 1]);
        }
        lemma_runs_total_nonneg(rest);
        if u >= a[0].0 {
            lemma_runs_append(rest, b, u - a[0].0);
        } else {
            lemma_runs_append(rest, b, 0);
        }
    }
}

proof fn lemma_grid_index(s1: int, c1: int, s2: int, c2: int, k: int)
    requires
        k > 0,
        0 <= c1 < k,
        0 <= c2 < k,
        0 <= s1,
        0 <= s2,
        s1 * k + c1 == s2 * k + c2,
    ensures
        s1 == s2 && c1 == c2,
{
    assert(s1 == s2) by (nonlinear_arith)
        requires
            k > 0,
            0 <= c1 < k,
            0 <= c2 < k,
            s1 * k + c1 == s2 * k + c2,
    ;
}

/// The expected content of slot `u` of a grid being filled by `done`, up to
/// slot `unit`.
pub open spec fn filled(done: Seq<(int, u8)>, unit: int, u: int) -> u8 {
    if u < unit {
        run_value(done, u)
    } else {
        0
    }
}

/// Fills a grid of `total_spaces` rows of `slots_per_space` slots from the
/// pairs of a delta list: each pair fills the next slots, row after row, with
/// its value; slots past the grid are dropped and unfilled slots stay 0.
pub fn expand_delta_list(pairs: &[u8], slots_per_space: usize, total_spaces: usize) -> (r: Vec<Vec<u8>>)
    requires
        slots_per_space * total_spaces <= usize::MAX,
    ensures
        r@.len() == total_spaces,
        forall|k: int| 0 <= k < total_spaces ==> #[trigger] r@[k]@.len() == slots_per_space,
        forall|s: int, c: int|
            0 <= s < total_spaces && 0 <= c < slots_per_space ==> #[trigger] r@[s]@[c] == run_value(
                runs_from(pairs@, 0),
                s * slots_per_space + c,
            ),
{
    let total_slots: usize = slots_per_space * total_spaces;
    let mut result: Vec<Vec<u8>> = Vec::new();
    let mut k: usize = 0;
    while k < total_spaces
        invariant
            k <= total_spaces,
            result@.len() == k,
            forall|j: int| 0 <= j < k ==> #[trigger] result@[j]@.len() == slots_per_space,
            forall|j: int, c: int| 0 <= j < k && 0 <= c < slots_per_space ==> #[trigger] result@[j]@[c] == 0,
        decreases total_spaces - k,
    {
        let mut row: Vec<u8> = Vec::new();
        let mut c: usize = 0;
        while c < slots_per_space
            invariant
                c <= slots_per_space,
                row@.len() == c,
                forall|q: int| 0 <= q < c ==> #[trigger] row@[q] == 0,
            decreases slots_per_space - c,
        {
            row.push(0);
            c = c + 1;
        }
        result.push(row);
        k = k + 1;
    }
    let mut pos: usize = 0;
    let mut unit: usize = 0;
    let mut space: usize = 0;
    let mut slot: usize = 0;
    let ghost mut done: Seq<(int, u8)> = Seq::empty();
    proof {
        assert(runs_from(pairs@, 0) =~= done + runs_from(pairs@, 0));
    }
    while pos < pairs.len()
        invariant
            result@.len() == total_spaces,
            forall|j: int| 0 <= j < total_spaces ==> #[trigger] result@[j]@.len() == slots_per_space,
            total_slots == slots_per_space * total_spaces,
            unit <= total_slots,
            unit == space * slots_per_space + slot,
            unit < total_slots ==> slot < slots_per_space && space < total_spaces,
            runs_from(pairs@, 0) == done + runs_from(pairs@, pos as int),
            forall|q: int| 0 <= q < done.len() ==> #[trigger] done[q].0 >= 0,
            unit == (if runs_total(done) > total_slots { total_slots as int } else { runs_total(done) }),
            forall|s: int, c: int|
                0 <= s < total_spaces && 0 <= c < slots_per_space ==> #[trigger] result@[s]@[c] == filled(
                    done,
                    unit as int,
                    s * slots_per_space + c,
                ),
        decreases pairs@.len() - pos,
    {
        let parsed: Option<(usize, u8, usize)> = if pairs[pos] != 0 {
            if pos + 1 >= pairs.len() {
                None
            } else {
                Some((pairs[pos] as usize, pairs[pos + 1], 2))
            }
        } else if pairs.len() - pos <= 3 {
            None
        } else {
            Some((pairs[pos + 1] as usize + 256 * pairs[pos + 2] as usize, pairs[pos + 3], 4))
        };
        if parsed.is_none() {
            proof {
                assert(runs_from(pairs@, pos as int) =~= Seq::<(int, u8)>::empty());
                assert(runs_from(pairs@, pairs@.len() as int) =~= Seq::<(int, u8)>::empty());
            }
            pos = pairs.len();
        } else {
        let (increment, value, advance) = parsed.unwrap();
        let ghost run = (increment as int, value);
        let ghost old_done = done;
        let ghost start_unit = unit as int;
        proof {
            assert(runs_from(pairs@, pos as int) == seq![run] + runs_from(pairs@, pos + advance));
            assert(runs_from(pairs@, 0) =~= (done + seq![run]) + runs_from(pairs@, pos + advance));
            done = done + seq![run];
            lemma_runs_total_nonneg(old_done);
            lemma_runs_append(old_done, seq![run], 0);
            assert(runs_total(seq![run]) == increment) by {
                assert(seq![run].drop_first() =~= Seq::<(int, u8)>::empty());
                assert(runs_total(Seq::<(int, u8)>::empty()) == 0);
            }
            assert forall|s: int, c: int|
                0 <= s < total_spaces && 0 <= c < slots_per_space implies #[trigger] result@[s]@[c] == filled(
                    done,
                    unit as int,
                    s * slots_per_space + c,
                ) by {
                let u = s * slots_per_space + c;
                assert(u >= 0) by (nonlinear_arith)
                    requires
                        0 <= s,
                        0 <= c,
                        slots_per_space >= 0,
                        u == s * slots_per_space + c,
                ;
                lemma_runs_append(old_done, seq![run], u);
            }
        }
        let end_unit: usize = if increment >= total_slots - unit {
            total_slots
        } else {
            unit + increment
        };
        while unit < end_unit
            invariant
                result@.len() == total_spaces,
                forall|j: int| 0 <= j < total_spaces ==> #[trigger] result@[j]@.len() == slots_per_space,
                total_slots == slots_per_space * total_spaces,
                end_unit <= total_slots,
                start_unit <= unit <= end_unit,
                unit == space * slots_per_space + slot,
                unit < total_slots ==> slot < slots_per_space && space < total_spaces,
                forall|q: int| 0 <= q < done.len() ==> #[trigger] done[q].0 >= 0,
                done == old_done + seq![run],
                runs_total(done) == runs_total(old_done) + increment,
                start_unit == (if runs_total(old_done) > total_slots { total_slots as int } else { runs_total(old_done) }),
                end_unit == (if runs_total(done) > total_slots { total_slots as int } else { runs_total(done) }),
                run == (increment as int, value),
                forall|s: int, c: int|
                    0 <= s < total_spaces && 0 <= c < slots_per_space ==> #[trigger] result@[s]@[c] == filled(
                        done,
                        unit as int,
                        s * slots_per_space + c,
                    ),
            decreases end_unit - unit,
        {
            let ghost before = result@;
            proof {
                assert forall|q: int| 0 <= q < old_done.len() implies #[trigger] old_done[q].0 >= 0 by {
                    assert(old_done[q] == done[q]);
                }
                lemma_runs_total_nonneg(old_done);
                lemma_runs_append(old_done, seq![run], unit as int);
                assert(unit >= runs_total(old_done));
                assert(run_value(seq![run], unit - runs_total(old_done)) == value);
                assert(run_value(done, unit as int) == value);
            }
            result[space].set(slot, value);
            proof {
                assert forall|s: int, c: int|
                    0 <= s < total_spaces && 0 <= c < slots_per_space implies #[trigger] result@[s]@[c]
                        == filled(done, unit + 1, s * slots_per_space + c) by {
                    if s == space && c == slot {
                    } else {
                        if s * slots_per_space + c == unit {
                            lemma_grid_index(s, c, space as int, slot as int, slots_per_space as int);
                        }
                        if s != space {
                            assert(result@[s] == before[s]);
                        }
                        assert(result@[s]@[c] == before[s]@[c]);
                    }
                }
            }
            unit = unit + 1;
            if slot + 1 < slots_per_space {
                slot = slot + 1;
            } else {
                proof {
                    assert((space + 1) * slots_per_space == space * slots_per_space + slots_per_space)
                        by (nonlinear_arith);
                }
                slot = 0;
                space = space + 1;
            }
            proof {
                if unit < total_slots {
                    assert(space < total_spaces) by (nonlinear_arith)
                        requires
                            unit == space * slots_per_space + slot,
                            unit < total_slots,
                            total_slots == slots_per_space * total_spaces,
                            slot >= 0,
                    ;
                }
            }
        }
        proof {
            assert forall|s: int, c: int|
                0 <= s < total_spaces && 0 <= c < slots_per_space implies #[trigger] result@[s]@[c]
                    == filled(done, unit as int, s * slots_per_space + c) by {}
        }
        let ghost old_pos = pos as int;
        pos = if advance >= pairs.len() - pos {
            pairs.len()
        } else {
            pos + advance
        };
        proof {
            if pos == pairs.len() {
                assert(runs_from(pairs@, pos as int) =~= Seq::<(int, u8)>::empty());
                assert(runs_from(pairs@, old_pos + advance) =~= Seq::<(int, u8)>::empty());
            }
        }
        }
    }
    proof {
        let rest = runs_from(pairs@, pos as int);
        assert(rest =~= Seq::<(int, u8)>::empty());
        lemma_runs_total_nonneg(done);
        assert forall|s: int, c: int|
            0 <= s < total_spaces && 0 <= c < slots_per_space implies #[trigger] result@[s]@[c] == run_value(
                runs_from(pairs@, 0),
                s * slots_per_space + c,
            ) by {
            let u = s * slots_per_space + c;
            assert(u < total_slots) by (nonlinear_arith)
                requires
                    0 <= s < total_spaces,
                    0 <= c < slots_per_space,
                    u == s * slots_per_space + c,
                    total_slots == slots_per_space * total_spaces,
            ;
            assert(u >= 0) by (nonlinear_arith)
                requires
                    0 <= s,
                    0 <= c,
                    slots_per_space >= 0,
                    u == s * slots_per_space + c,
            ;
            lemma_runs_append(done, rest, u);
        }
    }
    result
}

/// Bytes of the delta-list chunk at the front: a two-byte pair count and
/// two bytes per pair, when they are all there.
pub open spec fn chunk_len(s: Seq<u8>) -> Option<int> {
    if s.len() >= 2 && 2 + 2 * crate::bytes::le_u16(s) <= s.len() {
        Some(2 + 2 * crate::bytes::le_u16(s))
    } else {
        None
    }
}

/// Where chunk `k` of a delta list starts, when the chunks before it are
/// whole.
pub open spec fn chunk_pos(s: Seq<u8>, k: int) -> Option<int>
    decreases k,
{
    if k <= 0 {
        Some(0)
    } else {
        match chunk_pos(s, k - 1) {
            Some(p) => match chunk_len(s.subrange(p, s.len() as int)) {
                Some(l) => Some(p + l),
                None => None,
            },
            None => None,
        }
    }
}

/// The pairs of the first `k` chunks, one after the other.
pub open spec fn pairs_upto(s: Seq<u8>, k: int) -> Seq<u8>
    decreases k,
{
    if k <= 0 {
        Seq::empty()
    } else {
        let p = chunk_pos(s, k - 1)->0;
        pairs_upto(s, k - 1) + s.subrange(p + 2, chunk_pos(s, k)->0)
    }
}

/// The first `MAX_DELTA_LIST_CHUNKS` chunks are all whole and their pairs
/// still fill fewer than `target` slots.
pub open spec fn needs_too_many_chunks(s: Seq<u8>, target: int) -> bool {
    forall|k: int|
        1 <= k <= MAX_DELTA_LIST_CHUNKS ==> chunk_pos(s, k) is Some && delta_count_from(
            #[trigger] pairs_upto(s, k),
            0,
        ) < target
}

/// Reads one chunk of a delta list: a two-byte pair count, then the pairs.
pub fn read_delta_list_chunk_raw(input: &[u8]) -> (r: Result<(&[u8], Vec<u8>), ParseFailure>)
    ensures
        r matches Ok((rest, pairs)) ==> is_rest_of(rest@, input@) && input@.len() >= 2 && pairs@
            == input@.subrange(2, 2 + 2 * crate::bytes::le_u16(input@)),
        input@.len() < 2 ==> r is Err,
        r is Ok <==> chunk_len(input@) is Some,
        r matches Ok((rest, _)) ==> rest@ == input@.subrange(chunk_len(input@)->0, input@.len() as int),
{
    let (i1, pair_count) = parse_u16(input)?;
    let (i2, chunk) = take(i1, pair_count as usize * 2)?;
    let mut out: Vec<u8> = Vec::new();
    let mut k: usize = 0;
    while k < chunk.len()
        invariant
            k <= chunk@.len(),
            out@ == chunk@.subrange(0, k as int),
        decreases chunk@.len() - k,
    {
        out.push(chunk[k]);
        proof { assert(out@ =~= chunk@.subrange(0, k + 1)); }
        k = k + 1;
    }
    proof {
        lemma_rest_trans(input@, i1@, i2@);
        assert(i2@ =~= input@.subrange(2 + 2 * crate::bytes::le_u16(input@), input@.len() as int));
        assert(out@ =~= chunk@);
        assert(chunk@ =~= input@.subrange(2, 2 + 2 * crate::bytes::le_u16(input@)));
    }
    Ok((i2, out))
}

/// Reads the chunks of a delta list until their pairs fill
/// `slots_per_space * total_spaces` slots, and expands them into that grid.
/// A list that needs more than `MAX_DELTA_LIST_CHUNKS` chunks is too large.
pub fn decode_delta_list_chunks(input: &[u8], slots_per_space: usize, total_spaces: u32) -> (r: Result<(&[u8], Vec<Vec<u8>>), ParseFailure>)
    ensures
        r matches Ok((rest, grid)) ==> is_rest_of(rest@, input@) && grid@.len() == total_spaces
            && forall|k: int| 0 <= k < total_spaces ==> #[trigger] grid@[k]@.len() == slots_per_space,
        needs_too_many_chunks(input@, slots_per_space * total_spaces) ==> r == Err::<
            (&[u8], Vec<Vec<u8>>),
            ParseFailure,
        >(ParseFailure::TooLarge),
{
    proof {
        assert((slots_per_space as u128) * (total_spaces as u128) <= 0xffff_ffff_ffff_ffffu128 * 0xffff_ffffu128)
            by (nonlinear_arith)
            requires
                slots_per_space <= 0xffff_ffff_ffff_ffffu128,
                total_spaces <= 0xffff_ffffu128,
        ;
    }
    let product: u128 = slots_per_space as u128 * total_spaces as u128;
    let target: u128 = product;
    let mut accumulated: Vec<u8> = Vec::new();
    let mut cur = input;
    proof { lemma_rest_refl(input@); }
    let mut chunk_count: usize = 0;
    loop
        invariant
            is_rest_of(cur@, input@),
            chunk_count <= MAX_DELTA_LIST_CHUNKS,
            target == slots_per_space * total_spaces,
            chunk_pos(input@, chunk_count as int) == Some(input@.len() - cur@.len()),
            accumulated@ == pairs_upto(input@, chunk_count as int),
        ensures
            needs_too_many_chunks(input@, target as int) ==> chunk_count >= 1 && delta_count_from(
                pairs_upto(input@, chunk_count as int),
                0,
            ) >= target,
        decreases MAX_DELTA_LIST_CHUNKS - chunk_count,
    {
        if chunk_count >= MAX_DELTA_LIST_CHUNKS {
            return Err(ParseFailure::TooLarge);
        }
        let ghost k = chunk_count as int;
        let ghost p = input@.len() - cur@.len();
        let read = read_delta_list_chunk_raw(cur);
        proof {
            assert(cur@ =~= input@.subrange(p, input@.len() as int));
            if read is Err {
                assert(chunk_pos(input@, k + 1) is None);
                if needs_too_many_chunks(input@, target as int) {
                    assert(delta_count_from(pairs_upto(input@, k + 1), 0) < target);
                }
            }
        }
        let (rest, mut pairs) = match read {
            Ok(v) => v,
            Err(e) => {
                return Err(e);
            },
        };
        proof {
            lemma_rest_trans(input@, cur@, rest@);
            assert(chunk_pos(input@, k + 1) == Some(input@.len() - rest@.len()));
            assert(pairs@ =~= input@.subrange(p + 2, input@.len() - rest@.len()));
        }
        accumulated.append(&mut pairs);
        cur = rest;
        chunk_count = chunk_count + 1;
        proof {
            assert(accumulated@ =~= pairs_upto(input@, chunk_count as int));
        }
        let current = compute_delta_list_count(accumulated.as_slice());
        if current as u128 >= target {
            break;
        }
    }
    if product > usize::MAX as u128 {
        return Err(ParseFailure::TooLarge);
    }
    let grid = expand_delta_list(accumulated.as_slice(), slots_per_space, total_spaces as usize);
    Ok((cur, grid))
}

/// The bar type of the low four bits of a bar byte, if they name one.
pub open spec fn bar_type_of(bits: u8) -> Option<TbtBarType> {
    if bits == 1 {
        Some(TbtBarType::Single)
    } else if bits == 2 {
        Some(TbtBarType::CloseRepeat)
    } else if bits == 3 {
        Some(TbtBarType::OpenRepeat)
    } else if bits == 4 {
        Some(TbtBarType::Double)
    } else if bits == 5 {
        Some(TbtBarType::OpenCloseRepeat)
    } else {
        None
    }
}

fn bar_type_from_bits(bits: u8) -> (r: Option<TbtBarType>)
    ensures
        r == bar_type_of(bits),
{
    if bits == 1 {
        Some(TbtBarType::Single)
    } else if bits == 2 {
        Some(TbtBarType::CloseRepeat)
    } else if bits == 3 {
        Some(TbtBarType::OpenRepeat)
    } else if bits == 4 {
        Some(TbtBarType::Double)
    } else if bits == 5 {
        Some(TbtBarType::OpenCloseRepeat)
    } else {
        None
    }
}

/// Reads `bar_count` bar records of version 0x70 on: a four-byte space
/// increment, a type byte (an unknown type is a single bar) and a repeat count.
pub fn parse_bar_lines_0x70(input: &[u8], bar_count: u16) -> (r: Result<(&[u8], Vec<TbtBarLine>), ParseFailure>)
    ensures
        r matches Ok((rest, bars)) ==> is_rest_of(rest@, input@) && bars@.len() == bar_count,
{
    let mut bars: Vec<TbtBarLine> = Vec::new();
    let mut cur = input;
    proof { lemma_rest_refl(input@); }
    let mut current_space: u32 = 0;
    let mut k: u16 = 0;
    while k < bar_count
        invariant
            k <= bar_count,
            bars@.len() == k,
            is_rest_of(cur@, input@),
        decreases bar_count - k,
    {
        let (c1, space_inc) = parse_u32(cur)?;
        let (c2, bar_byte) = parse_byte(c1)?;
        let (c3, repeat_count) = parse_byte(c2)?;
        proof {
            lemma_rest_trans(input@, cur@, c1@);
            lemma_rest_trans(input@, c1@, c2@);
            lemma_rest_trans(input@, c2@, c3@);
        }
        current_space = current_space.wrapping_add(space_inc);
        let bar_type = match bar_type_from_bits(bar_byte & 0x0F) {
            Some(t) => t,
            None => TbtBarType::Single,
        };
        bars.push(TbtBarLine { space: #[verifier::truncate] (current_space as u16), bar_type, repeat_count });
        cur = c3;
        k = k + 1;
    }
    Ok((cur, bars))
}

/// Reads the bar lines of version 0x6f: a delta list with one slot per space,
/// whose byte holds the bar type (low bits) and repeat count (high bits).
pub fn parse_bar_lines_0x6f(input: &[u8], space_count: u16) -> (r: Result<(&[u8], Vec<TbtBarLine>), ParseFailure>)
    ensures
        r matches Ok((rest, bars)) ==> is_rest_of(rest@, input@) && bars@.len() <= space_count,
{
    let (rest, expanded) = decode_delta_list_chunks(input, 1, space_count as u32)?;
    let mut bars: Vec<TbtBarLine> = Vec::new();
    let mut space_idx: usize = 0;
    while space_idx < expanded.len()
        invariant
            expanded@.len() == space_count,
            forall|k: int| 0 <= k < space_count ==> #[trigger] expanded@[k]@.len() == 1,
            space_idx <= expanded@.len(),
            bars@.len() <= space_idx,
        decreases expanded@.len() - space_idx,
    {
        let bar_byte = expanded[space_idx][0];
        if bar_byte != 0 {
            match bar_type_from_bits(bar_byte & 0x0F) {
                Some(bar_type) => {
                    bars.push(TbtBarLine {
                        space: space_idx as u16,
                        bar_type,
                        repeat_count: (bar_byte >> 4) & 0x0F,
                    });
                },
                None => {},
            }
        }
        space_idx = space_idx + 1;
    }
    Ok((rest, bars))
}

/// Reads the note grid of a track: per space, slots 0 to 7 hold the notes of
/// the strings (0x80 plus the fret, 0x11 muted, 0x12 a stop) and slots 8 to 15
/// their effects.
pub fn parse_track_notes(input: &[u8], space_count: u32) -> (r: Result<(&[u8], Vec<TbtNote>), ParseFailure>)
    ensures
        r matches Ok((rest, notes)) ==> is_rest_of(rest@, input@) && forall|k: int|
            0 <= k < notes@.len() ==> #[trigger] notes@[k].string < 8 && (notes@[k].is_muted ==> notes@[k].fret == 0),
{
    let (rest, expanded) = decode_delta_list_chunks(input, NOTES_SLOT_COUNT, space_count)?;
    let mut notes: Vec<TbtNote> = Vec::new();
    let mut space_idx: usize = 0;
    while space_idx < expanded.len()
        invariant
            expanded@.len() == space_count,
            forall|k: int| 0 <= k < space_count ==> #[trigger] expanded@[k]@.len() == NOTES_SLOT_COUNT,
            space_idx <= expanded@.len(),
            forall|k: int| 0 <= k < notes@.len() ==> #[trigger] notes@[k].string < 8 && (notes@[k].is_muted ==> notes@[k].fret == 0),
        decreases expanded@.len() - space_idx,
    {
        let slots = &expanded[space_idx];
        let mut string: usize = 0;
        while string < STRINGS_PER_TRACK
            invariant
                slots@.len() == NOTES_SLOT_COUNT,
                string <= STRINGS_PER_TRACK,
                space_idx < space_count,
                forall|k: int| 0 <= k < notes@.len() ==> #[trigger] notes@[k].string < 8 && (notes@[k].is_muted ==> notes@[k].fret == 0),
            decreases STRINGS_PER_TRACK - string,
        {
            let note_val = slots[string];
            if note_val != 0 {
                let parsed: Option<(u8, bool, bool)> = if note_val == NOTE_MUTED {
                    Some((0, true, false))
                } else if note_val == NOTE_STOP {
                    Some((0, false, true))
                } else if note_val >= NOTE_FRET_FLAG {
                    Some((note_val - NOTE_FRET_FLAG, false, false))
                } else {
                    None
                };
                match parsed {
                    Some((fret, is_muted, is_stop)) => {
                        proof {
                            assert((space_idx as u64) * 20 <= 0xffff_ffff_ffff_ffffu64) by (nonlinear_arith)
                                requires
                                    space_idx < space_count,
                                    space_count <= 0xffff_ffffu32,
                            ;
                        }
                        let effect = TbtStringEffect::from_byte(slots[STRINGS_PER_TRACK + string]);
                        notes.push(TbtNote {
                            vsq_position: #[verifier::truncate] ((space_idx as u64 * SLOTS_PER_SPACE as u64) as u32),
                            string: string as u8,
                            fret,
                            is_muted,
                            is_stop,
                            effect,
                        });
                    },
                    None => {},
                }
            }
            string = string + 1;
        }
        space_idx = space_idx + 1;
    }
    Ok((rest, notes))
}

/// Reads the alternate time grid of a track: per space a denominator and a
/// numerator; spaces where both are 0 have none.
pub fn parse_alternate_time(input: &[u8], space_count: u32) -> (r: Result<(&[u8], Vec<TbtAlternateTime>), ParseFailure>)
    ensures
        r matches Ok((rest, times)) ==> is_rest_of(rest@, input@) && times@.len() <= space_count,
{
    let (rest, expanded) = decode_delta_list_chunks(input, ALT_TIME_SLOTS_PER_SPACE, space_count)?;
    let mut alt_times: Vec<TbtAlternateTime> = Vec::new();
    let mut space_idx: usize = 0;
    while space_idx < expanded.len()
        invariant
            expanded@.len() == space_count,
            forall|k: int| 0 <= k < space_count ==> #[trigger] expanded@[k]@.len() == ALT_TIME_SLOTS_PER_SPACE,
            space_idx <= expanded@.len(),
            alt_times@.len() <= space_idx,
        decreases expanded@.len() - space_idx,
    {
        let denominator = expanded[space_idx][0];
        let numerator = expanded[space_idx][1];
        if denominator != 0 || numerator != 0 {
            alt_times.push(TbtAlternateTime {
                dsq_position: #[verifier::truncate] ((space_idx as u64 * 2) as u32),
                denominator,
                numerator,
            });
        }
        space_idx = space_idx + 1;
    }
    Ok((rest, alt_times))
}

/// Reads the effect changes of a track: a byte length, then 8-byte entries of
/// space increment, effect kind, a reserved field and value; entries of an
/// unknown kind are dropped.
pub fn parse_track_effect_changes(input: &[u8]) -> (r: Result<(&[u8], Vec<TbtEffectChange>), ParseFailure>)
    ensures
        r matches Ok((rest, changes)) ==> is_rest_of(rest@, input@),
        input@.len() < 4 ==> r is Err,
{
    let (mut cur, byte_length) = parse_u32(input)?;
    let entry_count = byte_length / 8;
    let mut changes: Vec<TbtEffectChange> = Vec::new();
    let mut current_space: u32 = 0;
    let mut k: u32 = 0;
    while k < entry_count
        invariant
            is_rest_of(cur@, input@),
        decreases entry_count - k,
    {
        let (c1, space_inc) = parse_u16(cur)?;
        let (c2, effect_num) = parse_u16(c1)?;
        let (c3, _reserved) = parse_u16(c2)?;
        let (c4, value) = parse_u16(c3)?;
        proof {
            lemma_rest_trans(input@, cur@, c1@);
            lemma_rest_trans(input@, c1@, c2@);
            lemma_rest_trans(input@, c2@, c3@);
            lemma_rest_trans(input@, c3@, c4@);
        }
        current_space = current_space.wrapping_add(space_inc as u32);
        match TbtEffectChangeType::from_byte(#[verifier::truncate] (effect_num as u8)) {
            Some(effect_type) => {
                changes.push(TbtEffectChange { space: current_space, effect_type, value });
            },
            None => {},
        }
        cur = c4;
        k = k + 1;
    }
    Ok((cur, changes))
}

/// Spaces of a track: its own count from version 0x70 on when it has one,
/// else the song's.
pub fn get_track_space_count(header: &TbtHeader, metadata: &TbtMetadata, track_idx: u8) -> (r: u32)
    ensures
        (header.version == TbtVersion::V0x6f || track_idx >= metadata.tracks@.len() || metadata.tracks@[track_idx as int].space_count is None)
            ==> r == header.space_count,
        (header.version != TbtVersion::V0x6f && track_idx < metadata.tracks@.len()) ==> match metadata.tracks@[track_idx as int].space_count {
            Some(c) => r == c,
            None => r == header.space_count,
        },
{
    if header.version.has_space_count_per_track() && (track_idx as usize) < metadata.tracks.len() {
        match metadata.tracks[track_idx as usize].space_count {
            Some(c) => c,
            None => header.space_count as u32,
        }
    } else {
        header.space_count as u32
    }
}


/// Reads the inflated body: bar lines, then the notes of each track, its
/// alternate time regions (when the header's feature flag is set, else none)
/// and its effect changes (from version 0x71 on, else none).
pub fn parse_tbt_body(data: &[u8], header: &TbtHeader, metadata: &TbtMetadata) -> (r: Result<
    (Vec<TbtBarLine>, Vec<Vec<TbtNote>>, Vec<Vec<TbtAlternateTime>>, Vec<Vec<TbtEffectChange>>),
    RuxError,
>)
    ensures
        r matches Ok((_, notes, alts, changes)) ==> notes@.len() == header.track_count && alts@.len()
            == header.track_count && changes@.len() == header.track_count,
        r matches Ok((_, _, alts, _)) ==> (!header.features.has_alternate_time_regions ==> forall|k: int|
            0 <= k < alts@.len() ==> #[trigger] alts@[k]@.len() == 0),
        r matches Ok((_, _, _, changes)) ==> ((header.version == TbtVersion::V0x6f || header.version
            == TbtVersion::V0x70) ==> forall|k: int| 0 <= k < changes@.len() ==> #[trigger] changes@[k]@.len() == 0),
        data@.len() <= TBT_HEADER_SIZE + header.compressed_metadata_len ==> r is Err,
        r matches Err(e) ==> e is ParsingError,
{
    let body_start: u64 = TBT_HEADER_SIZE as u64 + header.compressed_metadata_len as u64;
    if data.len() as u64 <= body_start {
        return Err(RuxError::ParsingError(String::from_str("File too small for body section")));
    }
    let decompressed = decompress_zlib(&data[body_start as usize..data.len()])?;
    let mut input: &[u8] = decompressed.as_slice();
    let bar_lines = if header.version.has_space_count_per_track() {
        match parse_bar_lines_0x70(input, header.bar_count) {
            Ok((rest, bars)) => {
                input = rest;
                bars
            },
            Err(_) => {
                return Err(RuxError::ParsingError(String::from_str("Failed to parse bar lines")));
            },
        }
    } else {
        match parse_bar_lines_0x6f(input, header.space_count) {
            Ok((rest, bars)) => {
                input = rest;
                bars
            },
            Err(_) => {
                return Err(RuxError::ParsingError(String::from_str("Failed to parse bar lines")));
            },
        }
    };
    let mut track_notes: Vec<Vec<TbtNote>> = Vec::new();
    let mut i: u8 = 0;
    while i < header.track_count
        invariant
            track_notes@.len() == i,
            i <= header.track_count,
        decreases header.track_count - i,
    {
        let space_count = get_track_space_count(header, metadata, i);
        match parse_track_notes(input, space_count) {
            Ok((rest, notes)) => {
                input = rest;
                track_notes.push(notes);
            },
            Err(_) => {
                return Err(RuxError::ParsingError(String::from_str("Failed to parse track notes")));
            },
        }
        i = i + 1;
    }
    let mut alternate_times: Vec<Vec<TbtAlternateTime>> = Vec::new();
    let mut j: u8 = 0;
    while j < header.track_count
        invariant
            alternate_times@.len() == j,
            j <= header.track_count,
            !header.features.has_alternate_time_regions ==> forall|k: int|
                0 <= k < alternate_times@.len() ==> #[trigger] alternate_times@[k]@.len() == 0,
        decreases header.track_count - j,
    {
        if header.features.has_alternate_time_regions {
            let space_count = get_track_space_count(header, metadata, j);
            match parse_alternate_time(input, space_count) {
                Ok((rest, times)) => {
                    input = rest;
                    alternate_times.push(times);
                },
                Err(_) => {
                    return Err(RuxError::ParsingError(String::from_str("Failed to parse alternate time")));
                },
            }
        } else {
            alternate_times.push(Vec::new());
        }
        j = j + 1;
    }
    let mut track_effect_changes: Vec<Vec<TbtEffectChange>> = Vec::new();
    let mut k: u8 = 0;
    while k < header.track_count
        invariant
            track_effect_changes@.len() == k,
            k <= header.track_count,
            (header.version == TbtVersion::V0x6f || header.version == TbtVersion::V0x70) ==> forall|q: int|
                0 <= q < track_effect_changes@.len() ==> #[trigger] track_effect_changes@[q]@.len() == 0,
        decreases header.track_count - k,
    {
        if header.version.has_track_effect_changes_chunk() {
            match parse_track_effect_changes(input) {
                Ok((rest, changes)) => {
                    input = rest;
                    track_effect_changes.push(changes);
                },
                Err(_) => {
                    return Err(RuxError::ParsingError(String::from_str("Failed to parse effect changes")));
                },
            }
        } else {
            track_effect_changes.push(Vec::new());
        }
        k = k + 1;
    }
    Ok((bar_lines, track_notes, alternate_times, track_effect_changes))
}

/// Parses a whole TBT file: header, metadata and body.
pub fn parse_tbt_data(data: &[u8]) -> (r: Result<TbtSong, RuxError>)
    ensures
        r matches Ok(song) ==> song.metadata.tracks@.len() == song.header.track_count
            && song.track_notes@.len() == song.header.track_count && song.header.tempo1 == data@[4],
        data@.len() < TBT_HEADER_SIZE ==> r is Err,
        r matches Err(e) ==> e is ParsingError,
{
    let header = parse_tbt_header_only(data)?;
    let metadata = parse_tbt_metadata(data, &header)?;
    let (bar_lines, track_notes, alternate_times, track_effect_changes) = parse_tbt_body(data, &header, &metadata)?;
    Ok(TbtSong { header, metadata, bar_lines, track_notes, alternate_times, track_effect_changes })
}


/// The note effect of a TBT string effect.
pub fn convert_effect(tbt_effect: Option<TbtStringEffect>) -> (r: NoteEffect)
    ensures
        r.hammer == (tbt_effect == Some(TbtStringEffect::HammerOn) || tbt_effect == Some(TbtStringEffect::PullOff)),
        tbt_effect == Some(TbtStringEffect::SlideUp) ==> r.slide == Some(SlideType::ShiftSlideTo),
        tbt_effect == Some(TbtStringEffect::SlideDown) ==> r.slide == Some(SlideType::OutDownwards),
        (tbt_effect != Some(TbtStringEffect::SlideUp) && tbt_effect != Some(TbtStringEffect::SlideDown)) ==> r.slide is None,
        r.bend is Some <==> (tbt_effect == Some(TbtStringEffect::BendUp) || tbt_effect == Some(TbtStringEffect::Bend)
            || tbt_effect == Some(TbtStringEffect::ReleaseBend)),
        (tbt_effect == Some(TbtStringEffect::BendUp) || tbt_effect == Some(TbtStringEffect::Bend)) ==> (
        r.bend matches Some(b) && b.points@ == seq![
            (BendPoint { position: 0, value: 0 }),
            (BendPoint { position: 6, value: 1 }),
            (BendPoint { position: 12, value: 1 }),
        ]),
        tbt_effect == Some(TbtStringEffect::ReleaseBend) ==> (r.bend matches Some(b) && b.points@ == seq![
            (BendPoint { position: 0, value: 1 }),
            (BendPoint { position: 6, value: 0 }),
            (BendPoint { position: 12, value: 0 }),
        ]),
        r.vibrato == (tbt_effect == Some(TbtStringEffect::Vibrato)),
        r.harmonic is Some <==> tbt_effect == Some(TbtStringEffect::Harmonic),
        r.harmonic matches Some(h) ==> h.kind == HarmonicType::Natural && h.pitch is None && h.octave is None
            && h.right_hand_fret is None,
        r.tremolo_picking is Some <==> tbt_effect == Some(TbtStringEffect::Tremolo),
        r.tremolo_picking matches Some(t) ==> t.duration == (Duration { value: 16, ..Duration::spec_default() }),
        !r.accentuated_note && !r.heavy_accentuated_note && !r.let_ring && !r.palm_mute && !r.staccato
            && !r.fade_in,
        r.grace is None && r.trill is None && r.tremolo_bar is None,
        r.ghost_note == (tbt_effect == Some(TbtStringEffect::GhostNote)),
        r.slap == (if tbt_effect == Some(TbtStringEffect::Tap) {
            SlapEffect::Tapping
        } else if tbt_effect == Some(TbtStringEffect::Slap) {
            SlapEffect::Slapping
        } else {
            SlapEffect::NoSlap
        }),
        tbt_effect is None ==> r.is_plain(),
{
    let mut effect = NoteEffect::default();
    match tbt_effect {
        Some(e) => match e {
            TbtStringEffect::HammerOn | TbtStringEffect::PullOff => {
                effect.hammer = true;
            },
            TbtStringEffect::SlideUp => {
                effect.slide = Some(SlideType::ShiftSlideTo);
            },
            TbtStringEffect::SlideDown => {
                effect.slide = Some(SlideType::OutDownwards);
            },
            TbtStringEffect::BendUp | TbtStringEffect::Bend => {
                effect.bend = Some(BendEffect {
                    points: vec![
                        BendPoint { position: 0, value: 0 },
                        BendPoint { position: 6, value: 1 },
                        BendPoint { position: 12, value: 1 },
                    ],
                });
            },
            TbtStringEffect::ReleaseBend => {
                effect.bend = Some(BendEffect {
                    points: vec![
                        BendPoint { position: 0, value: 1 },
                        BendPoint { position: 6, value: 0 },
                        BendPoint { position: 12, value: 0 },
                    ],
                });
            },
            TbtStringEffect::Vibrato => {
                effect.vibrato = true;
            },
            TbtStringEffect::Harmonic => {
                effect.harmonic = Some(HarmonicEffect {
                    kind: HarmonicType::Natural,
                    pitch: None,
                    octave: None,
                    right_hand_fret: None,
                });
            },
            TbtStringEffect::Tremolo => {
                let mut d = Duration::default();
                d.value = 16;
                effect.tremolo_picking = Some(TremoloPickingEffect { duration: d });
            },
            TbtStringEffect::GhostNote => {
                effect.ghost_note = true;
            },
            TbtStringEffect::Tap => {
                effect.slap = SlapEffect::Tapping;
            },
            TbtStringEffect::Slap => {
                effect.slap = SlapEffect::Slapping;
            },
            TbtStringEffect::Whammy => {},
        },
        None => {},
    }
    effect
}

/// Standard tuning of string `i`, counted from the lowest, extended for seven
/// and eight strings; 40 past that.
pub open spec fn standard_tuning(i: int) -> int {
    if i == 0 {
        40
    } else if i == 1 {
        45
    } else if i == 2 {
        50
    } else if i == 3 {
        55
    } else if i == 4 {
        59
    } else if i == 5 {
        64
    } else if i == 6 {
        69
    } else if i == 7 {
        74
    } else {
        40
    }
}

fn standard_tuning_of(i: usize) -> (r: i32)
    ensures
        r == standard_tuning(i as int),
{
    if i == 0 {
        40
    } else if i == 1 {
        45
    } else if i == 2 {
        50
    } else if i == 3 {
        55
    } else if i == 4 {
        59
    } else if i == 5 {
        64
    } else if i == 6 {
        69
    } else if i == 7 {
        74
    } else {
        40
    }
}

/// A byte read as a signed offset.
pub open spec fn signed_byte(b: u8) -> int {
    if b >= 128 {
        b - 256
    } else {
        b as int
    }
}

/// Pitch of string `i` (from the lowest) of a track: standard tuning moved
/// by the stored signed offset (no offset past the eighth string).
pub open spec fn tuned_pitch(track: TbtTrack, i: int) -> int {
    standard_tuning(i) + (if i < 8 {
        signed_byte(track.tuning@[i])
    } else {
        0
    })
}

/// The strings of a track as (string number, pitch) pairs, string 1 (the
/// highest) first.
pub fn convert_tuning(tbt_track: &TbtTrack) -> (r: Vec<(i32, i32)>)
    ensures
        r@.len() == tbt_track.string_count,
        forall|k: int|
            0 <= k < r@.len() ==> #[trigger] r@[k].0 == k + 1 && r@[k].1 == tuned_pitch(*tbt_track, tbt_track.string_count - 1 - k),
{
    let string_count = tbt_track.string_count as usize;
    let mut strings: Vec<(i32, i32)> = Vec::new();
    let mut n: usize = 0;
    while n < string_count
        invariant
            string_count == tbt_track.string_count,
            n <= string_count,
            strings@.len() == n,
            forall|k: int|
                0 <= k < n ==> #[trigger] strings@[k].0 == k + 1 && strings@[k].1 == tuned_pitch(*tbt_track, string_count - 1 - k),
        decreases string_count - n,
    {
        let i = string_count - 1 - n;
        let base = standard_tuning_of(i);
        let offset: i32 = if i < 8 {
            let b = tbt_track.tuning[i];
            if b >= 128 {
                b as i32 - 256
            } else {
                b as i32
            }
        } else {
            0
        };
        proof {
            if i < 8 {
                assert(tbt_track.tuning[i as int] == tbt_track.tuning@[i as int]);
            }
            assert(base + offset == tuned_pitch(*tbt_track, i as int));
        }
        strings.push(((n + 1) as i32, base + offset));
        n = n + 1;
    }
    strings
}

/// Time signature of a measure of `spaces` sixteenths: the usual counts
/// 8 to 32 are quarters (2/4 to 8/4), other multiples of four are `spaces/4`
/// quarters, anything else 4/4.
pub open spec fn inferred_numerator(spaces: int) -> int {
    if spaces % 4 == 0 {
        spaces / 4
    } else {
        4
    }
}

pub fn infer_time_signature(spaces_in_measure: u16) -> (r: TimeSignature)
    ensures
        spaces_in_measure % 4 != 0 ==> r.numerator == 4,
        r.denominator == (Duration { value: 4, ..Duration::spec_default() }),
        spaces_in_measure <= 508 ==> r.numerator == inferred_numerator(spaces_in_measure as int),
{
    let quarters: u16 = spaces_in_measure / 4;
    let numerator: i8 = if spaces_in_measure % 4 == 0 {
        if quarters <= 127 {
            quarters as i8
        } else {
            let low: u16 = quarters % 256;
            if low >= 128 {
                (low as i16 - 256) as i8
            } else {
                low as i8
            }
        }
    } else {
        4
    };
    let mut denominator = Duration::default();
    denominator.value = 4;
    TimeSignature { numerator, denominator }
}

/// Note value and dot of a gap of `gap` spaces (sixteenths) to the next beat.
pub open spec fn duration_of_gap(gap: int) -> (int, bool) {
    if gap == 1 {
        (16, false)
    } else if gap == 2 {
        (8, false)
    } else if gap == 3 {
        (8, true)
    } else if gap == 4 {
        (4, false)
    } else if gap == 6 {
        (4, true)
    } else if gap == 8 {
        (2, false)
    } else if gap == 12 {
        (2, true)
    } else if gap == 16 {
        (1, false)
    } else if gap < 2 {
        (16, false)
    } else if gap < 3 {
        (8, false)
    } else if gap < 5 {
        (4, false)
    } else if gap < 10 {
        (2, false)
    } else {
        (1, false)
    }
}

/// Duration of a beat from its space to the next beat or the end of the
/// measure (the gap is taken in 16 bits).
pub fn calculate_duration(current_space: u32, next_space_or_measure_end: u32, _time_signature: &TimeSignature) -> (r: Duration)
    ensures
        ({
            let gap = (next_space_or_measure_end - current_space) % 65536;
            r.value == duration_of_gap(gap).0 && r.dotted == duration_of_gap(gap).1
        }) || next_space_or_measure_end < current_space,
        !r.double_dotted && r.tuplet_enters == 1 && r.tuplet_times == 1,
{
    let diff: u32 = if next_space_or_measure_end >= current_space {
        next_space_or_measure_end - current_space
    } else {
        next_space_or_measure_end.wrapping_sub(current_space)
    };
    let space_gap: u16 = (diff % 65536) as u16;
    let (value, dotted): (u16, bool) = if space_gap == 1 {
        (16, false)
    } else if space_gap == 2 {
        (8, false)
    } else if space_gap == 3 {
        (8, true)
    } else if space_gap == 4 {
        (4, false)
    } else if space_gap == 6 {
        (4, true)
    } else if space_gap == 8 {
        (2, false)
    } else if space_gap == 12 {
        (2, true)
    } else if space_gap == 16 {
        (1, false)
    } else if space_gap < 2 {
        (16, false)
    } else if space_gap < 3 {
        (8, false)
    } else if space_gap < 5 {
        (4, false)
    } else if space_gap < 10 {
        (2, false)
    } else {
        (1, false)
    };
    let mut d = Duration::default();
    d.value = value;
    d.dotted = dotted;
    d
}


/// The spaces of the groups rise strictly.
pub open spec fn groups_sorted(groups: Seq<(u32, Vec<TbtNote>)>) -> bool {
    forall|a: int, b: int| 0 <= a < b < groups.len() ==> groups[a].0 < groups[b].0
}

/// Each group holds only notes of its space.
pub open spec fn groups_of_space(groups: Seq<(u32, Vec<TbtNote>)>) -> bool {
    forall|g: int, j: int|
        0 <= g < groups.len() && 0 <= j < groups[g].1@.len() ==> #[trigger] groups[g].1@[j].vsq_position / 20
            == groups[g].0
}

/// The note lies in the group of its space.
pub open spec fn in_groups(groups: Seq<(u32, Vec<TbtNote>)>, note: TbtNote) -> bool {
    exists|g: int| 0 <= g < groups.len() && groups[g].0 == note.vsq_position / 20 && #[trigger] groups[g].1@.contains(note)
}

/// The notes grouped by the space they stand at, the spaces in rising order
/// and the notes of a space in their order in the list.
pub fn group_notes_by_space(notes: &[TbtNote]) -> (r: Vec<(u32, Vec<TbtNote>)>)
    ensures
        groups_sorted(r@),
        forall|g: int| 0 <= g < r@.len() ==> #[trigger] r@[g].1@.len() >= 1,
        groups_of_space(r@),
        forall|m: int| 0 <= m < notes@.len() ==> #[trigger] in_groups(r@, notes@[m]),
{
    let mut groups: Vec<(u32, Vec<TbtNote>)> = Vec::new();
    let mut n: usize = 0;
    while n < notes.len()
        invariant
            n <= notes@.len(),
            groups_sorted(groups@),
            forall|g: int| 0 <= g < groups@.len() ==> #[trigger] groups@[g].1@.len() >= 1,
            groups_of_space(groups@),
            forall|m: int| 0 <= m < n ==> #[trigger] in_groups(groups@, notes@[m]),
        decreases notes@.len() - n,
    {
        let note = notes[n];
        let space = note.vsq_position / 20;
        let mut k: usize = 0;
        let ghost g_start = groups@;
        while k < groups.len() && groups[k].0 < space
            invariant
                groups@ == g_start,
                k <= groups@.len(),
                forall|a: int| 0 <= a < k ==> groups@[a].0 < space,
            decreases groups@.len() - k,
        {
            k = k + 1;
        }
        let ghost before = groups@;
        if k < groups.len() && groups[k].0 == space {
            groups[k].1.push(note);
            proof {
                assert forall|a: int, b: int| 0 <= a < b < groups@.len() implies groups@[a].0 < groups@[b].0 by {
                    assert(groups@[a].0 == before[a].0);
                    assert(groups@[b].0 == before[b].0);
                }
                assert forall|g: int| 0 <= g < groups@.len() implies #[trigger] groups@[g].1@.len() >= 1 by {
                    if g != k {
                        assert(groups@[g] == before[g]);
                    }
                }
                assert forall|g: int, j: int|
                    0 <= g < groups@.len() && 0 <= j < groups@[g].1@.len() implies #[trigger] groups@[g].1@[j].vsq_position
                        / 20 == groups@[g].0 by {
                    if g != k {
                        assert(groups@[g] == before[g]);
                    } else if j < before[g].1@.len() {
                        assert(groups@[g].1@[j] == before[g].1@[j]);
                    }
                }
                assert forall|m: int| 0 <= m < n + 1 implies #[trigger] in_groups(groups@, notes@[m]) by {
                    if m == n {
                        assert(groups@[k as int].1@[groups@[k as int].1@.len() - 1] == note);
                        assert(groups@[k as int].1@.contains(note));
                    } else {
                        assert(in_groups(before, notes@[m]));
                        let g0 = choose|g: int| 0 <= g < before.len() && before[g].0 == notes@[m].vsq_position / 20
                            && #[trigger] before[g].1@.contains(notes@[m]);
                        let j0 = choose|j: int| 0 <= j < before[g0].1@.len() && before[g0].1@[j] == notes@[m];
                        if g0 != k {
                            assert(groups@[g0] == before[g0]);
                        } else {
                            assert(groups@[g0].1@[j0] == before[g0].1@[j0]);
                        }
                        assert(groups@[g0].1@.contains(notes@[m]));
                    }
                }
            }
        } else {
            let mut fresh: Vec<TbtNote> = Vec::new();
            fresh.push(note);
            groups.insert(k, (space, fresh));
            proof {
                assert forall|a: int, b: int| 0 <= a < b < groups@.len() implies groups@[a].0 < groups@[b].0 by {
                    if a < k && b < k {
                        assert(groups@[a] == before[a] && groups@[b] == before[b]);
                    } else if a < k && b == k {
                        assert(groups@[a] == before[a]);
                    } else if a < k {
                        assert(groups@[a] == before[a] && groups@[b] == before[b - 1]);
                    } else if a == k {
                        assert(groups@[b] == before[b - 1]);
                    } else {
                        assert(groups@[a] == before[a - 1] && groups@[b] == before[b - 1]);
                    }
                }
                assert forall|g: int| 0 <= g < groups@.len() implies #[trigger] groups@[g].1@.len() >= 1 by {
                    if g < k {
                        assert(groups@[g] == before[g]);
                    } else if g > k {
                        assert(groups@[g] == before[g - 1]);
                    }
                }
                assert forall|g: int, j: int|
                    0 <= g < groups@.len() && 0 <= j < groups@[g].1@.len() implies #[trigger] groups@[g].1@[j].vsq_position
                        / 20 == groups@[g].0 by {
                    if g < k {
                        assert(groups@[g] == before[g]);
                    } else if g > k {
                        assert(groups@[g] == before[g - 1]);
                    }
                }
                assert forall|m: int| 0 <= m < n + 1 implies #[trigger] in_groups(groups@, notes@[m]) by {
                    if m == n {
                        assert(groups@[k as int].1@[0] == note);
                        assert(groups@[k as int].1@.contains(note));
                    } else {
                        assert(in_groups(before, notes@[m]));
                        let g0 = choose|g: int| 0 <= g < before.len() && before[g].0 == notes@[m].vsq_position / 20
                            && #[trigger] before[g].1@.contains(notes@[m]);
                        if g0 < k {
                            assert(groups@[g0] == before[g0]);
                            assert(groups@[g0].1@.contains(notes@[m]));
                        } else {
                            assert(groups@[g0 + 1] == before[g0]);
                            assert(groups@[g0 + 1].1@.contains(notes@[m]));
                        }
                    }
                }
            }
        }
        n = n + 1;
    }
    groups
}

/// Decimal digits of `n`.
fn decimal_string(n: usize) -> (r: String)
    ensures
        r@.len() >= 1,
    decreases n,
{
    let digit = match n % 10 {
        0 => "0",
        1 => "1",
        2 => "2",
        3 => "3",
        4 => "4",
        5 => "5",
        6 => "6",
        7 => "7",
        8 => "8",
        _ => "9",
    };
    proof {
        reveal_strlit("0");
        reveal_strlit("1");
        reveal_strlit("2");
        reveal_strlit("3");
        reveal_strlit("4");
        reveal_strlit("5");
        reveal_strlit("6");
        reveal_strlit("7");
        reveal_strlit("8");
        reveal_strlit("9");
    }
    if n < 10 {
        String::from_str(digit)
    } else {
        let mut s = decimal_string(n / 10);
        s.append(digit);
        s
    }
}


/// The 64 channels of a converted song: default settings (channel 9
/// percussion), then the settings of each track on its channel (a channel
/// past 63 falls back to the track's index), copied to the track's own index
/// when that differs.
pub fn tbt_midi_channels(tbt: &TbtSong) -> (r: Vec<MidiChannel>)
    ensures
        r@.len() == 64,
{
    let mut midi_channels: Vec<MidiChannel> = Vec::new();
    let mut i: u8 = 0;
    while i < 64
        invariant
            i <= 64,
            midi_channels@.len() == i,
        decreases 64 - i,
    {
        midi_channels.push(MidiChannel {
            channel_id: i,
            effect_channel_id: 0,
            instrument: 25,
            volume: 100,
            balance: 64,
            chorus: 0,
            reverb: 0,
            phaser: 0,
            tremolo: 0,
            bank: if i == 9 {
                DEFAULT_PERCUSSION_BANK
            } else {
                DEFAULT_BANK
            },
        });
        i = i + 1;
    }
    let mut t: usize = 0;
    while t < tbt.metadata.tracks.len()
        invariant
            midi_channels@.len() == 64,
        decreases tbt.metadata.tracks@.len() - t,
    {
        let tbt_track = &tbt.metadata.tracks[t];
        let channel_id: usize = if (tbt_track.midi_channel as usize) < 64 {
            tbt_track.midi_channel as usize
        } else {
            t % 64
        };
        let mut ch = midi_channels[channel_id];
        ch.instrument = tbt_track.clean_guitar as i32;
        ch.volume = #[verifier::truncate] (tbt_track.volume as i8);
        ch.balance = #[verifier::truncate] (tbt_track.pan as i8);
        ch.chorus = #[verifier::truncate] (tbt_track.chorus as i8);
        ch.reverb = #[verifier::truncate] (tbt_track.reverb as i8);
        if tbt_track.is_drum {
            ch.bank = DEFAULT_PERCUSSION_BANK;
        }
        ch.effect_channel_id = if channel_id + 1 < 64 && !tbt_track.is_drum {
            (channel_id + 1) as u8
        } else {
            channel_id as u8
        };
        midi_channels.set(channel_id, ch);
        if channel_id != t && t < 64 {
            let mut copy = ch;
            copy.channel_id = t as u8;
            midi_channels.set(t, copy);
        }
        t = t + 1;
    }
    midi_channels
}

/// Measures as (start, end) spaces between the bar lines, a last one up to
/// the song's end, or the whole song as one measure when there is none.
pub fn measure_spaces_of(bar_lines: &Vec<TbtBarLine>, space_count: u16) -> (r: Vec<(u16, u16)>)
    ensures
        r@.len() >= 1,
        r@.len() <= bar_lines@.len() + 1,
        forall|k: int| 0 <= k < r@.len() ==> #[trigger] r@[k].0 <= r@[k].1,
{
    let mut spaces: Vec<(u16, u16)> = Vec::new();
    let mut prev_space: u16 = 0;
    let mut b: usize = 0;
    while b < bar_lines.len()
        invariant
            b <= bar_lines@.len(),
            spaces@.len() <= b,
            forall|k: int| 0 <= k < spaces@.len() ==> #[trigger] spaces@[k].0 <= spaces@[k].1,
        decreases bar_lines@.len() - b,
    {
        let bar = bar_lines[b];
        if bar.space > prev_space {
            spaces.push((prev_space, bar.space));
        }
        prev_space = bar.space;
        b = b + 1;
    }
    if prev_space < space_count {
        spaces.push((prev_space, space_count));
    }
    if spaces.len() == 0 {
        spaces.push((0, space_count));
    }
    spaces
}

/// The first bar line at `space`, if any.
fn bar_at(bar_lines: &Vec<TbtBarLine>, space: u16) -> (r: Option<TbtBarLine>)
    ensures
        r matches Some(b) ==> b.space == space,
{
    let mut b: usize = 0;
    while b < bar_lines.len()
        decreases bar_lines@.len() - b,
    {
        if bar_lines[b].space == space {
            return Some(bar_lines[b]);
        }
        b = b + 1;
    }
    None
}


/// One header per measure: the time signature inferred from its spaces, the
/// secondary tempo, a repeat opening where an opening repeat bar starts it
/// (the first measure opens one when no bar line starts it), a repeat close
/// where a closing repeat bar ends it; each starts where the one before ends.
pub fn measure_headers_of(tbt: &TbtSong, measure_spaces: &Vec<(u16, u16)>) -> (r: Vec<MeasureHeader>)
    requires
        measure_spaces@.len() <= 65536,
    ensures
        r@.len() == measure_spaces@.len(),
        r@.len() > 0 ==> r@[0].start == QUARTER_TIME,
        forall|k: int|
            0 <= k < r@.len() - 1 ==> #[trigger] r@[k + 1].start == r@[k].start + r@[k].spec_length(),
        forall|k: int| 0 <= k < r@.len() ==> #[trigger] r@[k].time_signature.denominator.wf(),
{
    let mut headers: Vec<MeasureHeader> = Vec::new();
    let mut current_tick: i64 = QUARTER_TIME;
    let mut i: usize = 0;
    while i < measure_spaces.len()
        invariant
            i <= measure_spaces@.len(),
            measure_spaces@.len() <= 65536,
            headers@.len() == i,
            QUARTER_TIME - 122880 * i <= current_tick <= QUARTER_TIME + 122880 * i,
            i == 0 ==> current_tick == QUARTER_TIME,
            i > 0 ==> headers@[0].start == QUARTER_TIME,
            i > 0 ==> current_tick == headers@[i - 1].start + headers@[i - 1].spec_length(),
            forall|k: int| 0 <= k < headers@.len() - 1 ==> #[trigger] headers@[k + 1].start == headers@[k].start
                + headers@[k].spec_length(),
            forall|k: int| 0 <= k < headers@.len() ==> #[trigger] headers@[k].time_signature.denominator.wf(),
        decreases measure_spaces@.len() - i,
    {
        let (start_space, end_space) = measure_spaces[i];
        let spaces_in_measure: u16 = if end_space >= start_space {
            end_space - start_space
        } else {
            0
        };
        let time_signature = infer_time_signature(spaces_in_measure);
        let repeat_open = match bar_at(&tbt.bar_lines, start_space) {
            Some(b) => b.bar_type == TbtBarType::OpenRepeat || b.bar_type == TbtBarType::OpenCloseRepeat,
            None => i == 0,
        };
        let repeat_close: i8 = match bar_at(&tbt.bar_lines, end_space) {
            Some(b) => if b.bar_type == TbtBarType::CloseRepeat || b.bar_type == TbtBarType::OpenCloseRepeat {
                let count: u8 = if b.repeat_count < 1 {
                    1
                } else {
                    b.repeat_count
                };
                #[verifier::truncate] (count as i8)
            } else {
                0
            },
            None => 0,
        };
        let header = MeasureHeader {
            start: current_tick,
            time_signature,
            tempo: Tempo::new(tbt.header.tempo2 as i32, None),
            marker: None,
            repeat_open,
            repeat_alternative: 0,
            repeat_close,
            triplet_feel: TripletFeel::NoFeel,
            key_signature: KeySignature::new(0, false),
        };
        let length = header.length();
        proof {
            let d = header.time_signature.denominator;
            assert(d == (Duration { value: 4, ..Duration::spec_default() }));
            assert(d.dot_num() == 1 && d.dot_den() == 1 && d.tuplet_times == 1 && d.tuplet_enters == 1);
            assert(4 * QUARTER_TIME * d.dot_num() * d.tuplet_times == 3840);
            assert(d.value * d.dot_den() * d.tuplet_enters == 4);
            assert(3840int / 4int == 960) by (nonlinear_arith);
            assert(d.spec_time() == 3840int / 4int);
            assert(-122880 <= length <= 122880) by (nonlinear_arith)
                requires
                    length == header.time_signature.numerator * 960,
                    -128 <= header.time_signature.numerator <= 127,
            ;
        }
        current_tick = current_tick + length;
        headers.push(header);
        i = i + 1;
    }
    headers
}

/// The measures of a converted track: one beat per space that holds notes,
/// lasting until the next such space or the end of the measure, or one empty
/// beat for a measure without notes. Stops and notes on strings the track does
/// not have are dropped; a muted note is a dead note.
pub fn tbt_track_measures(
    track_idx: usize,
    string_count: usize,
    groups: &Vec<(u32, Vec<TbtNote>)>,
    measure_spaces: &Vec<(u16, u16)>,
    measure_headers: &Vec<MeasureHeader>,
) -> (r: Vec<Measure>)
    requires
        measure_spaces@.len() == measure_headers@.len(),
        string_count <= 255,
    ensures
        r@.len() == measure_spaces@.len(),
        forall|m: int|
            0 <= m < r@.len() ==> #[trigger] r@[m].track_index == track_idx && r@[m].header_index == m
                && r@[m].voices@.len() == 1,
{
    let mut measures: Vec<Measure> = Vec::new();
    let mut m: usize = 0;
    while m < measure_spaces.len()
        invariant
            measure_spaces@.len() == measure_headers@.len(),
            m <= measure_spaces@.len(),
            measures@.len() == m,
            string_count <= 255,
            forall|k: int|
                0 <= k < m ==> #[trigger] measures@[k].track_index == track_idx && measures@[k].header_index == k
                    && measures@[k].voices@.len() == 1,
        decreases measure_spaces@.len() - m,
    {
        let (start_space, end_space) = measure_spaces[m];
        let header = &measure_headers[m];
        let mut beats: Vec<Beat> = Vec::new();
        let mut g: usize = 0;
        while g < groups.len()
            invariant
                string_count <= 255,
            decreases groups@.len() - g,
        {
            let space = groups[g].0;
            if start_space as u32 <= space && space < end_space as u32 {
                let next_space: u32 = if g + 1 < groups.len() && groups[g + 1].0 < end_space as u32 {
                    groups[g + 1].0
                } else {
                    end_space as u32
                };
                let relative: i64 = (space - start_space as u32) as i64;
                let beat_start: i64 = if header.start > i64::MAX - relative * 240 {
                    i64::MAX
                } else {
                    header.start + relative * 240
                };
                let duration = calculate_duration(space, next_space, &header.time_signature);
                let mut gp_notes: Vec<Note> = Vec::new();
                let tbt_notes = &groups[g].1;
                let mut n: usize = 0;
                while n < tbt_notes.len()
                    invariant
                        string_count <= 255,
                    decreases tbt_notes@.len() - n,
                {
                    let tbt_note = tbt_notes[n];
                    if !tbt_note.is_stop && (tbt_note.string as usize) < string_count {
                        let string_num: usize = string_count - tbt_note.string as usize;
                        let mut note = Note::new(convert_effect(tbt_note.effect));
                        note.value = tbt_note.fret as i16;
                        note.string = #[verifier::truncate] (string_num as i8);
                        note.kind = if tbt_note.is_muted {
                            NoteType::Dead
                        } else {
                            NoteType::Normal
                        };
                        gp_notes.push(note);
                    }
                    n = n + 1;
                }
                beats.push(Beat {
                    notes: gp_notes,
                    duration,
                    empty: false,
                    text: String::new(),
                    start: beat_start,
                    effect: BeatEffects { stroke: BeatStroke::default(), chord: None },
                });
            }
            g = g + 1;
        }
        if beats.len() == 0 {
            beats.push(Beat {
                notes: Vec::new(),
                duration: header.time_signature.denominator,
                empty: true,
                text: String::new(),
                start: header.start,
                effect: BeatEffects { stroke: BeatStroke::default(), chord: None },
            });
        }
        let mut voices: Vec<Voice> = Vec::new();
        voices.push(Voice { measure_index: #[verifier::truncate] (m as i16), beats });
        measures.push(Measure {
            key_signature: header.key_signature,
            time_signature: header.time_signature,
            track_index: track_idx,
            header_index: m,
            voices,
        });
        m = m + 1;
    }
    measures
}

/// A converted measure sits at track `t` and header `m` and has one voice.
pub open spec fn tbt_measure_ok(measure: Measure, t: int, m: int) -> bool {
    measure.track_index == t && measure.header_index == m && measure.voices@.len() == 1
}

/// Converts a TBT file into a song: channels, measure headers from the bar
/// lines, and one track per track of the file with a measure per header.
/// Durations are estimated from the gaps between notes.
pub fn tbt_to_song(tbt: &TbtSong) -> (r: Result<Song, RuxError>)
    requires
        tbt.bar_lines@.len() <= u16::MAX,
    ensures
        r matches Ok(song) ==> song.midi_channels@.len() == 64 && song.tracks@.len()
            == tbt.metadata.tracks@.len() && song.measure_headers@.len() >= 1 && forall|t: int|
            0 <= t < song.tracks@.len() ==> #[trigger] song.tracks@[t].measures@.len()
                == song.measure_headers@.len(),
        r matches Ok(song) ==> song.measure_headers@[0].start == QUARTER_TIME && forall|k: int|
            0 <= k < song.measure_headers@.len() - 1 ==> #[trigger] song.measure_headers@[k + 1].start
                == song.measure_headers@[k].start + song.measure_headers@[k].spec_length(),
        r matches Ok(song) ==> forall|t: int, m: int|
            0 <= t < song.tracks@.len() && 0 <= m < song.measure_headers@.len() ==> #[trigger] tbt_measure_ok(
                song.tracks@[t].measures@[m],
                t,
                m,
            ),
        r is Ok,
{
    let midi_channels = tbt_midi_channels(tbt);
    let measure_spaces = measure_spaces_of(&tbt.bar_lines, tbt.header.space_count);
    let measure_headers = measure_headers_of(tbt, &measure_spaces);
    let mut tracks: Vec<Track> = Vec::new();
    let mut t: usize = 0;
    while t < tbt.metadata.tracks.len()
        invariant
            t <= tbt.metadata.tracks@.len(),
            tracks@.len() == t,
            measure_headers@.len() == measure_spaces@.len(),
            forall|k: int| 0 <= k < t ==> #[trigger] tracks@[k].measures@.len() == measure_headers@.len(),
            forall|k: int, m: int|
                0 <= k < t && 0 <= m < measure_headers@.len() ==> #[trigger] tbt_measure_ok(
                    tracks@[k].measures@[m],
                    k,
                    m,
                ),
        decreases tbt.metadata.tracks@.len() - t,
    {
        let tbt_track = &tbt.metadata.tracks[t];
        let strings = convert_tuning(tbt_track);
        let empty: Vec<TbtNote> = Vec::new();
        let track_notes: &[TbtNote] = if t < tbt.track_notes.len() {
            tbt.track_notes[t].as_slice()
        } else {
            empty.as_slice()
        };
        let groups = group_notes_by_space(track_notes);
        let measures = tbt_track_measures(t, strings.len(), &groups, &measure_spaces, &measure_headers);
        let ghost new_measures = measures@;
        let mut name = String::from_str("Track ");
        let number = decimal_string(if t < usize::MAX { t + 1 } else { t });
        name.append(number.as_str());
        let channel_id: u8 = if tbt_track.midi_channel < 64 {
            tbt_track.midi_channel
        } else {
            (t % 64) as u8
        };
        tracks.push(Track {
            number: #[verifier::truncate] ((t + 1) as i32),
            offset: 0,
            channel_id,
            solo: false,
            mute: false,
            visible: true,
            name,
            strings,
            color: 0x00FF_0000,
            midi_port: 0,
            fret_count: 24,
            measures,
        });
        proof {
            assert forall|k: int, m: int|
                0 <= k < t + 1 && 0 <= m < measure_headers@.len() implies #[trigger] tbt_measure_ok(
                    tracks@[k].measures@[m],
                    k,
                    m,
                ) by {
                if k == t {
                    assert(tracks@[k].measures@ == new_measures);
                    assert(new_measures[m].track_index == t);
                }
            }
        }
        t = t + 1;
    }
    let info = &tbt.metadata.song_info;
    let song_info = SongInfo {
        name: info.title.clone(),
        subtitle: String::new(),
        artist: info.artist.clone(),
        album: info.album.clone(),
        author: info.transcribed_by.clone(),
        words: None,
        copyright: String::new(),
        writer: String::new(),
        instructions: info.comment.clone(),
        notices: Vec::new(),
    };
    Ok(Song {
        version: GpVersion::GP5,
        song_info,
        triplet_feel: None,
        lyrics: None,
        page_setup: None,
        tempo: Tempo::new(tbt.header.tempo2 as i32, None),
        hide_tempo: None,
        key_signature: 0,
        octave: None,
        midi_channels,
        measure_headers,
        tracks,
    })
}

} // verus!

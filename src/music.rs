//! Decoding of the music data of a Guitar Pro file: measure headers, tracks,
//! and the measure grid, measure by measure and track by track.
use vstd::prelude::*;
use crate::bytes::{
    is_rest_of, lemma_rest_drop, lemma_rest_refl, lemma_rest_trans, parse_byte,
    parse_byte_size_string, parse_int, parse_int_byte_sized_string, parse_signed_byte, skip,
    ParseFailure,
};
use crate::gp::{parse_beat_effects, parse_chord, parse_color, parse_duration, parse_measure_headers, parse_note_effects};
use crate::song::{
    convert_velocity, Beat, BeatEffects, BeatStroke, GpVersion, Measure, Note, NoteEffect,
    NoteType, Song, Track, Voice, QUARTER_TIME,
};

verus! {

/// The 32-bit integer at offset `off`.
fn int_at(i: &[u8], off: usize) -> (r: i32)
    requires
        off + 4 <= i@.len(),
    ensures
        r == crate::bytes::le_i32(i@.subrange(off as int, i@.len() as int)),
{
    match parse_int(&i[off..i.len()]) {
        Ok((_, v)) => v,
        Err(_) => 0,
    }
}

/// `a + b`, saturated at the bounds of `i64`.
fn add_ticks(a: i64, b: i64) -> (r: i64)
    requires
        b >= 0,
    ensures
        r >= a,
{
    if a > i64::MAX - b {
        i64::MAX
    } else {
        a + b
    }
}

/// The bit of a string in the string bit set of a beat: string 1 is bit 6,
/// string 7 bit 0.
fn string_bit(string_number: i32) -> (r: u8)
    requires
        1 <= string_number <= 7,
{
    if string_number == 1 {
        0x40
    } else if string_number == 2 {
        0x20
    } else if string_number == 3 {
        0x10
    } else if string_number == 4 {
        0x08
    } else if string_number == 5 {
        0x04
    } else if string_number == 6 {
        0x02
    } else {
        0x01
    }
}

/// A beat at `start` with a quarter note duration, no notes and no effect.
fn new_beat(start: i64) -> (r: Beat)
    ensures
        r.start == start,
        r.notes@.len() == 0,
        !r.empty,
{
    Beat {
        notes: Vec::new(),
        duration: crate::song::Duration::default(),
        empty: false,
        text: String::new(),
        start,
        effect: BeatEffects { stroke: BeatStroke::default(), chord: None },
    }
}

/// Builds a song tree from the music data, on top of a song whose header
/// fields and channel table are already read.
pub struct MusicParser {
    song: Song,
}

impl MusicParser {
    pub closed spec fn spec_song(&self) -> Song {
        self.song
    }

    pub fn new(song: Song) -> (r: Self)
        ensures
            r.spec_song() == song,
    {
        MusicParser { song }
    }

    /// Hands the song out, leaving an empty one behind.
    pub fn take_song(&mut self) -> (r: Song)
        ensures
            r == old(self).spec_song(),
            final(self).spec_song().tracks@.len() == 0,
    {
        let mut other = Song {
            version: GpVersion::GP3,
            song_info: crate::song::SongInfo::empty(),
            triplet_feel: None,
            lyrics: None,
            page_setup: None,
            tempo: crate::song::Tempo::default(),
            hide_tempo: None,
            key_signature: 0,
            octave: None,
            midi_channels: Vec::new(),
            measure_headers: Vec::new(),
            tracks: Vec::new(),
        };
        core::mem::swap(&mut self.song, &mut other);
        other
    }

    /// Reads the measure and track counts, the measure headers, the tracks
    /// and the measure grid. A measure count below 1 or a negative track count
    /// is malformed.
    pub fn parse_music_data<'a>(&mut self, i: &'a [u8]) -> (r: Result<&'a [u8], ParseFailure>)
        requires
            old(self).spec_song().tracks@.len() == 0,
        ensures
            r matches Ok(rest) ==> is_rest_of(rest@, i@),
            r is Ok ==> final(self).spec_song().well_structured(),
            final(self).spec_song().version == old(self).spec_song().version,
            channels_kept(old(self).spec_song().midi_channels@, final(self).spec_song().midi_channels@),
    {
        let version = self.song.version;
        let mut cur = i;
        proof { lemma_rest_refl(i@); }
        if version.at_least(GpVersion::GP5) {
            cur = skip(i, 42);
        }
        let (c1, measure_count) = parse_int(cur)?;
        let (c2, track_count) = parse_int(c1)?;
        proof {
            lemma_rest_trans(i@, cur@, c1@);
            lemma_rest_trans(i@, c1@, c2@);
        }
        if measure_count < 1 || track_count < 0 {
            return Err(ParseFailure::Malformed);
        }
        let song_tempo = self.song.tempo.value;
        let (c3, headers) = parse_measure_headers(c2, measure_count, song_tempo, version)?;
        proof { lemma_rest_trans(i@, c2@, c3@); }
        self.song.measure_headers = headers;
        let (c4, tracks) = self.parse_tracks(c3, track_count as usize)?;
        proof { lemma_rest_trans(i@, c3@, c4@); }
        self.song.tracks = tracks;
        let c5 = self.parse_measures(c4, measure_count, track_count)?;
        proof { lemma_rest_trans(i@, c4@, c5@); }
        Ok(c5)
    }

    /// Reads `tracks_count` tracks, numbered from 1.
    pub fn parse_tracks<'a>(&mut self, i: &'a [u8], tracks_count: usize) -> (r: Result<(&'a [u8], Vec<Track>), ParseFailure>)
        requires
            tracks_count <= i32::MAX,
        ensures
            r matches Ok((rest, tracks)) ==> is_rest_of(rest@, i@) && tracks@.len() == tracks_count
                && forall|t: int| 0 <= t < tracks@.len() ==> tracks@[t].measures@.len() == 0,
            final(self).spec_song().version == old(self).spec_song().version,
            channels_kept(old(self).spec_song().midi_channels@, final(self).spec_song().midi_channels@),
            final(self).spec_song().tracks == old(self).spec_song().tracks,
            final(self).spec_song().measure_headers == old(self).spec_song().measure_headers,
    {
        let mut cur = i;
        proof { lemma_rest_refl(i@); }
        let mut tracks: Vec<Track> = Vec::new();
        let mut index: usize = 1;
        while index <= tracks_count
            invariant
                1 <= index,
                index <= tracks_count + 1,
                tracks_count <= i32::MAX,
                tracks@.len() == index - 1,
                forall|t: int| 0 <= t < tracks@.len() ==> tracks@[t].measures@.len() == 0,
                is_rest_of(cur@, i@),
                self.song.version == old(self).song.version,
                channels_kept(old(self).song.midi_channels@, self.song.midi_channels@),
                self.song.tracks == old(self).song.tracks,
                self.song.measure_headers == old(self).song.measure_headers,
            decreases tracks_count + 1 - index,
        {
            let (c, track) = self.parse_track(cur, index)?;
            proof { lemma_rest_trans(i@, cur@, c@); }
            tracks.push(track);
            cur = c;
            index = index + 1;
        }
        if self.song.version == GpVersion::GP5 {
            let c = skip(cur, 2);
            proof { lemma_rest_trans(i@, cur@, c@); }
            cur = c;
        }
        if self.song.version == GpVersion::GP5_10 {
            let c = skip(cur, 1);
            proof { lemma_rest_trans(i@, cur@, c@); }
            cur = c;
        }
        Ok((cur, tracks))
    }

    /// Reads a track: name, strings and their tuning (string 1 first), MIDI
    /// port and channel, fret count, transposition and color. A track without
    /// strings is malformed.
    #[verifier::rlimit(100)]
    pub fn parse_track<'a>(&mut self, i: &'a [u8], number: usize) -> (r: Result<(&'a [u8], Track), ParseFailure>)
        ensures
            r matches Ok((rest, track)) ==> is_rest_of(rest@, i@) && track.measures@.len() == 0
                && track.strings@.len() >= 1 && track.strings@.len() <= 7 && forall|k: int|
                0 <= k < track.strings@.len() ==> track.strings@[k].0 == k + 1,
            r is Ok <==> track_ok_for(i@, old(self).spec_song().version, number),
            r matches Ok((_, track)) ==> track_read(
                track,
                i@,
                track_start(old(self).spec_song().version, number),
            ),
            final(self).spec_song().version == old(self).spec_song().version,
            channels_kept(old(self).spec_song().midi_channels@, final(self).spec_song().midi_channels@),
            final(self).spec_song().tracks == old(self).spec_song().tracks,
            final(self).spec_song().measure_headers == old(self).spec_song().measure_headers,
    {
        let version = self.song.version;
        let p0: usize = if version.at_least(GpVersion::GP5) && (number == 1 || version == GpVersion::GP5) {
            2
        } else {
            1
        };
        let (c7, track) = self.read_track_body(i, p0, number)?;
        let ghost p1 = p0 + 41;
        let rest = parse_track_tail(c7, version)?;
        proof {
            lemma_rest_trans(i@, c7@, rest@);
            if version == GpVersion::GP5_10 && c7@.len() >= 49 {
                let q = p0 + 97 + 49;
                assert(c7@.subrange(49, c7@.len() as int) =~= i@.subrange(q, i@.len() as int));
                let sub = i@.subrange(q, i@.len() as int);
                if ibs_len(sub) is Some {
                    assert(c7@.subrange(49 + ibs_len(sub)->0, c7@.len() as int) =~= i@.subrange(
                        q + ibs_len(sub)->0,
                        i@.len() as int,
                    ));
                }
            }
        }
        proof {
            assert(track_start(old(self).song.version, number) == p0);
        }
        Ok((rest, track))
    }

    /// The fields of a track up to its color, with its name field at `p0`.
    #[verifier::rlimit(100)]
    fn read_track_body<'a>(&mut self, i: &'a [u8], p0: usize, number: usize) -> (r: Result<(&'a [u8], Track), ParseFailure>)
        requires
            p0 == 1 || p0 == 2,
        ensures
            r is Ok <==> track_ok(i@, p0 as int),
            r matches Ok((rest, track)) ==> rest@ == i@.subrange(p0 + 97, i@.len() as int) && track_read(
                track,
                i@,
                p0 as int,
            ) && track.measures@.len() == 0 && track.strings@.len() >= 1 && track.strings@.len() <= 7
                && forall|k: int| 0 <= k < track.strings@.len() ==> track.strings@[k].0 == k + 1,
            final(self).spec_song().version == old(self).spec_song().version,
            channels_kept(old(self).spec_song().midi_channels@, final(self).spec_song().midi_channels@),
            final(self).spec_song().tracks == old(self).spec_song().tracks,
            final(self).spec_song().measure_headers == old(self).spec_song().measure_headers,
    {
        if i.len() < p0 + 97 {
            return Err(ParseFailure::Incomplete);
        }
        let p1 = p0 + 41;
        let mut track = Track::default();
        track.number = #[verifier::truncate] (number as i32);
        let (_, name) = parse_byte_size_string(&i[p0..i.len()], 40)?;
        proof {
            assert(i@.subrange(p0 as int, i@.len() as int)[0] == i@[p0 as int]);
            assert(i@.subrange(p0 as int, i@.len() as int).subrange(
                1,
                1 + (if i@[p0 as int] > 40 { 40 } else { i@[p0 as int] as int }),
            ) =~= i@.subrange(p0 + 1, p0 + 1 + (if i@[p0 as int] > 40 { 40 } else { i@[p0 as int] as int })));
        }
        track.name = name;
        let ghost name_view = track.name@;
        let string_count = int_at(i, p1);
        if string_count <= 0 {
            return Err(ParseFailure::Malformed);
        }
        let strings = read_tunings(i, p1, string_count);
        track.strings = strings;
        let port = int_at(i, p1 + 32);
        let (_, channel_id) = self.parse_track_channel(&i[p1 + 36..i.len()])?;
        let fret_count = int_at(i, p1 + 44);
        let offset = int_at(i, p1 + 48);
        let (c7, color) = parse_color(&i[p1 + 52..i.len()])?;
        proof {
            crate::bytes::lemma_rest_drop(i@, p1 + 56);
            assert(c7@ =~= i@.subrange(p1 + 56, i@.len() as int));
        }
        proof {
            assert(track.name@ == name_view);
            assert(i@.subrange((p1 + 36) as int, i@.len() as int) =~= i@.subrange(p0 + 77, i@.len() as int));
        }
        track.midi_port = #[verifier::truncate] (port as u8);
        track.channel_id = #[verifier::truncate] (channel_id as u8);
        track.fret_count = #[verifier::truncate] (fret_count as u8);
        track.offset = offset;
        track.color = color;
        proof {
            assert(track.offset == crate::bytes::le_i32(i@.subrange(p1 + 48, i@.len() as int)));
            assert forall|j: int| 0 <= j < track.strings@.len() implies #[trigger] track.strings@[j].1
                == crate::bytes::le_i32(i@.subrange(p1 + 4 + 4 * j, i@.len() as int)) by {
                assert(track.strings@[j].0 == j + 1);
            }
        }
        Ok((c7, track))
    }

    /// Reads the channel pair of a track (stored from 1) and returns the
    /// channel's index; the second channel becomes the effect channel of the
    /// first unless that is the percussion channel.
    pub fn parse_track_channel<'a>(&mut self, i: &'a [u8]) -> (r: Result<(&'a [u8], i32), ParseFailure>)
        ensures
            r matches Ok((rest, c)) ==> rest@ == i@.subrange(8, i@.len() as int) && c == crate::bytes::le_i32(i@) - 1,
            i@.len() < 8 ==> r is Err,
            i@.len() >= 8 ==> (r is Ok <==> crate::bytes::le_i32(i@) != i32::MIN),
            final(self).spec_song().version == old(self).spec_song().version,
            channels_kept(old(self).spec_song().midi_channels@, final(self).spec_song().midi_channels@),
            final(self).spec_song().tracks == old(self).spec_song().tracks,
            final(self).spec_song().measure_headers == old(self).spec_song().measure_headers,
    {
        if i.len() < 8 {
            return Err(ParseFailure::Incomplete);
        }
        let (i1, gm_channel_1) = parse_int(i)?;
        let (i2, gm_channel_2) = parse_int(i1)?;
        proof { assert(i2@ =~= i@.subrange(8, i@.len() as int)); }
        if gm_channel_1 == i32::MIN {
            return Err(ParseFailure::Malformed);
        }
        let first: i64 = gm_channel_1 as i64 - 1;
        let second: i64 = gm_channel_2 as i64 - 1;
        if 0 <= first && (first as usize) < self.song.midi_channels.len() {
            let k = first as usize;
            if self.song.midi_channels[k].channel_id != 9 {
                let mut channel = self.song.midi_channels[k];
                channel.effect_channel_id = #[verifier::truncate] (second as u8);
                self.song.midi_channels.set(k, channel);
            }
        }
        Ok((i2, #[verifier::truncate] (first as i32)))
    }
}


/// The channel table keeps its size and each channel its id, bank and
/// instrument (only effect channels change while tracks are read).
pub open spec fn channels_kept(a: Seq<crate::song::MidiChannel>, b: Seq<crate::song::MidiChannel>) -> bool {
    &&& b.len() == a.len()
    &&& forall|k: int|
        0 <= k < a.len() ==> #[trigger] b[k].channel_id == a[k].channel_id && b[k].bank == a[k].bank
            && b[k].instrument == a[k].instrument
}

/// Offset of the tempo in a mix table change.
pub open spec fn mix_tempo_at(i: Seq<u8>, gp5: bool) -> int {
    if gp5 {
        28 + crate::bytes::int_byte_text_len(i.subrange(23, i.len() as int))->0
    } else {
        7
    }
}

/// The front of `i` holds a mix table change up to its tempo.
pub open spec fn mix_ok(i: Seq<u8>, gp5: bool) -> bool {
    &&& i.len() >= (if gp5 { 23int } else { 7 })
    &&& (gp5 ==> {
        let sub = i.subrange(23, i.len() as int);
        &&& sub.len() >= 5
        &&& crate::bytes::int_byte_text_len(sub) is Some
        &&& 0 <= crate::bytes::int_byte_text_len(sub)->0 <= sub.len() - 5
    })
    &&& mix_tempo_at(i, gp5) + 4 <= i.len()
}

/// 1 when the stored byte is not negative.
pub open spec fn set_byte(b: u8) -> int {
    if b < 128 {
        1
    } else {
        0
    }
}

/// Bytes skipped after the tempo of a mix table change: one per setting
/// that is not negative, the tempo's transition when the tempo is not
/// negative (two bytes for GP5.10), and one or two more.
pub open spec fn mix_skips(i: Seq<u8>, gp5: bool, v5_10: bool) -> int {
    let o: int = if gp5 { 23 } else { 7 };
    set_byte(i[o - 6]) + set_byte(i[o - 5]) + set_byte(i[o - 4]) + set_byte(i[o - 3]) + set_byte(i[o - 2])
        + set_byte(i[o - 1]) + (if mix_tempo(i, gp5) >= 0 {
        if v5_10 {
            2int
        } else {
            1
        }
    } else {
        0
    }) + 1 + (if gp5 {
        1int
    } else {
        0
    })
}

/// The front of `i` holds a whole GP5.10 mix table change: its tempo part,
/// the skipped bytes, and two strings.
pub open spec fn mix_ok_5_10(i: Seq<u8>) -> bool {
    let t = mix_tempo_at(i, true) + 4 + mix_skips(i, true, true);
    &&& mix_ok(i, true)
    &&& i.len() >= t
    &&& ibs_len(i.subrange(t, i.len() as int)) is Some
    &&& ibs_len(i.subrange(t + ibs_len(i.subrange(t, i.len() as int))->0, i.len() as int)) is Some
}

/// Skips `n` bytes, then for GP5.10 reads two strings.
fn skip_then_strings(c: &[u8], n: usize, strings: bool) -> (r: Result<&[u8], ParseFailure>)
    requires
        n >= 1,
    ensures
        r matches Ok(rest) ==> is_rest_of(rest@, c@),
        !strings ==> r is Ok,
        strings ==> (r is Ok <==> (c@.len() >= n && ibs_len(c@.subrange(n as int, c@.len() as int)) is Some
            && ibs_len(c@.subrange(n + ibs_len(c@.subrange(n as int, c@.len() as int))->0, c@.len() as int)) is Some)),
{
    let rest = skip(c, n);
    if !strings {
        return Ok(rest);
    }
    proof {
        if c@.len() >= n {
            assert(rest@ =~= c@.subrange(n as int, c@.len() as int));
        } else {
            assert(rest@.len() == 0);
        }
    }
    let (r1, _) = parse_int_byte_sized_string(rest)?;
    proof {
        assert(r1@ =~= c@.subrange(n + ibs_len(c@.subrange(n as int, c@.len() as int))->0, c@.len() as int));
    }
    let (r2, _) = parse_int_byte_sized_string(r1)?;
    proof {
        lemma_rest_trans(c@, rest@, r1@);
        lemma_rest_trans(c@, r1@, r2@);
    }
    Ok(r2)
}

/// The tempo of a mix table change; a negative one changes nothing.
pub open spec fn mix_tempo(i: Seq<u8>, gp5: bool) -> int {
    crate::bytes::le_i32(i.subrange(mix_tempo_at(i, gp5), i.len() as int))
}

/// Offset of a track's name field: after its flag byte, and one more byte
/// for the first track of GP5 files and every track of GP5.00 files.
pub open spec fn track_start(version: GpVersion, number: usize) -> int {
    if version.rank() >= GpVersion::GP5.rank() && (number == 1 || version == GpVersion::GP5) {
        2
    } else {
        1
    }
}

/// The front of `i` holds a track whose name field starts at `p0`: the
/// name fits, there is at least one string, and the channel is stored.
pub open spec fn track_ok(i: Seq<u8>, p0: int) -> bool {
    &&& i.len() >= p0 + 97
    &&& i[p0] <= i.len() - p0 - 1
    &&& crate::bytes::le_i32(i.subrange(p0 + 41, i.len() as int)) > 0
    &&& crate::bytes::le_i32(i.subrange(p0 + 77, i.len() as int)) != i32::MIN
}

/// Bytes of a string stored as a field size, a length byte and the text,
/// when the front of `s` holds a whole one.
pub open spec fn ibs_len(s: Seq<u8>) -> Option<int> {
    if s.len() >= 5 && crate::bytes::int_byte_text_len(s) is Some && 0 <= crate::bytes::int_byte_text_len(s)->0
        <= s.len() - 5 {
        Some(5 + crate::bytes::int_byte_text_len(s)->0)
    } else {
        None
    }
}

/// The front of `i` holds a whole track of a file of `version`: what
/// `track_ok` asks, and for GP5.10 the 49 bytes and two strings after the
/// color.
pub open spec fn track_ok_for(i: Seq<u8>, version: GpVersion, number: usize) -> bool {
    let p0 = track_start(version, number);
    let q = p0 + 97 + 49;
    &&& track_ok(i, p0)
    &&& (version == GpVersion::GP5_10 ==> {
        &&& i.len() >= q
        &&& ibs_len(i.subrange(q, i.len() as int)) is Some
        &&& ibs_len(i.subrange(q + ibs_len(i.subrange(q, i.len() as int))->0, i.len() as int)) is Some
    })
}

/// The strings of a track: number and tuning of the first `string_count` of
/// the seven stored tunings.
fn read_tunings(i: &[u8], p1: usize, string_count: i32) -> (strings: Vec<(i32, i32)>)
    requires
        string_count >= 1,
        string_count == crate::bytes::le_i32(i@.subrange(p1 as int, i@.len() as int)),
        p1 + 56 <= i@.len(),
        p1 <= 43,
    ensures
        strings@.len() == (if string_count < 7 { string_count as int } else { 7 }),
        forall|j: int|
            0 <= j < strings@.len() ==> #[trigger] strings@[j].0 == j + 1 && strings@[j].1
                == crate::bytes::le_i32(i@.subrange(p1 + 4 + 4 * j, i@.len() as int)),
{
    let mut strings: Vec<(i32, i32)> = Vec::new();
    let mut k: i32 = 0;
    while k < 7
        invariant
            0 <= k <= 7,
            string_count >= 1,
            string_count == crate::bytes::le_i32(i@.subrange(p1 as int, i@.len() as int)),
            p1 + 56 <= i@.len(),
            p1 <= 43,
            strings@.len() == (if k < string_count { k as int } else { string_count as int }),
            forall|j: int|
                0 <= j < strings@.len() ==> #[trigger] strings@[j].0 == j + 1 && strings@[j].1
                    == crate::bytes::le_i32(i@.subrange(p1 + 4 + 4 * j, i@.len() as int)),
        decreases 7 - k,
    {
        let tuning = int_at(i, p1 + 4 + 4 * (k as usize));
        if k < string_count {
            let ghost before = strings@;
            strings.push((k + 1, tuning));
            proof {
                assert(before.len() == k);
                assert forall|j: int|
                    0 <= j < strings@.len() implies #[trigger] strings@[j].0 == j + 1 && strings@[j].1
                        == crate::bytes::le_i32(i@.subrange(p1 + 4 + 4 * j, i@.len() as int)) by {
                    if j < before.len() {
                        assert(strings@[j] == before[j]);
                    } else {
                        assert(j == k);
                        assert(strings@[j].0 == k + 1 && strings@[j].1 == tuning);
                    }
                }
            }
        }
        k = k + 1;
    }
    strings
}

/// The end of a track after its color: 44 skipped bytes for GP5.00; 49 and
/// two strings for GP5.10.
fn parse_track_tail(c: &[u8], version: GpVersion) -> (r: Result<&[u8], ParseFailure>)
    ensures
        r matches Ok(rest) ==> is_rest_of(rest@, c@),
        version != GpVersion::GP5_10 ==> r is Ok,
        version == GpVersion::GP5_10 ==> (r is Ok <==> (c@.len() >= 49 && ibs_len(c@.subrange(49, c@.len() as int)) is Some
            && ibs_len(c@.subrange(49 + ibs_len(c@.subrange(49, c@.len() as int))->0, c@.len() as int)) is Some)),
{
    if version == GpVersion::GP5 {
        return Ok(skip(c, 44));
    }
    if version != GpVersion::GP5_10 {
        proof { lemma_rest_refl(c@); }
        return Ok(c);
    }
    let rest = skip(c, 49);
    proof {
        if c@.len() >= 49 {
            assert(rest@ =~= c@.subrange(49, c@.len() as int));
        } else {
            assert(rest@.len() == 0);
        }
    }
    let (r1, _) = parse_int_byte_sized_string(rest)?;
    proof {
        assert(r1@ =~= c@.subrange(49 + ibs_len(c@.subrange(49, c@.len() as int))->0, c@.len() as int));
    }
    let (r2, _) = parse_int_byte_sized_string(r1)?;
    proof {
        lemma_rest_trans(c@, rest@, r1@);
        lemma_rest_trans(c@, r1@, r2@);
    }
    Ok(r2)
}

/// The track holds what the bytes give: its name, one string per stored
/// count (at most seven) with its tuning, and its transposition.
pub open spec fn track_read(track: crate::song::Track, i: Seq<u8>, p0: int) -> bool {
    let p1 = p0 + 41;
    let count = crate::bytes::le_i32(i.subrange(p1, i.len() as int));
    &&& track.name@ == crate::bytes::text_of(i.subrange(p0 + 1, p0 + 1 + (if i[p0] > 40 { 40 } else { i[p0] as int })))
    &&& track.strings@.len() == (if count < 7 { count } else { 7 })
    &&& forall|j: int|
        0 <= j < track.strings@.len() ==> #[trigger] track.strings@[j].1 == crate::bytes::le_i32(
            i.subrange(p1 + 4 + 4 * j, i.len() as int),
        )
    &&& track.offset == crate::bytes::le_i32(i.subrange(p1 + 48, i.len() as int))
}

/// The song keeps its version, tracks, and the number and starts of its
/// measure headers.
pub open spec fn keeps_grid(a: Song, b: Song) -> bool {
    &&& b.version == a.version
    &&& b.tracks == a.tracks
    &&& channels_kept(a.midi_channels@, b.midi_channels@)
    &&& b.measure_headers@.len() == a.measure_headers@.len()
    &&& forall|k: int|
        0 <= k < a.measure_headers@.len() ==> #[trigger] b.measure_headers@[k].start
            == a.measure_headers@[k].start
}

impl MusicParser {
    /// Reads the measure grid: for each measure, one measure of each track,
    /// each starting where the measures before it end. A measure header
    /// without a positive length is malformed.
    pub fn parse_measures<'a>(&mut self, i: &'a [u8], measure_count: i32, track_count: i32) -> (r: Result<&'a [u8], ParseFailure>)
        requires
            measure_count >= 1,
            track_count >= 0,
            old(self).spec_song().measure_headers@.len() == measure_count,
            old(self).spec_song().tracks@.len() == track_count,
            forall|t: int|
                0 <= t < track_count ==> #[trigger] old(self).spec_song().tracks@[t].measures@.len() == 0,
        ensures
            r matches Ok(rest) ==> is_rest_of(rest@, i@),
            r is Ok ==> final(self).spec_song().well_structured(),
            final(self).spec_song().version == old(self).spec_song().version,
            channels_kept(old(self).spec_song().midi_channels@, final(self).spec_song().midi_channels@),
    {
        let mc = measure_count as usize;
        let tc = track_count as usize;
        let version = self.song.version;
        let mut start: i64 = QUARTER_TIME as i64;
        let mut cur = i;
        proof { lemma_rest_refl(i@); }
        let mut m: usize = 0;
        while m < mc
            invariant
                mc == measure_count,
                tc == track_count,
                version == old(self).song.version,
                channels_kept(old(self).song.midi_channels@, self.song.midi_channels@),
                m <= mc,
                self.song.version == version,
                self.song.measure_headers@.len() == mc,
                self.song.tracks@.len() == tc,
                forall|t: int| 0 <= t < tc ==> #[trigger] self.song.tracks@[t].measures@.len() == m,
                forall|t: int, mm: int|
                    0 <= t < tc && 0 <= mm < m ==> Song::measure_fits(
                        #[trigger] self.song.tracks@[t].measures@[mm],
                        t,
                        mm,
                        version,
                        self.song.measure_headers@[mm].start,
                    ),
                is_rest_of(cur@, i@),
            decreases mc - m,
        {
            self.song.measure_headers[m].start = start;
            let mut t: usize = 0;
            while t < tc
                invariant
                    mc == measure_count,
                    tc == track_count,
                    version == old(self).song.version,
                    channels_kept(old(self).song.midi_channels@, self.song.midi_channels@),
                    m < mc,
                    t <= tc,
                    self.song.version == version,
                    self.song.measure_headers@.len() == mc,
                    self.song.measure_headers@[m as int].start == start,
                    self.song.tracks@.len() == tc,
                    forall|u: int| 0 <= u < t ==> #[trigger] self.song.tracks@[u].measures@.len() == m + 1,
                    forall|u: int| t <= u < tc ==> #[trigger] self.song.tracks@[u].measures@.len() == m,
                    forall|u: int, mm: int|
                        0 <= u < tc && 0 <= mm < m ==> Song::measure_fits(
                            #[trigger] self.song.tracks@[u].measures@[mm],
                            u,
                            mm,
                            version,
                            self.song.measure_headers@[mm].start,
                        ),
                    forall|u: int|
                        0 <= u < t ==> Song::measure_fits(
                            #[trigger] self.song.tracks@[u].measures@[m as int],
                            u,
                            m as int,
                            version,
                            self.song.measure_headers@[m as int].start,
                        ),
                    is_rest_of(cur@, i@),
                decreases tc - t,
            {
                let ghost before = self.song;
                let (c, measure) = self.parse_measure(cur, start, m, t)?;
                proof { lemma_rest_trans(i@, cur@, c@); }
                let ghost mid = self.song;
                self.song.tracks[t].measures.push(measure);
                proof {
                    assert forall|u: int, mm: int|
                        0 <= u < tc && 0 <= mm < m implies Song::measure_fits(
                            #[trigger] self.song.tracks@[u].measures@[mm],
                            u,
                            mm,
                            version,
                            self.song.measure_headers@[mm].start,
                        ) by {
                        assert(self.song.measure_headers@[mm].start == before.measure_headers@[mm].start);
                        if u == t {
                            assert(self.song.tracks@[u].measures@[mm] == before.tracks@[u].measures@[mm]);
                        } else {
                            assert(self.song.tracks@[u] == before.tracks@[u]);
                        }
                    }
                    assert forall|u: int|
                        0 <= u <= t implies Song::measure_fits(
                            #[trigger] self.song.tracks@[u].measures@[m as int],
                            u,
                            m as int,
                            version,
                            self.song.measure_headers@[m as int].start,
                        ) by {
                        if u < t {
                            assert(self.song.tracks@[u] == before.tracks@[u]);
                        }
                    }
                    assert forall|u: int| 0 <= u <= t implies #[trigger] self.song.tracks@[u].measures@.len() == m + 1 by {
                        if u < t {
                            assert(self.song.tracks@[u] == before.tracks@[u]);
                        }
                    }
                    assert forall|u: int| t < u < tc implies #[trigger] self.song.tracks@[u].measures@.len() == m by {
                        assert(self.song.tracks@[u] == before.tracks@[u]);
                    }
                }
                cur = c;
                if version.at_least(GpVersion::GP5) {
                    let c2 = skip(cur, 1);
                    proof { lemma_rest_trans(i@, cur@, c2@); }
                    cur = c2;
                }
                t = t + 1;
            }
            let denominator = self.song.measure_headers[m].time_signature.denominator;
            if denominator.value == 0 || denominator.tuplet_enters == 0 {
                return Err(ParseFailure::Malformed);
            }
            let measure_length = self.song.measure_headers[m].length();
            if measure_length <= 0 {
                return Err(ParseFailure::Malformed);
            }
            start = add_ticks(start, measure_length);
            m = m + 1;
        }
        Ok(cur)
    }

    /// Reads the voices of one measure of one track: two from GP5 on, else one.
    pub fn parse_measure<'a>(
        &mut self,
        i: &'a [u8],
        measure_start: i64,
        measure_index: usize,
        track_index: usize,
    ) -> (r: Result<(&'a [u8], Measure), ParseFailure>)
        requires
            track_index < old(self).spec_song().tracks@.len(),
            measure_index < old(self).spec_song().measure_headers@.len(),
        ensures
            r matches Ok((rest, measure)) ==> is_rest_of(rest@, i@) && Song::measure_fits(
                measure,
                track_index as int,
                measure_index as int,
                old(self).spec_song().version,
                measure_start,
            ),
            keeps_grid(old(self).spec_song(), final(self).spec_song()),
    {
        let mut measure = Measure::default();
        measure.header_index = measure_index;
        measure.track_index = track_index;
        let voice_count: usize = if self.song.version.at_least(GpVersion::GP5) {
            2
        } else {
            1
        };
        let mut cur = i;
        proof { lemma_rest_refl(i@); }
        let mut v: usize = 0;
        while v < voice_count
            invariant
                v <= voice_count,
                voice_count == Song::voices_per_measure(old(self).song.version),
                measure.voices@.len() == v,
                measure.header_index == measure_index,
                measure.track_index == track_index,
                forall|vv: int, b: int|
                    0 <= vv < measure.voices@.len() && 0 <= b < measure.voices@[vv].beats@.len()
                        ==> #[trigger] measure.voices@[vv].beats@[b].start >= measure_start,
                track_index < self.song.tracks@.len(),
                measure_index < self.song.measure_headers@.len(),
                keeps_grid(old(self).song, self.song),
                is_rest_of(cur@, i@),
            decreases voice_count - v,
        {
            let (c, voice) = self.parse_voice(cur, measure_start, track_index, measure_index)?;
            proof { lemma_rest_trans(i@, cur@, c@); }
            measure.voices.push(voice);
            cur = c;
            v = v + 1;
        }
        Ok((cur, measure))
    }

    /// Reads the beats of a voice; each beat that is not empty moves the start
    /// of the next one on by its duration.
    pub fn parse_voice<'a>(
        &mut self,
        i: &'a [u8],
        beat_start: i64,
        track_index: usize,
        measure_index: usize,
    ) -> (r: Result<(&'a [u8], Voice), ParseFailure>)
        requires
            track_index < old(self).spec_song().tracks@.len(),
            measure_index < old(self).spec_song().measure_headers@.len(),
        ensures
            r matches Ok((rest, voice)) ==> is_rest_of(rest@, i@) && forall|b: int|
                0 <= b < voice.beats@.len() ==> #[trigger] voice.beats@[b].start >= beat_start,
            keeps_grid(old(self).spec_song(), final(self).spec_song()),
    {
        let (mut cur, beats) = parse_int(i)?;
        let mut voice = Voice { measure_index: #[verifier::truncate] (measure_index as i16), beats: Vec::new() };
        let mut start = beat_start;
        let mut b: i32 = 0;
        while b < beats
            invariant
                start >= beat_start,
                forall|k: int| 0 <= k < voice.beats@.len() ==> #[trigger] voice.beats@[k].start >= beat_start,
                track_index < self.song.tracks@.len(),
                measure_index < self.song.measure_headers@.len(),
                keeps_grid(old(self).song, self.song),
                is_rest_of(cur@, i@),
            decreases beats - b,
        {
            let (c, beat) = self.parse_beat(cur, start, track_index, measure_index)?;
            proof { lemma_rest_trans(i@, cur@, c@); }
            if !beat.empty && beat.duration.value > 0 && beat.duration.tuplet_enters > 0 {
                let time = beat.duration.time();
                start = add_ticks(start, time as i64);
            }
            voice.beats.push(beat);
            cur = c;
            b = b + 1;
        }
        Ok((cur, voice))
    }

    /// Reads a beat at `start`: its flags, then the parts they announce
    /// (empty marker, duration, chord, text, effects, mix change) and the notes
    /// of the strings in its string bit set.
    pub fn parse_beat<'a>(
        &mut self,
        i: &'a [u8],
        start: i64,
        track_index: usize,
        measure_index: usize,
    ) -> (r: Result<(&'a [u8], Beat), ParseFailure>)
        requires
            track_index < old(self).spec_song().tracks@.len(),
            measure_index < old(self).spec_song().measure_headers@.len(),
        ensures
            r matches Ok((rest, beat)) ==> is_rest_of(rest@, i@) && beat.start == start,
            r matches Ok((_, beat)) ==> (i@[0] & 0x40 == 0 ==> !beat.empty),
            keeps_grid(old(self).spec_song(), final(self).spec_song()),
    {
        let (i1, flags) = parse_byte(i)?;
        proof { assert(flags == i@[0]); }
        let mut beat = new_beat(start);
        let mut cur = i1;
        proof { lemma_rest_drop(i@, 1); }
        if (flags & 0x40) != 0 {
            let (c, beat_type) = parse_byte(cur)?;
            proof { lemma_rest_trans(i@, cur@, c@); }
            beat.empty = beat_type & 0x02 == 0;
            cur = c;
        }
        let (c1, duration) = parse_duration(cur, flags)?;
        proof { lemma_rest_trans(i@, cur@, c1@); }
        beat.duration = duration;
        cur = c1;
        if (flags & 0x02) != 0 {
            let string_count = self.song.tracks[track_index].strings.len();
            let count: u8 = if string_count > 255 {
                255
            } else {
                string_count as u8
            };
            let (c, chord) = parse_chord(cur, count, self.song.version)?;
            proof { lemma_rest_trans(i@, cur@, c@); }
            beat.effect.chord = Some(chord);
            cur = c;
        }
        if (flags & 0x04) != 0 {
            let (c, text) = parse_int_byte_sized_string(cur)?;
            proof { lemma_rest_trans(i@, cur@, c@); }
            beat.text = text;
            cur = c;
        }
        let mut note_effect = NoteEffect::default();
        if (flags & 0x08) != 0 {
            let c = parse_beat_effects(cur, &mut beat, &mut note_effect)?;
            proof { lemma_rest_trans(i@, cur@, c@); }
            cur = c;
        }
        if (flags & 0x10) != 0 {
            let c = self.parse_mix_change(cur, measure_index)?;
            proof { lemma_rest_trans(i@, cur@, c@); }
            cur = c;
        }
        let (c2, string_flags) = parse_byte(cur)?;
        proof { lemma_rest_trans(i@, cur@, c2@); }
        cur = c2;
        let string_total = self.song.tracks[track_index].strings.len();
        if string_total == 0 {
            return Err(ParseFailure::Malformed);
        }
        let mut k: usize = 0;
        while k < string_total
            invariant
                string_total == self.song.tracks@[track_index as int].strings@.len(),
                track_index < self.song.tracks@.len(),
                beat.start == start,
                flags == i@[0],
                flags & 0x40 == 0 ==> !beat.empty,
                keeps_grid(old(self).song, self.song),
                is_rest_of(cur@, i@),
            decreases string_total - k,
        {
            let string_value = self.song.tracks[track_index].strings[k];
            if 1 <= string_value.0 && string_value.0 <= 7 && string_flags & string_bit(string_value.0) != 0 {
                let mut note = Note::new(note_effect.clone());
                let c = self.parse_note(cur, &mut note, string_value, track_index)?;
                proof { lemma_rest_trans(i@, cur@, c@); }
                beat.notes.push(note);
                cur = c;
            }
            k = k + 1;
        }
        if self.song.version.at_least(GpVersion::GP5) {
            let c3 = skip(cur, 1);
            let (c4, read) = parse_byte(c3)?;
            proof {
                lemma_rest_trans(i@, cur@, c3@);
                lemma_rest_trans(i@, c3@, c4@);
            }
            cur = c4;
            if (read & 0x08) != 0 {
                let c5 = skip(cur, 1);
                proof { lemma_rest_trans(i@, cur@, c5@); }
                cur = c5;
            }
        }
        Ok((cur, beat))
    }

    /// The fret of the note on `string_index` that a tied note continues:
    /// the first such note of the last voice, searched from the last measure of
    /// the track back; -1 when there is none.
    fn get_tied_note_value(&self, string_index: i8, track_index: usize) -> i16
        requires
            track_index < self.song.tracks@.len(),
    {
        let track = &self.song.tracks[track_index];
        let mut m: usize = track.measures.len();
        while m > 0
            invariant
                m <= track.measures@.len(),
            decreases m,
        {
            m = m - 1;
            let measure = &track.measures[m];
            let mut v: usize = measure.voices.len();
            while v > 0
                invariant
                    v <= measure.voices@.len(),
                decreases v,
            {
                v = v - 1;
                let beats = &measure.voices[v].beats;
                let mut b: usize = 0;
                while b < beats.len()
                    invariant
                        b <= beats@.len(),
                    decreases beats@.len() - b,
                {
                    let notes = &beats[b].notes;
                    let mut n: usize = 0;
                    while n < notes.len()
                        invariant
                            n <= notes@.len(),
                        decreases notes@.len() - n,
                    {
                        if notes[n].string == string_index {
                            return notes[n].value;
                        }
                        n = n + 1;
                    }
                    b = b + 1;
                }
            }
        }
        -1
    }

    /// Reads a mix table change. A new tempo applies to this measure and all
    /// later ones.
    #[verifier::rlimit(100)]
    pub fn parse_mix_change<'a>(&mut self, i: &'a [u8], measure_index: usize) -> (r: Result<&'a [u8], ParseFailure>)
        requires
            measure_index < old(self).spec_song().measure_headers@.len(),
        ensures
            r matches Ok(rest) ==> is_rest_of(rest@, i@),
            keeps_grid(old(self).spec_song(), final(self).spec_song()),
            r is Ok ==> mix_ok(i@, old(self).spec_song().version.rank() >= GpVersion::GP5.rank()),
            old(self).spec_song().version != GpVersion::GP5_10 ==> (r is Ok <==> mix_ok(
                i@,
                old(self).spec_song().version.rank() >= GpVersion::GP5.rank(),
            )),
            old(self).spec_song().version == GpVersion::GP5_10 ==> (r is Ok <==> mix_ok_5_10(i@)),
            r is Ok ==> forall|k: int|
                0 <= k < old(self).spec_song().measure_headers@.len() ==> #[trigger] final(self).spec_song().measure_headers@[k].tempo.value
                    == (if k >= measure_index && mix_tempo(
                    i@,
                    old(self).spec_song().version.rank() >= GpVersion::GP5.rank(),
                ) >= 0 {
                    mix_tempo(i@, old(self).spec_song().version.rank() >= GpVersion::GP5.rank())
                } else {
                    old(self).spec_song().measure_headers@[k].tempo.value as int
                }),
    {
        let version = self.song.version;
        let gp5 = version.at_least(GpVersion::GP5);
        let o: usize = if gp5 {
            23
        } else {
            7
        };
        if i.len() < o {
            return Err(ParseFailure::Incomplete);
        }
        let volume = i[o - 6];
        let pan = i[o - 5];
        let chorus = i[o - 4];
        let reverb = i[o - 3];
        let phaser = i[o - 2];
        let tremolo = i[o - 1];
        let mut cur = &i[o..i.len()];
        proof { crate::bytes::lemma_rest_drop(i@, o as int); }
        let mut tempo_name = String::new();
        if gp5 {
            let (c, name) = parse_int_byte_sized_string(cur)?;
            proof { lemma_rest_trans(i@, cur@, c@); }
            tempo_name = name;
            cur = c;
        }
        proof {
            if gp5 {
                assert(cur@ =~= i@.subrange(mix_tempo_at(i@, true), i@.len() as int));
            } else {
                assert(cur@ =~= i@.subrange(7, i@.len() as int));
            }
        }
        let (c7, tempo_value) = parse_int(cur)?;
        proof { lemma_rest_trans(i@, cur@, c7@); }
        cur = c7;
        let mut skips: usize = 0;
        if volume < 128 {
            skips = skips + 1;
        }
        if pan < 128 {
            skips = skips + 1;
        }
        if chorus < 128 {
            skips = skips + 1;
        }
        if reverb < 128 {
            skips = skips + 1;
        }
        if phaser < 128 {
            skips = skips + 1;
        }
        if tremolo < 128 {
            skips = skips + 1;
        }
        let tempo_skip: usize = if tempo_value >= 0 {
            if version == GpVersion::GP5_10 {
                2
            } else {
                1
            }
        } else {
            0
        };
        let total: usize = skips + tempo_skip + 1 + if gp5 {
            1
        } else {
            0
        };
        if tempo_value >= 0 {
            let mut k: usize = measure_index;
            while k < self.song.measure_headers.len()
                invariant
                    keeps_grid(old(self).song, self.song),
                    measure_index <= k,
                    forall|q: int|
                        0 <= q < self.song.measure_headers@.len() ==> #[trigger] self.song.measure_headers@[q].tempo.value
                            == (if measure_index <= q < k {
                            tempo_value as int
                        } else {
                            old(self).song.measure_headers@[q].tempo.value as int
                        }),
                decreases self.song.measure_headers@.len() - k,
            {
                self.song.measure_headers[k].tempo.value = tempo_value;
                self.song.measure_headers[k].tempo.name = Some(tempo_name.clone());
                k = k + 1;
            }
        }
        proof {
            assert(tempo_value == mix_tempo(i@, gp5));
            assert(total == mix_skips(i@, gp5, version == GpVersion::GP5_10));
            let t0 = mix_tempo_at(i@, gp5) + 4;
            assert(cur@ =~= i@.subrange(t0, i@.len() as int));
            if version == GpVersion::GP5_10 && cur@.len() >= total {
                let t = t0 + total;
                assert(cur@.subrange(total as int, cur@.len() as int) =~= i@.subrange(t, i@.len() as int));
                let sub = i@.subrange(t, i@.len() as int);
                if ibs_len(sub) is Some {
                    assert(cur@.subrange(total + ibs_len(sub)->0, cur@.len() as int) =~= i@.subrange(
                        t + ibs_len(sub)->0,
                        i@.len() as int,
                    ));
                }
            }
        }
        let rest = skip_then_strings(cur, total, version == GpVersion::GP5_10)?;
        proof { lemma_rest_trans(i@, cur@, rest@); }
        cur = rest;
        Ok(cur)
    }

    /// Reads a note on `guitar_string` (its number and tuning): accents,
    /// type, dynamic, fret (from the note it is tied to for a tied note; a fret
    /// outside 0 to 99 reads as 0), and its effects.
    #[verifier::rlimit(50)]
    pub fn parse_note<'a>(
        &self,
        i: &'a [u8],
        note: &mut Note,
        guitar_string: (i32, i32),
        track_index: usize,
    ) -> (r: Result<&'a [u8], ParseFailure>)
        requires
            track_index < self.spec_song().tracks@.len(),
        ensures
            r matches Ok(rest) ==> is_rest_of(rest@, i@),
            r is Ok ==> 0 <= final(note).value < 100,
            r is Ok ==> final(note).effect.heavy_accentuated_note == (i@[0] & 0x02 == 0x02)
                && final(note).effect.ghost_note == (i@[0] & 0x04 == 0x04)
                && final(note).effect.accentuated_note == (i@[0] & 0x40 == 0x40),
    {
        let (i1, flags) = parse_byte(i)?;
        proof { assert(flags == i@[0]); }
        let string: i8 = #[verifier::truncate] (guitar_string.0 as i8);
        note.string = string;
        note.effect.heavy_accentuated_note = (flags & 0x02) == 0x02;
        note.effect.ghost_note = (flags & 0x04) == 0x04;
        note.effect.accentuated_note = (flags & 0x40) == 0x40;
        let mut cur = i1;
        proof { lemma_rest_drop(i@, 1); }
        if (flags & 0x20) != 0 {
            let (c, note_type) = parse_byte(cur)?;
            proof { lemma_rest_trans(i@, cur@, c@); }
            note.kind = NoteType::get_note_type(note_type);
            cur = c;
        }
        if (flags & 0x01) != 0 && !self.song.version.at_least(GpVersion::GP5) {
            let c = skip(cur, 2);
            proof { lemma_rest_trans(i@, cur@, c@); }
            cur = c;
        }
        if (flags & 0x10) != 0 {
            let (c, velocity) = parse_signed_byte(cur)?;
            proof { lemma_rest_trans(i@, cur@, c@); }
            note.velocity = convert_velocity(velocity as i16);
            cur = c;
        }
        if !(0 <= note.value && note.value < 100) {
            note.value = 0;
        }
        if (flags & 0x20) != 0 {
            let (c, fret) = parse_signed_byte(cur)?;
            proof { lemma_rest_trans(i@, cur@, c@); }
            let value: i16 = if note.kind == NoteType::Tie {
                self.get_tied_note_value(string, track_index)
            } else {
                fret as i16
            };
            note.value = if 0 <= value && value < 100 {
                value
            } else {
                0
            };
            cur = c;
        }
        if (flags & 0x80) != 0 {
            let c = skip(cur, 2);
            proof { lemma_rest_trans(i@, cur@, c@); }
            cur = c;
        }
        if self.song.version.at_least(GpVersion::GP5) {
            if (flags & 0x01) != 0 {
                let c = skip(cur, 8);
                proof { lemma_rest_trans(i@, cur@, c@); }
                cur = c;
            }
            let (c, swap) = parse_byte(cur)?;
            proof { lemma_rest_trans(i@, cur@, c@); }
            note.swap_accidentals = swap & 0x02 == 0x02;
            cur = c;
        }
        if (flags & 0x08) != 0 {
            let c = parse_note_effects(cur, note, self.song.version)?;
            proof { lemma_rest_trans(i@, cur@, c@); }
            cur = c;
        }
        Ok(cur)
    }
}

} // verus!

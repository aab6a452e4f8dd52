//! Data of a TabIt (TBT) file as stored, before it becomes a song.
use vstd::prelude::*;

verus! {

/// File versions.
#[derive(Debug, Clone, Copy, PartialEq, Eq, Structural)]
pub enum TbtVersion {
    /// 0x6f, the earliest supported.
    V0x6f,
    /// 0x70: alternate time regions and a space count per track.
    V0x70,
    /// 0x71: modulation and pitch bend blocks.
    V0x71,
    /// 0x72, the latest.
    V0x72,
}

impl TbtVersion {
    pub open spec fn spec_from_byte(byte: u8) -> Option<TbtVersion> {
        match byte {
            0x6f => Some(TbtVersion::V0x6f),
            0x70 => Some(TbtVersion::V0x70),
            0x71 => Some(TbtVersion::V0x71),
            0x72 => Some(TbtVersion::V0x72),
            _ => None,
        }
    }

    pub fn from_byte(byte: u8) -> (r: Option<TbtVersion>)
        ensures
            r == TbtVersion::spec_from_byte(byte),
    {
        match byte {
            0x6f => Some(TbtVersion::V0x6f),
            0x70 => Some(TbtVersion::V0x70),
            0x71 => Some(TbtVersion::V0x71),
            0x72 => Some(TbtVersion::V0x72),
            _ => None,
        }
    }

    pub fn has_alternate_time_regions(&self) -> (r: bool)
        ensures
            r == !(*self == TbtVersion::V0x6f),
    {
        !matches!(self, TbtVersion::V0x6f)
    }

    pub fn has_space_count_per_track(&self) -> (r: bool)
        ensures
            r == !(*self == TbtVersion::V0x6f),
    {
        !matches!(self, TbtVersion::V0x6f)
    }

    pub fn has_modulation_pitch_bend(&self) -> (r: bool)
        ensures
            r == (*self == TbtVersion::V0x71 || *self == TbtVersion::V0x72),
    {
        matches!(self, TbtVersion::V0x71 | TbtVersion::V0x72)
    }

    pub fn has_track_effect_changes_chunk(&self) -> (r: bool)
        ensures
            r == (*self == TbtVersion::V0x71 || *self == TbtVersion::V0x72),
    {
        matches!(self, TbtVersion::V0x71 | TbtVersion::V0x72)
    }
}

/// Flags of the feature byte of the header.
#[derive(Debug, Clone, Copy, PartialEq, Eq, Structural)]
pub struct TbtFeatures {
    /// Bit 4: alternate time regions (triplets and the like).
    pub has_alternate_time_regions: bool,
    /// Bit 3: set from version 0x6e on.
    pub feature_bit_3: bool,
}

impl TbtFeatures {
    pub fn from_byte(byte: u8) -> (r: Self)
        ensures
            r.has_alternate_time_regions == (byte & 0x10 != 0),
            r.feature_bit_3 == (byte & 0x08 != 0),
    {
        TbtFeatures { has_alternate_time_regions: (byte & 0x10) != 0, feature_bit_3: (byte & 0x08) != 0 }
    }
}

impl Default for TbtFeatures {
    fn default() -> (r: Self)
        ensures
            !r.has_alternate_time_regions && !r.feature_bit_3,
    {
        TbtFeatures { has_alternate_time_regions: false, feature_bit_3: false }
    }
}

/// The 64-byte header.
#[derive(Debug, Clone, PartialEq)]
pub struct TbtHeader {
    pub version: TbtVersion,
    /// Primary tempo in beats per minute.
    pub tempo1: u8,
    pub track_count: u8,
    /// Version text, such as "2.03".
    pub version_string: String,
    pub features: TbtFeatures,
    pub bar_count: u16,
    /// Spaces in the song; a space is a sixteenth note.
    pub space_count: u16,
    pub last_non_empty_space: u16,
    /// Secondary tempo.
    pub tempo2: u16,
    pub compressed_metadata_len: u32,
    pub crc32_body: u32,
    /// Size of the whole file.
    pub total_byte_count: u32,
    /// CRC-32 of the first 60 bytes.
    pub crc32_header: u32,
}

/// Settings of one track.
#[derive(Debug, Clone, PartialEq)]
pub struct TbtTrack {
    pub index: u8,
    /// Spaces of this track (from version 0x70 on).
    pub space_count: Option<u32>,
    pub string_count: u8,
    pub clean_guitar: u8,
    pub muted_guitar: u8,
    pub volume: u8,
    pub modulation: Option<u8>,
    pub pitch_bend: Option<u16>,
    pub transpose_half_steps: i8,
    pub midi_bank: u8,
    pub reverb: u8,
    pub chorus: u8,
    pub pan: u8,
    pub highest_note: u8,
    pub display_midi_note_numbers: bool,
    pub midi_channel: u8,
    pub top_line_text: bool,
    pub bottom_line_text: bool,
    /// Signed offsets from standard tuning, lowest string first.
    pub tuning: [u8; 8],
    pub is_drum: bool,
}

impl Default for TbtTrack {
    fn default() -> (r: Self)
        ensures
            r.index == 0 && r.space_count.is_none() && r.string_count == 0 && r.midi_channel == 0
                && !r.is_drum && r.tuning@ == seq![0u8, 0, 0, 0, 0, 0, 0, 0],
    {
        TbtTrack {
            index: 0,
            space_count: None,
            string_count: 0,
            clean_guitar: 0,
            muted_guitar: 0,
            volume: 0,
            modulation: None,
            pitch_bend: None,
            transpose_half_steps: 0,
            midi_bank: 0,
            reverb: 0,
            chorus: 0,
            pan: 0,
            highest_note: 0,
            display_midi_note_numbers: false,
            midi_channel: 0,
            top_line_text: false,
            bottom_line_text: false,
            tuning: [0u8; 8],
            is_drum: false,
        }
    }
}

#[derive(Debug, Clone, PartialEq)]
pub struct TbtSongInfo {
    pub title: String,
    pub artist: String,
    pub album: String,
    pub transcribed_by: String,
    pub comment: String,
}

#[derive(Debug, Clone, PartialEq)]
pub struct TbtMetadata {
    pub tracks: Vec<TbtTrack>,
    pub song_info: TbtSongInfo,
}

#[derive(Debug, Clone, Copy, PartialEq, Eq, Structural)]
pub enum TbtBarType {
    Single,
    Double,
    /// `|:`
    OpenRepeat,
    /// `:|`
    CloseRepeat,
    /// `:|:`
    OpenCloseRepeat,
}

#[derive(Debug, Clone, Copy, PartialEq, Eq, Structural)]
pub struct TbtBarLine {
    /// Space at which the bar line stands.
    pub space: u16,
    pub bar_type: TbtBarType,
    /// Plays of a closing repeat.
    pub repeat_count: u8,
}

/// Effect written after a fret.
#[derive(Debug, Clone, Copy, PartialEq, Eq, Structural)]
pub enum TbtStringEffect {
    SlideUp,
    SlideDown,
    BendUp,
    Bend,
    HammerOn,
    PullOff,
    ReleaseBend,
    Vibrato,
    Harmonic,
    Tremolo,
    GhostNote,
    Tap,
    Slap,
    Whammy,
}

impl TbtStringEffect {
    pub open spec fn spec_from_byte(byte: u8) -> Option<TbtStringEffect> {
        match byte {
            0x2f => Some(TbtStringEffect::SlideUp),
            0x5c => Some(TbtStringEffect::SlideDown),
            0x5e => Some(TbtStringEffect::BendUp),
            0x62 => Some(TbtStringEffect::Bend),
            0x68 => Some(TbtStringEffect::HammerOn),
            0x70 => Some(TbtStringEffect::PullOff),
            0x72 => Some(TbtStringEffect::ReleaseBend),
            0x7e => Some(TbtStringEffect::Vibrato),
            0x3c => Some(TbtStringEffect::Harmonic),
            0x7b => Some(TbtStringEffect::Tremolo),
            0x28 => Some(TbtStringEffect::GhostNote),
            0x74 => Some(TbtStringEffect::Tap),
            0x73 => Some(TbtStringEffect::Slap),
            0x77 => Some(TbtStringEffect::Whammy),
            _ => None,
        }
    }

    /// The effect written as a character: `/ \\ ^ b h p r ~ < { ( t s w`.
    pub fn from_byte(byte: u8) -> (r: Option<TbtStringEffect>)
        ensures
            r == TbtStringEffect::spec_from_byte(byte),
    {
        match byte {
            0x2f => Some(TbtStringEffect::SlideUp),
            0x5c => Some(TbtStringEffect::SlideDown),
            0x5e => Some(TbtStringEffect::BendUp),
            0x62 => Some(TbtStringEffect::Bend),
            0x68 => Some(TbtStringEffect::HammerOn),
            0x70 => Some(TbtStringEffect::PullOff),
            0x72 => Some(TbtStringEffect::ReleaseBend),
            0x7e => Some(TbtStringEffect::Vibrato),
            0x3c => Some(TbtStringEffect::Harmonic),
            0x7b => Some(TbtStringEffect::Tremolo),
            0x28 => Some(TbtStringEffect::GhostNote),
            0x74 => Some(TbtStringEffect::Tap),
            0x73 => Some(TbtStringEffect::Slap),
            0x77 => Some(TbtStringEffect::Whammy),
            _ => None,
        }
    }
}

/// A note of the grid.
#[derive(Debug, Clone, Copy, PartialEq, Eq, Structural)]
pub struct TbtNote {
    /// Position in twentieths of a space.
    pub vsq_position: u32,
    /// String, 0 for the lowest.
    pub string: u8,
    pub fret: u8,
    pub is_muted: bool,
    /// A stop that ends the sound of the string.
    pub is_stop: bool,
    pub effect: Option<TbtStringEffect>,
}

/// Grid value of a muted note.
pub const NOTE_MUTED: u8 = 0x11;

/// Grid value of a stop.
pub const NOTE_STOP: u8 = 0x12;

/// Flag added to a fret in the grid.
pub const NOTE_FRET_FLAG: u8 = 0x80;

/// A region of alternate time, such as a triplet.
#[derive(Debug, Clone, Copy, PartialEq, Eq, Structural)]
pub struct TbtAlternateTime {
    /// Position in halves of a space.
    pub dsq_position: u32,
    pub denominator: u8,
    pub numerator: u8,
}

#[derive(Debug, Clone, Copy, PartialEq, Eq, Structural)]
pub enum TbtEffectChangeType {
    Stroke,
    Tempo,
    Instrument,
    Volume,
    Pan,
    Chorus,
    Reverb,
    Modulation,
    PitchBend,
}

impl TbtEffectChangeType {
    pub open spec fn spec_from_byte(byte: u8) -> Option<TbtEffectChangeType> {
        match byte {
            1 => Some(TbtEffectChangeType::Stroke),
            2 => Some(TbtEffectChangeType::Tempo),
            3 => Some(TbtEffectChangeType::Instrument),
            4 => Some(TbtEffectChangeType::Volume),
            5 => Some(TbtEffectChangeType::Pan),
            6 => Some(TbtEffectChangeType::Chorus),
            7 => Some(TbtEffectChangeType::Reverb),
            8 => Some(TbtEffectChangeType::Modulation),
            9 => Some(TbtEffectChangeType::PitchBend),
            _ => None,
        }
    }

    pub fn from_byte(byte: u8) -> (r: Option<TbtEffectChangeType>)
        ensures
            r == TbtEffectChangeType::spec_from_byte(byte),
    {
        match byte {
            1 => Some(TbtEffectChangeType::Stroke),
            2 => Some(TbtEffectChangeType::Tempo),
            3 => Some(TbtEffectChangeType::Instrument),
            4 => Some(TbtEffectChangeType::Volume),
            5 => Some(TbtEffectChangeType::Pan),
            6 => Some(TbtEffectChangeType::Chorus),
            7 => Some(TbtEffectChangeType::Reverb),
            8 => Some(TbtEffectChangeType::Modulation),
            9 => Some(TbtEffectChangeType::PitchBend),
            _ => None,
        }
    }
}

/// A change of a track setting at a space.
#[derive(Debug, Clone, Copy, PartialEq, Eq, Structural)]
pub struct TbtEffectChange {
    pub space: u32,
    pub effect_type: TbtEffectChangeType,
    pub value: u16,
}

/// A whole file as stored.
#[derive(Debug, Clone, PartialEq)]
pub struct TbtSong {
    pub header: TbtHeader,
    pub metadata: TbtMetadata,
    pub bar_lines: Vec<TbtBarLine>,
    /// Notes of each track.
    pub track_notes: Vec<Vec<TbtNote>>,
    pub alternate_times: Vec<Vec<TbtAlternateTime>>,
    pub track_effect_changes: Vec<Vec<TbtEffectChange>>,
}

} // verus!

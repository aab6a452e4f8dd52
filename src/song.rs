//! The song model: a song holds measure headers, which form the global
//! timeline, and tracks, each with one measure per header.
use vstd::prelude::*;

verus! {

/// Most voices a measure can hold.
pub const MAX_VOICES: usize = 2;

/// Ticks in one quarter note.
pub const QUARTER_TIME: i64 = 960;

/// Note value of a quarter note.
pub const QUARTER: u16 = 4;

pub const DURATION_EIGHTH: u8 = 8;

pub const DURATION_SIXTEENTH: u8 = 16;

pub const DURATION_THIRTY_SECOND: u8 = 32;

pub const DURATION_SIXTY_FOURTH: u8 = 64;

/// Bank value that marks a percussion channel.
pub const DEFAULT_PERCUSSION_BANK: u8 = 128;

pub const DEFAULT_BANK: u8 = 0;

pub const MIN_VELOCITY: i16 = 15;

pub const VELOCITY_INCREMENT: i16 = 16;

/// Velocity of a forte note.
pub const DEFAULT_VELOCITY: i16 = 95;

/// Position scale of bend points: a bend spans positions 0 to 12.
pub const BEND_EFFECT_MAX_POSITION_LENGTH: u32 = 12;

/// The raw MIDI velocity of a Guitar Pro dynamic level.
pub open spec fn velocity_of(v: int) -> int {
    MIN_VELOCITY + VELOCITY_INCREMENT * v - VELOCITY_INCREMENT
}

/// Converts a Guitar Pro dynamic level to a raw MIDI velocity.
pub fn convert_velocity(v: i16) -> (r: i16)
    requires
        -2047 <= v <= 2047,
    ensures
        r == velocity_of(v as int),
{
    MIN_VELOCITY + (VELOCITY_INCREMENT * v) - VELOCITY_INCREMENT
}

#[derive(Debug, Copy, Clone, PartialEq, Eq, PartialOrd, Ord, Structural)]
pub enum GpVersion {
    GP3,
    GP4,
    GP4_06,
    GP5,
    GP5_10,
}

impl GpVersion {
    /// The rank of a version in release order.
    pub open spec fn rank(self) -> int {
        match self {
            GpVersion::GP3 => 0,
            GpVersion::GP4 => 1,
            GpVersion::GP4_06 => 2,
            GpVersion::GP5 => 3,
            GpVersion::GP5_10 => 4,
        }
    }

    /// The rank of a version in release order.
    pub fn order(&self) -> (r: u8)
        ensures
            r == self.rank(),
    {
        match self {
            GpVersion::GP3 => 0,
            GpVersion::GP4 => 1,
            GpVersion::GP4_06 => 2,
            GpVersion::GP5 => 3,
            GpVersion::GP5_10 => 4,
        }
    }

    /// Whether this version is at least `other`.
    pub fn at_least(&self, other: GpVersion) -> (r: bool)
        ensures
            r == (self.rank() >= other.rank()),
    {
        self.order() >= other.order()
    }
}

#[derive(Debug, Clone, PartialEq)]
pub struct Song {
    pub version: GpVersion,
    pub song_info: SongInfo,
    pub triplet_feel: Option<bool>,
    pub lyrics: Option<Lyrics>,
    pub page_setup: Option<PageSetup>,
    pub tempo: Tempo,
    pub hide_tempo: Option<bool>,
    pub key_signature: i8,
    pub octave: Option<i32>,
    pub midi_channels: Vec<MidiChannel>,
    pub measure_headers: Vec<MeasureHeader>,
    pub tracks: Vec<Track>,
}

/// The index the forward scan over `starts` stops at: 0 while no start is at most
/// `tick`, else the index before the first start past `tick`.
fn scan_starts(starts: &Vec<i64>, tick: i64) -> (r: usize)
    ensures
        starts@.len() == 0 ==> r == 0,
        starts@.len() > 0 ==> r < starts@.len(),
        forall|j: int| 0 <= j <= r && j < starts@.len() && r > 0 ==> starts@[j] <= tick,
        (r + 1 < starts@.len()) ==> starts@[r + 1] > tick || (r == 0 && starts@[0] > tick),
{
    let mut idx: usize = 0;
    let mut i: usize = 0;
    while i < starts.len()
        invariant
            0 <= i <= starts@.len(),
            idx <= i,
            starts@.len() > 0 && i > 0 ==> idx < starts@.len(),
            forall|j: int| 0 <= j < i ==> starts@[j] <= tick,
            i > 0 ==> idx == i - 1,
            i == 0 ==> idx == 0,
        decreases starts@.len() - i,
    {
        if starts[i] > tick {
            return idx;
        }
        idx = i;
        i = i + 1;
    }
    idx
}

impl Default for Song {
    /// A GP3 song with empty information, the default tempo, and no channels,
    /// measures or tracks.
    fn default() -> (r: Song)
        ensures
            r.version == GpVersion::GP3,
            r.song_info.name@.len() == 0,
            r.tempo.value == 120,
            r.key_signature == 0,
            r.triplet_feel is None && r.lyrics is None && r.page_setup is None,
            r.hide_tempo is None && r.octave is None,
            r.midi_channels@.len() == 0,
            r.measure_headers@.len() == 0,
            r.tracks@.len() == 0,
    {
        Song {
            version: GpVersion::GP3,
            song_info: SongInfo::empty(),
            triplet_feel: None,
            lyrics: None,
            page_setup: None,
            tempo: Tempo::default(),
            hide_tempo: None,
            key_signature: 0,
            octave: None,
            midi_channels: Vec::new(),
            measure_headers: Vec::new(),
            tracks: Vec::new(),
        }
    }
}

impl Song {
    /// Voices per measure in a song of this version: two from GP5 on.
    pub open spec fn voices_per_measure(version: GpVersion) -> int {
        if version.rank() >= GpVersion::GP5.rank() {
            2
        } else {
            1
        }
    }

    /// The measure sits at track `t` and header `m`, holds the version's
    /// number of voices, and none of its beats starts before `header_start`.
    pub open spec fn measure_fits(
        measure: Measure,
        t: int,
        m: int,
        version: GpVersion,
        header_start: i64,
    ) -> bool {
        &&& measure.track_index == t
        &&& measure.header_index == m
        &&& measure.voices@.len() == Song::voices_per_measure(version)
        &&& forall|v: int, b: int|
            0 <= v < measure.voices@.len() && 0 <= b < measure.voices@[v].beats@.len()
                ==> #[trigger] measure.voices@[v].beats@[b].start >= header_start
    }

    /// The measure grid matches the timeline: each track has one measure per
    /// header, each measure knows its track and header positions and holds the
    /// version's number of voices, and no beat starts before its measure.
    pub open spec fn well_structured(&self) -> bool {
        forall|t: int|
            0 <= t < self.tracks@.len() ==> {
                &&& #[trigger] self.tracks@[t].measures@.len() == self.measure_headers@.len()
                &&& forall|m: int|
                    0 <= m < self.measure_headers@.len() ==> Song::measure_fits(
                        #[trigger] self.tracks@[t].measures@[m],
                        t,
                        m,
                        self.version,
                        self.measure_headers@[m].start,
                    )
            }
    }

    /// Measure index and beat index (in the first voice of `track_id`) that hold `tick`.
    pub fn get_measure_beat_for_tick(&self, track_id: usize, tick: usize) -> (r: (usize, usize))
        requires
            track_id < self.tracks@.len(),
            self.tracks@[track_id as int].measures@.len() == self.measure_headers@.len(),
            forall|m: int|
                0 <= m < self.tracks@[track_id as int].measures@.len()
                    ==> self.tracks@[track_id as int].measures@[m].voices@.len() > 0,
            tick <= i64::MAX,
        ensures
            self.measure_headers@.len() > 0 ==> r.0 < self.measure_headers@.len(),
            self.measure_headers@.len() > 0 && r.0 > 0 ==> self.measure_headers@[r.0 as int].start
                <= tick,
            r.0 + 1 < self.measure_headers@.len() ==> self.measure_headers@[r.0 + 1].start > tick
                || (r.0 == 0 && self.measure_headers@[0].start > tick),
    {
        let mut starts: Vec<i64> = Vec::new();
        let mut i: usize = 0;
        while i < self.measure_headers.len()
            invariant
                i <= self.measure_headers@.len(),
                starts@.len() == i,
                forall|j: int| 0 <= j < i ==> starts@[j] == self.measure_headers@[j].start,
            decreases self.measure_headers@.len() - i,
        {
            starts.push(self.measure_headers[i].start);
            i = i + 1;
        }
        let measure_index = scan_starts(&starts, tick as i64);
        if self.measure_headers.len() == 0 {
            return (0, 0);
        }
        assert(measure_index > 0 ==> starts@[measure_index as int] <= tick);
        let voice = &self.tracks[track_id].measures[measure_index].voices[0];
        let mut beat_starts: Vec<i64> = Vec::new();
        let mut j: usize = 0;
        while j < voice.beats.len()
            invariant
                j <= voice.beats@.len(),
                beat_starts@.len() == j,
            decreases voice.beats@.len() - j,
        {
            beat_starts.push(voice.beats[j].start);
            j = j + 1;
        }
        let beat_index = scan_starts(&beat_starts, tick as i64);
        (measure_index, beat_index)
    }
}

#[derive(Debug, Clone, Copy, PartialEq, Eq, Structural)]
pub struct MidiChannel {
    pub channel_id: u8,
    pub effect_channel_id: u8,
    pub instrument: i32,
    pub volume: i8,
    pub balance: i8,
    pub chorus: i8,
    pub reverb: i8,
    pub phaser: i8,
    pub tremolo: i8,
    pub bank: u8,
}

impl MidiChannel {
    /// A channel plays percussion when its bank is the percussion bank.
    pub fn is_percussion(&self) -> (r: bool)
        ensures
            r == (self.bank == DEFAULT_PERCUSSION_BANK),
    {
        self.bank == DEFAULT_PERCUSSION_BANK
    }
}

#[derive(Debug, Clone, Copy, PartialEq, Eq, Structural)]
pub struct Padding {
    pub right: i32,
    pub top: i32,
    pub left: i32,
    pub bottom: i32,
}

#[derive(Debug, Clone, Copy, PartialEq, Eq, Structural)]
pub struct Point {
    pub x: i32,
    pub y: i32,
}

/// Page layout of a GP5 file. The score size proportion is kept in percent.
#[derive(Debug, Clone, PartialEq)]
pub struct PageSetup {
    pub page_size: Point,
    pub page_margin: Padding,
    pub score_size_percent: i32,
    pub header_and_footer: i16,
    pub title: String,
    pub subtitle: String,
    pub artist: String,
    pub album: String,
    pub words: String,
    pub music: String,
    pub word_and_music: String,
    pub copyright: String,
    pub page_number: String,
}

#[derive(Debug, Clone, PartialEq)]
pub struct Lyrics {
    pub track_choice: i32,
    pub lines: Vec<(i32, String)>,
}

#[derive(Debug, Clone, PartialEq)]
pub struct SongInfo {
    pub name: String,
    pub subtitle: String,
    pub artist: String,
    pub album: String,
    pub author: String,
    pub words: Option<String>,
    pub copyright: String,
    pub writer: String,
    pub instructions: String,
    pub notices: Vec<String>,
}

impl SongInfo {
    /// Song information with every text empty.
    pub fn empty() -> (r: SongInfo)
        ensures
            r.name@.len() == 0,
            r.words.is_none(),
            r.notices@.len() == 0,
    {
        SongInfo {
            name: String::new(),
            subtitle: String::new(),
            artist: String::new(),
            album: String::new(),
            author: String::new(),
            words: None,
            copyright: String::new(),
            writer: String::new(),
            instructions: String::new(),
            notices: Vec::new(),
        }
    }
}

#[derive(Debug, Clone, PartialEq)]
pub struct Marker {
    pub title: String,
    pub color: i32,
}

#[derive(Debug, Clone, Copy, PartialEq, Eq, Structural)]
pub struct KeySignature {
    pub key: i8,
    pub is_minor: bool,
}

impl KeySignature {
    pub fn new(key: i8, is_minor: bool) -> (r: KeySignature)
        ensures
            r.key == key,
            r.is_minor == is_minor,
    {
        KeySignature { key, is_minor }
    }

    /// Position of the key in the table of names: seventeen majors from
    /// F flat (key -8) to G sharp, then the minors from D flat (at key -6).
    pub open spec fn name_index(&self) -> int {
        if self.is_minor {
            23 + self.key
        } else {
            8 + self.key
        }
    }

    /// The name of the key, such as "C major" for key 0.
    pub fn to_string(&self) -> (r: String)
        requires
            0 <= self.name_index() < 34,
        ensures
            self.key == 0 && !self.is_minor ==> r@ == "C major"@,
    {
        let index: i8 = if self.is_minor {
            23 + self.key
        } else {
            8 + self.key
        };
        let name = match index {
            0 => "F♭ major",
            1 => "C♭ major",
            2 => "G♭ major",
            3 => "D♭ major",
            4 => "A♭ major",
            5 => "E♭ major",
            6 => "B♭ major",
            7 => "F major",
            8 => "C major",
            9 => "G major",
            10 => "D major",
            11 => "A major",
            12 => "E major",
            13 => "B major",
            14 => "F# major",
            15 => "C# major",
            16 => "G# major",
            17 => "D♭ minor",
            18 => "A♭ minor",
            19 => "E♭ minor",
            20 => "B♭ minor",
            21 => "F minor",
            22 => "C minor",
            23 => "G minor",
            24 => "D minor",
            25 => "A minor",
            26 => "E minor",
            27 => "B minor",
            28 => "F# minor",
            29 => "C# minor",
            30 => "G# minor",
            31 => "D# minor",
            32 => "A# minor",
            _ => "E# minor",
        };
        proof {
            reveal_strlit("C major");
        }
        String::from_str(name)
    }
}

#[derive(Debug, Clone, Copy, PartialEq, Eq, Structural)]
pub enum TripletFeel {
    NoFeel,
    Eighth,
    Sixteenth,
}

#[derive(Debug, Clone, PartialEq)]
pub struct Tempo {
    pub value: i32,
    pub name: Option<String>,
}

impl Tempo {
    pub fn new(value: i32, name: Option<String>) -> (r: Tempo)
        ensures
            r.value == value,
            r.name == name,
    {
        Tempo { value, name }
    }
}

impl Default for Tempo {
    fn default() -> (r: Tempo)
        ensures
            r.value == 120,
            r.name.is_none(),
    {
        Tempo { value: 120, name: None }
    }
}

#[derive(Debug, Clone, PartialEq)]
pub struct MeasureHeader {
    pub start: i64,
    pub time_signature: TimeSignature,
    pub tempo: Tempo,
    pub marker: Option<Marker>,
    pub repeat_open: bool,
    pub repeat_alternative: u8,
    pub repeat_close: i8,
    pub triplet_feel: TripletFeel,
    pub key_signature: KeySignature,
}

impl Default for MeasureHeader {
    fn default() -> (r: MeasureHeader)
        ensures
            r.start == QUARTER_TIME,
            r.time_signature == TimeSignature::spec_default(),
            r.tempo.value == 120,
            r.marker.is_none(),
            !r.repeat_open,
            r.repeat_alternative == 0,
            r.repeat_close == 0,
            r.triplet_feel == TripletFeel::NoFeel,
            r.key_signature == (KeySignature { key: 0, is_minor: false }),
    {
        MeasureHeader {
            start: QUARTER_TIME,
            time_signature: TimeSignature::default(),
            tempo: Tempo::default(),
            marker: None,
            repeat_open: false,
            repeat_alternative: 0,
            repeat_close: 0,
            triplet_feel: TripletFeel::NoFeel,
            key_signature: KeySignature::new(0, false),
        }
    }
}

impl MeasureHeader {
    /// Length in ticks: the numerator times the tick length of the denominator.
    pub open spec fn spec_length(&self) -> int {
        self.time_signature.numerator * self.time_signature.denominator.spec_time()
    }

    pub fn length(&self) -> (r: i64)
        requires
            self.time_signature.denominator.wf(),
        ensures
            r == self.spec_length(),
    {
        let numerator = self.time_signature.numerator as i64;
        let denominator = self.time_signature.denominator.time() as i64;
        proof {
            assert(-128 <= numerator <= 127);
            assert(0 <= denominator <= 0xffff_ffff);
            assert(-128 * 0xffff_ffffi64 <= numerator * denominator <= 127 * 0xffff_ffffi64)
                by (nonlinear_arith)
                requires
                    -128 <= numerator <= 127,
                    0 <= denominator <= 0xffff_ffff,
            ;
        }
        numerator * denominator
    }
}

#[derive(Debug, Clone, Copy, PartialEq, Eq, Structural)]
pub struct TimeSignature {
    pub numerator: i8,
    pub denominator: Duration,
}

impl TimeSignature {
    pub open spec fn spec_default() -> TimeSignature {
        TimeSignature { numerator: 4, denominator: Duration::spec_default() }
    }
}

impl Default for TimeSignature {
    fn default() -> (r: TimeSignature)
        ensures
            r == TimeSignature::spec_default(),
    {
        TimeSignature { numerator: 4, denominator: Duration::default() }
    }
}

#[derive(Debug, Clone, Copy, PartialEq, Eq, Structural)]
pub struct Duration {
    pub value: u16,
    pub dotted: bool,
    pub double_dotted: bool,
    pub tuplet_enters: u8,
    pub tuplet_times: u8,
}

impl Duration {
    pub open spec fn spec_default() -> Duration {
        Duration {
            value: QUARTER,
            dotted: false,
            double_dotted: false,
            tuplet_enters: 1,
            tuplet_times: 1,
        }
    }

    /// A duration whose tick length is defined: a note value and a tuplet
    /// divisor that are not zero.
    pub open spec fn wf(&self) -> bool {
        self.value > 0 && self.tuplet_enters > 0
    }

    /// Numerator of the dot factor: 3/2 for a dotted note, 7/4 for a double-dotted one.
    pub open spec fn dot_num(&self) -> int {
        if self.dotted {
            3
        } else if self.double_dotted {
            7
        } else {
            1
        }
    }

    /// Denominator of the dot factor.
    pub open spec fn dot_den(&self) -> int {
        if self.dotted {
            2
        } else if self.double_dotted {
            4
        } else {
            1
        }
    }

    /// Ticks of the duration: a whole note is four quarters, divided by the note
    /// value, scaled by the dot factor and the tuplet ratio, truncated once.
    pub open spec fn spec_time(&self) -> int {
        (4 * QUARTER_TIME * self.dot_num() * self.tuplet_times) / (self.value * self.dot_den()
            * self.tuplet_enters)
    }

    /// `time` scaled by the tuplet ratio.
    pub open spec fn spec_convert_time(&self, time: int) -> int {
        (time * self.tuplet_times) / (self.tuplet_enters as int)
    }

    pub fn convert_time(&self, time: u32) -> (r: u32)
        requires
            self.tuplet_enters > 0,
        ensures
            r as int == self.spec_convert_time(time as int) || time as int * self.tuplet_times
                > u32::MAX && r == u32::MAX,
    {
        proof {
            assert((time as u64) * (self.tuplet_times as u64) <= 0xffff_ffffu64 * 255)
                by (nonlinear_arith)
                requires
                    time <= 0xffff_ffffu64,
                    self.tuplet_times <= 255,
            ;
        }
        let scaled: u64 = time as u64 * self.tuplet_times as u64;
        let r: u64 = scaled / self.tuplet_enters as u64;
        if r > u32::MAX as u64 {
            proof {
                assert(scaled > u32::MAX) by (nonlinear_arith)
                    requires
                        r > u32::MAX,
                        r == scaled / (self.tuplet_enters as u64),
                        self.tuplet_enters > 0,
                ;
            }
            u32::MAX
        } else {
            r as u32
        }
    }

    pub fn time(&self) -> (r: u32)
        requires
            self.wf(),
        ensures
            r == self.spec_time(),
    {
        let dn: u64 = if self.dotted {
            3
        } else if self.double_dotted {
            7
        } else {
            1
        };
        let dd: u64 = if self.dotted {
            2
        } else if self.double_dotted {
            4
        } else {
            1
        };
        proof {
            assert(3840 * dn * (self.tuplet_times as u64) <= 3840 * 7 * 255) by (nonlinear_arith)
                requires
                    dn <= 7,
                    self.tuplet_times <= 255,
            ;
            assert((self.value as u64) * dd * (self.tuplet_enters as u64) <= 65535 * 4 * 255)
                by (nonlinear_arith)
                requires
                    dd <= 4,
                    self.value <= 65535,
                    self.tuplet_enters <= 255,
            ;
        }
        let num: u64 = 3840 * dn * self.tuplet_times as u64;
        let den: u64 = self.value as u64 * dd * self.tuplet_enters as u64;
        proof {
            assert(den >= 1) by (nonlinear_arith)
                requires
                    den == self.value as u64 * dd * self.tuplet_enters as u64,
                    self.value >= 1,
                    dd >= 1,
                    self.tuplet_enters >= 1,
            ;
            assert(num / den <= num) by (nonlinear_arith)
                requires
                    den >= 1,
            ;
            assert(num == 4 * QUARTER_TIME * self.dot_num() * self.tuplet_times);
            assert(den == self.value * self.dot_den() * self.tuplet_enters);
        }
        (num / den) as u32
    }
}

impl Default for Duration {
    fn default() -> (r: Duration)
        ensures
            r == Duration::spec_default(),
    {
        Duration {
            value: QUARTER,
            dotted: false,
            double_dotted: false,
            tuplet_enters: 1,
            tuplet_times: 1,
        }
    }
}


#[derive(Debug, Clone, Copy, PartialEq, Eq, Structural)]
pub struct BendPoint {
    pub position: u8,
    pub value: i8,
}

impl BendPoint {
    /// Tick offset of the point within a span of `duration` ticks: positions run
    /// from 0 to 12 over the span.
    pub open spec fn spec_time(&self, duration: int) -> int {
        (duration * self.position) / (BEND_EFFECT_MAX_POSITION_LENGTH as int)
    }

    pub fn get_time(&self, duration: usize) -> (r: usize)
        requires
            duration * 255 <= usize::MAX,
        ensures
            r == self.spec_time(duration as int),
    {
        proof {
            assert(duration * self.position <= duration * 255) by (nonlinear_arith)
                requires
                    self.position <= 255,
            ;
        }
        (duration * self.position as usize) / 12
    }
}

#[derive(Debug, Clone, PartialEq, Eq)]
pub struct BendEffect {
    pub points: Vec<BendPoint>,
}

#[derive(Debug, Clone, PartialEq, Eq)]
pub struct TremoloBarEffect {
    pub points: Vec<BendPoint>,
}

#[derive(Debug, Clone, Copy, PartialEq, Eq, Structural)]
pub struct GraceEffect {
    pub duration: u8,
    pub fret: i8,
    pub is_dead: bool,
    pub is_on_beat: bool,
    pub transition: GraceEffectTransition,
    pub velocity: i16,
}

impl GraceEffect {
    /// Ticks of the grace note: its duration counts sixty-fourth triplets of
    /// 60 ticks each.
    pub fn duration_time(&self) -> (r: u32)
        ensures
            r == 60 * self.duration,
    {
        60 * self.duration as u32
    }
}

impl Default for GraceEffect {
    fn default() -> (r: GraceEffect)
        ensures
            r.duration == 0 && r.fret == 0 && !r.is_dead && !r.is_on_beat && r.transition
                == GraceEffectTransition::NoTransition && r.velocity == 0,
    {
        GraceEffect {
            duration: 0,
            fret: 0,
            is_dead: false,
            is_on_beat: false,
            transition: GraceEffectTransition::NoTransition,
            velocity: 0,
        }
    }
}

#[derive(Debug, Clone, Copy, PartialEq, Eq, Structural)]
pub enum GraceEffectTransition {
    NoTransition,
    Slide,
    Bend,
    Hammer,
}

impl GraceEffectTransition {
    /// The transition stored as 0 to 3.
    pub fn get_grace_effect_transition(value: i8) -> (r: GraceEffectTransition)
        requires
            0 <= value <= 3,
        ensures
            value == 0 ==> r == GraceEffectTransition::NoTransition,
            value == 1 ==> r == GraceEffectTransition::Slide,
            value == 2 ==> r == GraceEffectTransition::Bend,
            value == 3 ==> r == GraceEffectTransition::Hammer,
    {
        match value {
            0 => GraceEffectTransition::NoTransition,
            1 => GraceEffectTransition::Slide,
            2 => GraceEffectTransition::Bend,
            _ => GraceEffectTransition::Hammer,
        }
    }
}

#[derive(Debug, Clone, PartialEq, Eq)]
pub struct PitchClass {
    pub note: String,
    pub just: i8,
    /// flat (-1), none (0) or sharp (1).
    pub accidental: i8,
    pub value: i8,
    pub sharp: bool,
}

/// Whether pitch class `i` (0 to 11) is written with a sharp.
pub open spec fn is_sharp_class(i: int) -> bool {
    i == 1 || i == 3 || i == 6 || i == 8 || i == 10
}

/// Name of pitch class `i` (0 to 11) in sharps.
fn sharp_note_name(i: i8) -> (r: &'static str)
    requires
        0 <= i < 12,
{
    match i {
        0 => "C",
        1 => "C#",
        2 => "D",
        3 => "D#",
        4 => "E",
        5 => "F",
        6 => "F#",
        7 => "G",
        8 => "G#",
        9 => "A",
        10 => "A#",
        _ => "B",
    }
}

/// Rust's remainder of `a` by 12, with the sign of `a`.
pub open spec fn rem12(a: int) -> int {
    if a >= 0 {
        a % 12
    } else {
        -((-a) % 12)
    }
}

pub(crate) fn rem12_exec(a: i8) -> (r: i8)
    ensures
        r == rem12(a as int),
        -12 < r < 12,
{
    if a >= 0 {
        a % 12
    } else {
        let p: i16 = -(a as i16);
        -((p % 12) as i8)
    }
}

impl PitchClass {
    /// Pitch class of `just`. With an accidental the pitch is taken as given;
    /// without one it is spelled in sharps.
    pub fn from(just: i8, accidental: Option<i8>, sharp: Option<bool>) -> (r: PitchClass)
        requires
            accidental matches Some(a) ==> -128 <= rem12(just as int) + a <= 127,
        ensures
            ({
                let (pitch, acc) = match accidental {
                    Some(a) => (just as int, a as int),
                    None => {
                        let v = rem12(just as int);
                        let i = if v >= 0 { v } else { 12 + v };
                        let acc = if is_sharp_class(i) { 1int } else { 0int };
                        (v - acc, acc)
                    },
                };
                &&& r.just == rem12(pitch)
                &&& r.accidental == acc
                &&& r.value == rem12(pitch) + acc
                &&& (sharp.is_none() ==> r.sharp == (acc >= 0))
                &&& (sharp.is_some() ==> r.sharp)
                &&& (accidental is Some ==> r.note@.len() == 0)
            }),
    {
        let mut note = String::new();
        let pitch: i8;
        let accidental2: i8;
        if let Some(a) = accidental {
            pitch = just;
            accidental2 = a;
        } else {
            let value = rem12_exec(just);
            let i: i8 = if value >= 0 {
                value
            } else {
                12 + value
            };
            note = String::from_str(sharp_note_name(i));
            accidental2 = if i == 1 || i == 3 || i == 6 || i == 8 || i == 10 {
                1
            } else {
                0
            };
            pitch = value - accidental2;
        }
        let j = rem12_exec(pitch);
        let s = if sharp.is_none() {
            accidental2 >= 0
        } else {
            true
        };
        PitchClass { note, just: j, accidental: accidental2, value: j + accidental2, sharp: s }
    }
}

#[derive(Debug, Clone, Copy, PartialEq, Eq, Structural)]
pub enum HarmonicType {
    Natural,
    Artificial,
    Tapped,
    Pinch,
    Semi,
}

#[derive(Debug, Clone, Copy, PartialEq, Eq, Structural)]
pub enum Octave {
    NoOctave,
    Ottava,
    Quindicesima,
    OttavaBassa,
    QuindicesimaBassa,
}

impl Octave {
    /// The octave sign stored as 0 to 4.
    pub fn get_octave(value: u8) -> (r: Octave)
        requires
            value <= 4,
        ensures
            value == 0 ==> r == Octave::NoOctave,
            value == 1 ==> r == Octave::Ottava,
            value == 2 ==> r == Octave::Quindicesima,
            value == 3 ==> r == Octave::OttavaBassa,
            value == 4 ==> r == Octave::QuindicesimaBassa,
    {
        match value {
            0 => Octave::NoOctave,
            1 => Octave::Ottava,
            2 => Octave::Quindicesima,
            3 => Octave::OttavaBassa,
            _ => Octave::QuindicesimaBassa,
        }
    }
}

#[derive(Debug, Clone, PartialEq, Eq)]
pub struct HarmonicEffect {
    pub kind: HarmonicType,
    pub pitch: Option<PitchClass>,
    pub octave: Option<Octave>,
    pub right_hand_fret: Option<i8>,
}

impl Default for HarmonicEffect {
    fn default() -> (r: HarmonicEffect)
        ensures
            r.kind == HarmonicType::Natural,
            r.pitch.is_none(),
            r.octave.is_none(),
            r.right_hand_fret.is_none(),
    {
        HarmonicEffect { kind: HarmonicType::Natural, pitch: None, octave: None, right_hand_fret: None }
    }
}

#[derive(Debug, Clone, Copy, PartialEq, Eq, Structural)]
pub enum SlideType {
    IntoFromAbove,
    IntoFromBelow,
    ShiftSlideTo,
    LegatoSlideTo,
    OutDownwards,
    OutUpWards,
}

#[derive(Debug, Clone, Copy, PartialEq, Eq, Structural)]
pub struct TrillEffect {
    pub fret: i8,
    pub duration: Duration,
}

impl TrillEffect {
    /// Note value of a trill period stored as 1 to 3.
    pub fn from_trill_period(period: i8) -> (r: u16)
        requires
            1 <= period <= 3,
        ensures
            period == 1 ==> r == 16,
            period == 2 ==> r == 32,
            period == 3 ==> r == 64,
    {
        match period {
            1 => DURATION_SIXTEENTH as u16,
            2 => DURATION_THIRTY_SECOND as u16,
            _ => DURATION_SIXTY_FOURTH as u16,
        }
    }
}

#[derive(Debug, Clone, Copy, PartialEq, Eq, Structural)]
pub struct TremoloPickingEffect {
    pub duration: Duration,
}

impl TremoloPickingEffect {
    /// Note value of a tremolo picking speed stored as 1 to 3.
    pub fn from_tremolo_value(value: i8) -> (r: u16)
        requires
            1 <= value <= 3,
        ensures
            value == 1 ==> r == 8,
            value == 3 ==> r == 16,
            value == 2 ==> r == 32,
    {
        match value {
            1 => DURATION_EIGHTH as u16,
            3 => DURATION_SIXTEENTH as u16,
            _ => DURATION_THIRTY_SECOND as u16,
        }
    }
}

#[derive(Debug, Clone, Copy, PartialEq, Eq, Structural)]
pub enum NoteType {
    Rest,
    Normal,
    Tie,
    Dead,
    Unknown(u8),
}

impl NoteType {
    pub open spec fn spec_from(value: u8) -> NoteType {
        match value {
            0 => NoteType::Rest,
            1 => NoteType::Normal,
            2 => NoteType::Tie,
            3 => NoteType::Dead,
            _ => NoteType::Unknown(value),
        }
    }

    pub fn get_note_type(value: u8) -> (r: NoteType)
        ensures
            r == NoteType::spec_from(value),
    {
        match value {
            0 => NoteType::Rest,
            1 => NoteType::Normal,
            2 => NoteType::Tie,
            3 => NoteType::Dead,
            _ => NoteType::Unknown(value),
        }
    }
}

#[derive(Debug, Clone, PartialEq, Eq)]
pub struct NoteEffect {
    pub accentuated_note: bool,
    pub bend: Option<BendEffect>,
    pub ghost_note: bool,
    pub grace: Option<GraceEffect>,
    pub hammer: bool,
    pub harmonic: Option<HarmonicEffect>,
    pub heavy_accentuated_note: bool,
    pub let_ring: bool,
    pub palm_mute: bool,
    pub slide: Option<SlideType>,
    pub staccato: bool,
    pub tremolo_picking: Option<TremoloPickingEffect>,
    pub trill: Option<TrillEffect>,
    pub fade_in: bool,
    pub vibrato: bool,
    pub slap: SlapEffect,
    pub tremolo_bar: Option<TremoloBarEffect>,
}

impl NoteEffect {
    /// No effect at all.
    pub open spec fn is_plain(&self) -> bool {
        &&& !self.accentuated_note
        &&& self.bend.is_none()
        &&& !self.ghost_note
        &&& self.grace.is_none()
        &&& !self.hammer
        &&& self.harmonic.is_none()
        &&& !self.heavy_accentuated_note
        &&& !self.let_ring
        &&& !self.palm_mute
        &&& self.slide.is_none()
        &&& !self.staccato
        &&& self.tremolo_picking.is_none()
        &&& self.trill.is_none()
        &&& !self.fade_in
        &&& !self.vibrato
        &&& self.slap == SlapEffect::NoSlap
        &&& self.tremolo_bar.is_none()
    }
}

impl Default for NoteEffect {
    fn default() -> (r: NoteEffect)
        ensures
            r.is_plain(),
    {
        NoteEffect {
            accentuated_note: false,
            bend: None,
            ghost_note: false,
            grace: None,
            hammer: false,
            harmonic: None,
            heavy_accentuated_note: false,
            let_ring: false,
            palm_mute: false,
            slide: None,
            staccato: false,
            tremolo_picking: None,
            trill: None,
            fade_in: false,
            vibrato: false,
            slap: SlapEffect::NoSlap,
            tremolo_bar: None,
        }
    }
}

#[derive(Debug, Clone, PartialEq, Eq)]
pub struct Chord {
    pub length: u8,
    pub sharp: Option<bool>,
    pub root: Option<PitchClass>,
    pub bass: Option<PitchClass>,
    pub add: Option<bool>,
    pub name: String,
    pub first_fret: Option<u32>,
    pub strings: Vec<i8>,
    pub omissions: Vec<bool>,
    pub show: Option<bool>,
    pub new_format: Option<bool>,
}

#[derive(Debug, Clone, Copy, PartialEq, Eq, Structural)]
pub enum BeatStrokeDirection {
    NoStroke,
    Up,
    Down,
}

#[derive(Debug, Clone, Copy, PartialEq, Eq, Structural)]
pub struct BeatStroke {
    pub direction: BeatStrokeDirection,
    pub value: u16,
}

impl Default for BeatStroke {
    fn default() -> (r: BeatStroke)
        ensures
            r.direction == BeatStrokeDirection::NoStroke,
            r.value == 0,
    {
        BeatStroke { direction: BeatStrokeDirection::NoStroke, value: 0 }
    }
}

#[derive(Debug, Clone, Copy, PartialEq, Eq, Structural)]
pub enum SlapEffect {
    NoSlap,
    Tapping,
    Slapping,
    Popping,
}

#[derive(Debug, Clone, PartialEq, Eq)]
pub struct BeatEffects {
    pub stroke: BeatStroke,
    pub chord: Option<Chord>,
}

#[derive(Debug, Clone, PartialEq)]
pub struct Note {
    pub value: i16,
    pub velocity: i16,
    pub string: i8,
    pub effect: NoteEffect,
    pub swap_accidentals: bool,
    pub kind: NoteType,
    pub tuplet: Option<i8>,
}

impl Note {
    pub fn new(note_effect: NoteEffect) -> (r: Note)
        ensures
            r.value == 0,
            r.velocity == DEFAULT_VELOCITY,
            r.string == 1,
            r.effect == note_effect,
            !r.swap_accidentals,
            r.kind == NoteType::Rest,
            r.tuplet.is_none(),
    {
        Note {
            value: 0,
            velocity: DEFAULT_VELOCITY,
            string: 1,
            effect: note_effect,
            swap_accidentals: false,
            kind: NoteType::Rest,
            tuplet: None,
        }
    }
}

#[derive(Debug, Clone, PartialEq)]
pub struct Beat {
    pub notes: Vec<Note>,
    pub duration: Duration,
    pub empty: bool,
    pub text: String,
    pub start: i64,
    pub effect: BeatEffects,
}

#[derive(Debug, Clone, PartialEq)]
pub struct Voice {
    pub measure_index: i16,
    pub beats: Vec<Beat>,
}

#[derive(Debug, Clone, PartialEq)]
pub struct Measure {
    pub key_signature: KeySignature,
    pub time_signature: TimeSignature,
    pub track_index: usize,
    pub header_index: usize,
    pub voices: Vec<Voice>,
}

impl Default for Measure {
    fn default() -> (r: Measure)
        ensures
            r.key_signature == (KeySignature { key: 0, is_minor: false }),
            r.time_signature == TimeSignature::spec_default(),
            r.track_index == 0,
            r.header_index == 0,
            r.voices@.len() == 0,
    {
        Measure {
            key_signature: KeySignature::new(0, false),
            time_signature: TimeSignature::default(),
            track_index: 0,
            header_index: 0,
            voices: Vec::new(),
        }
    }
}

#[derive(Debug, Clone, PartialEq)]
pub struct Track {
    pub number: i32,
    pub offset: i32,
    pub channel_id: u8,
    pub solo: bool,
    pub mute: bool,
    pub visible: bool,
    pub name: String,
    pub strings: Vec<(i32, i32)>,
    pub color: i32,
    pub midi_port: u8,
    pub fret_count: u8,
    pub measures: Vec<Measure>,
}

impl Default for Track {
    fn default() -> (r: Track)
        ensures
            r.number == 1,
            r.offset == 0,
            r.channel_id == 0,
            !r.solo && !r.mute && r.visible,
            r.name@.len() == 0,
            r.strings@.len() == 0,
            r.color == 0,
            r.midi_port == 0,
            r.fret_count == 24,
            r.measures@.len() == 0,
    {
        Track {
            number: 1,
            offset: 0,
            channel_id: 0,
            solo: false,
            mute: false,
            visible: true,
            name: String::new(),
            strings: Vec::new(),
            color: 0,
            midi_port: 0,
            fret_count: 24,
            measures: Vec::new(),
        }
    }
}

} // verus!

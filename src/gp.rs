//! Decoding of the Guitar Pro file layout: version, song information,
//! channel table, measure headers, and the effects of beats and notes.
use vstd::prelude::*;
use crate::bytes::{
    is_rest_of, lemma_rest_drop, lemma_rest_refl, lemma_rest_trans, le_i32, parse_bool, parse_byte, parse_byte_size_string,
    parse_int, parse_int_byte_sized_string, parse_int_sized_string, parse_short,
    parse_signed_byte, skip, text_of, ParseFailure,
};
use crate::song::{
    convert_velocity, BeatStrokeDirection, BendEffect, BendPoint, Chord, Duration, GpVersion,
    GraceEffect, GraceEffectTransition, HarmonicEffect, HarmonicType, KeySignature, Lyrics,
    Marker, MeasureHeader, MidiChannel, Note, NoteEffect, Octave, Padding, PageSetup, PitchClass,
    Point, SlapEffect, SlideType, SongInfo, Tempo, TimeSignature, TremoloBarEffect,
    TremoloPickingEffect, TrillEffect, TripletFeel, DEFAULT_BANK,
    DEFAULT_PERCUSSION_BANK,
};

verus! {

/// `a / d` rounded to the nearest integer, for a ratio that is never halfway.
pub open spec fn round_div(a: int, d: int) -> int {
    (2 * a + d) / (2 * d)
}

fn round_div_exec(a: i64, d: i64) -> (r: i64)
    requires
        0 < d <= 1000,
        -0x1_0000_0000_0000 <= a <= 0x1_0000_0000_0000,
    ensures
        r == round_div(a as int, d as int),
{
    let n: i64 = 2 * a + d;
    let dd: i64 = 2 * d;
    if n >= 0 {
        n / dd
    } else {
        let q = (-n + dd - 1) / dd;
        proof {
            let ni = n as int;
            let di = dd as int;
            let qi = q as int;
            assert(-qi == ni / di) by (nonlinear_arith)
                requires
                    ni < 0,
                    di > 0,
                    qi == (-ni + di - 1) / di,
            ;
        }
        -q
    }
}

/// `x` clamped into the range of `u8`, as a float converts.
pub open spec fn sat_u8(x: int) -> int {
    if x < 0 {
        0
    } else if x > 255 {
        255
    } else {
        x
    }
}

/// `x` clamped into the range of `i8`, as a float converts.
pub open spec fn sat_i8(x: int) -> int {
    if x < -128 {
        -128
    } else if x > 127 {
        127
    } else {
        x
    }
}

fn to_u8_sat(x: i64) -> (r: u8)
    ensures
        r == sat_u8(x as int),
{
    if x < 0 {
        0
    } else if x > 255 {
        255
    } else {
        x as u8
    }
}

fn to_i8_sat(x: i64) -> (r: i8)
    ensures
        r == sat_i8(x as int),
{
    if x < -128 {
        -128
    } else if x > 127 {
        127
    } else {
        x as i8
    }
}

/// Reads an RGB color as `0xRRGGBB`; the fourth byte is ignored.
pub fn parse_color(i: &[u8]) -> (r: Result<(&[u8], i32), ParseFailure>)
    ensures
        r is Ok <==> i@.len() >= 4,
        r matches Ok((rest, c)) ==> rest@ == i@.subrange(4, i@.len() as int) && c == i@[0] * 65536
            + i@[1] * 256 + i@[2],
{
    let (i1, r) = parse_byte(i)?;
    let (i2, g) = parse_byte(i1)?;
    let (i3, b) = parse_byte(i2)?;
    let (i4, _ignore) = parse_byte(i3)?;
    proof {
        assert(i4@ =~= i@.subrange(4, i@.len() as int));
    }
    Ok((i4, r as i32 * 65536 + g as i32 * 256 + b as i32))
}

/// A marker is well stored at the front: a title length, the title and four
/// color bytes.
pub open spec fn marker_ok(i: Seq<u8>) -> bool {
    i.len() >= 4 && 0 <= crate::bytes::le_i32(i) <= i.len() - 8
}

/// Bytes of the marker at the front.
pub open spec fn marker_len(i: Seq<u8>) -> int {
    crate::bytes::le_i32(i) + 8
}

/// Reads a marker: its title and its color.
pub fn parse_marker(i: &[u8]) -> (r: Result<(&[u8], Marker), ParseFailure>)
    ensures
        r matches Ok((rest, _)) ==> is_rest_of(rest@, i@),
        r is Ok <==> marker_ok(i@),
        r matches Ok((rest, m)) ==> rest@ == i@.subrange(marker_len(i@), i@.len() as int) && m.color
            == i@[4 + crate::bytes::le_i32(i@)] * 65536 + i@[5 + crate::bytes::le_i32(i@)] * 256 + i@[6
            + crate::bytes::le_i32(i@)] && m.title@ == (if crate::bytes::le_i32(i@) == 0 {
            Seq::<char>::empty()
        } else {
            text_of(i@.subrange(4, 4 + crate::bytes::le_i32(i@)))
        }),
{
    let (i1, title) = parse_int_sized_string(i)?;
    let (i2, color) = parse_color(i1)?;
    proof {
        lemma_rest_trans(i@, i1@, i2@);
        assert(i2@ =~= i@.subrange(marker_len(i@), i@.len() as int));
    }
    Ok((i2, Marker { title, color }))
}

pub fn parse_triplet_feel(i: &[u8]) -> (r: Result<(&[u8], TripletFeel), ParseFailure>)
    ensures
        i@.len() == 0 ==> r is Err,
        r matches Ok((rest, t)) ==> rest@ == i@.subrange(1, i@.len() as int) && (i@[0] == 0 <==> t
            == TripletFeel::NoFeel) && (i@[0] == 1 <==> t == TripletFeel::Eighth) && (i@[0] == 2
            <==> t == TripletFeel::Sixteenth),
        i@.len() >= 1 ==> (r is Ok <==> i@[0] <= 2),
{
    let (rest, v) = parse_signed_byte(i)?;
    match v {
        0 => Ok((rest, TripletFeel::NoFeel)),
        1 => Ok((rest, TripletFeel::Eighth)),
        2 => Ok((rest, TripletFeel::Sixteenth)),
        _ => Err(ParseFailure::Malformed),
    }
}

/// Note value of a stored duration byte `v` (-4 to 27): a whole note for -2,
/// halving with each step up, kept in 16 bits.
pub open spec fn note_value_of(v: int) -> int {
    if v + 2 < 0 || v + 2 > 15 {
        0
    } else {
        pow2((v + 2) as nat)
    }
}

pub open spec fn pow2(n: nat) -> int
    decreases n,
{
    if n == 0 {
        1
    } else {
        2 * pow2((n - 1) as nat)
    }
}

proof fn lemma_pow2_le(n: nat)
    requires
        n <= 15,
    ensures
        1 <= pow2(n) <= 32768,
    decreases 15 - n,
{
    if n < 15 {
        lemma_pow2_le(n + 1);
        assert(pow2(n + 1) == 2 * pow2(n));
    } else {
        reveal_with_fuel(pow2, 16);
    }
}

/// The stored byte at the front read as a signed byte.
pub open spec fn front_i8(b: Seq<u8>) -> int {
    crate::bytes::le_i8(b)
}

/// Reads a duration: its value byte, and the tuplet when flag 0x20 is set.
/// Flag 0x01 marks a dotted note. A value byte outside -4 to 27 or an
/// unknown tuplet is malformed.
pub fn parse_duration(i: &[u8], flags: u8) -> (r: Result<(&[u8], Duration), ParseFailure>)
    ensures
        r matches Ok((rest, d)) ==> is_rest_of(rest@, i@) && d.dotted == (flags % 2 == 1)
            && !d.double_dotted && d.value == note_value_of(front_i8(i@)) && d.tuplet_enters >= 1,
        i@.len() == 0 ==> r is Err,
{
    let (i1, value) = parse_signed_byte(i)?;
    if value < -4 || value > 27 {
        return Err(ParseFailure::Malformed);
    }
    let mut note_value: u16 = 0;
    if value >= -2 && value <= 13 {
        let mut p: u16 = 1;
        let mut k: i8 = 0;
        while k < value + 2
            invariant
                0 <= k <= value + 2,
                -2 <= value <= 13,
                p == pow2(k as nat),
            decreases value + 2 - k,
        {
            proof {
                lemma_pow2_le((k + 1) as nat);
            }
            p = p * 2;
            k = k + 1;
        }
        note_value = p;
    }
    let mut d = Duration::default();
    d.value = note_value;
    d.dotted = flags & 0x01 != 0;
    proof {
        assert(flags & 0x01 != 0 <==> flags % 2 == 1) by (bit_vector);
    }
    if (flags & 0x20) == 0x20 {
        let (i2, tuplet) = parse_int(i1)?;
        if tuplet == 3 {
            d.tuplet_enters = 3;
            d.tuplet_times = 2;
        } else if 5 <= tuplet && tuplet <= 7 {
            d.tuplet_enters = tuplet as u8;
            d.tuplet_times = 4;
        } else if 9 <= tuplet && tuplet <= 13 {
            d.tuplet_enters = tuplet as u8;
            d.tuplet_times = 8;
        } else {
            return Err(ParseFailure::Malformed);
        }
        proof {
            lemma_rest_trans(i@, i1@, i2@);
        }
        return Ok((i2, d));
    }
    Ok((i1, d))
}


/// Reads the points of a bend or tremolo bar curve, after 5 skipped bytes:
/// positions are rescaled from 0..60 to 0..12, values divided by `value_div`
/// (and doubled when `double` is set), both rounded.
fn parse_points(i: &[u8], value_div: i64, double: bool) -> (r: Result<(&[u8], Vec<BendPoint>), ParseFailure>)
    requires
        value_div == 25,
    ensures
        r matches Ok((rest, _)) ==> is_rest_of(rest@, i@),
{
    let i0 = skip(i, 5);
    let (mut cur, num_points) = parse_int(i0)?;
    proof { lemma_rest_trans(i@, i0@, cur@); }
    let mut points: Vec<BendPoint> = Vec::new();
    let mut k: i32 = 0;
    while k < num_points
        invariant
            is_rest_of(cur@, i@),
            value_div == 25,
        decreases num_points - k,
    {
        let (c1, position) = parse_int(cur)?;
        let (c2, value) = parse_int(c1)?;
        let (c3, _vibrato) = parse_byte(c2)?;
        proof {
            lemma_rest_trans(i@, cur@, c1@);
            lemma_rest_trans(i@, c1@, c2@);
            lemma_rest_trans(i@, c2@, c3@);
        }
        let pos = to_u8_sat(round_div_exec(position as i64, 5));
        let val = if double {
            to_i8_sat(round_div_exec(2 * value as i64, value_div))
        } else {
            to_i8_sat(round_div_exec(value as i64, value_div))
        };
        points.push(BendPoint { position: pos, value: val });
        cur = c3;
        k = k + 1;
    }
    Ok((cur, points))
}

/// Reads a bend: points with positions on a 0 to 12 scale and values in
/// semitones (a stored unit is a 25th of a semitone).
pub fn parse_bend_effect(i: &[u8]) -> (r: Result<(&[u8], BendEffect), ParseFailure>)
    ensures
        r matches Ok((rest, _)) ==> is_rest_of(rest@, i@),
{
    let (rest, points) = parse_points(i, 25, false)?;
    Ok((rest, BendEffect { points }))
}

/// Reads a tremolo bar: points like a bend's, values in half-semitones.
pub fn parse_tremolo_bar(i: &[u8]) -> (r: Result<(&[u8], TremoloBarEffect), ParseFailure>)
    ensures
        r matches Ok((rest, _)) ==> is_rest_of(rest@, i@),
{
    let (rest, points) = parse_points(i, 25, true)?;
    Ok((rest, TremoloBarEffect { points }))
}

/// Reads a grace note: fret, dynamic, transition, duration, and from GP5 on
/// a flag byte (0x01 dead, 0x02 on the beat).
pub fn parse_grace_effect(i: &[u8], version: GpVersion) -> (r: Result<(&[u8], GraceEffect), ParseFailure>)
    ensures
        r matches Ok((rest, g)) ==> is_rest_of(rest@, i@) && g.fret == crate::bytes::le_i8(i@)
            && g.duration == i@[3],
        i@.len() < 4 ==> r is Err,
{
    let (i1, fret) = parse_byte(i)?;
    let (i2, velocity) = parse_byte(i1)?;
    let (i3, transition) = parse_signed_byte(i2)?;
    let (i4, duration) = parse_byte(i3)?;
    if transition < 0 || transition > 3 {
        return Err(ParseFailure::Malformed);
    }
    let mut g = GraceEffect::default();
    g.fret = if fret >= 128 {
        (fret as i16 - 256) as i8
    } else {
        fret as i8
    };
    g.velocity = convert_velocity(velocity as i16);
    g.transition = GraceEffectTransition::get_grace_effect_transition(transition);
    g.duration = duration;
    proof {
        assert(i4@ =~= i@.subrange(4, i@.len() as int));
        assert(i4@[0] == i@[4] || i4@.len() == 0);
    }
    if version.at_least(GpVersion::GP5) {
        let (i5, flags) = parse_byte(i4)?;
        g.is_dead = (flags & 0x01) == 0x01;
        g.is_on_beat = (flags & 0x02) == 0x02;
        proof { assert(i5@ =~= i@.subrange(5, i@.len() as int)); }
        return Ok((i5, g));
    }
    Ok((i4, g))
}

/// Reads a tremolo picking speed: 1 is eighths, 2 thirty-seconds, 3 sixteenths.
pub fn parse_tremolo_picking(i: &[u8]) -> (r: Result<(&[u8], TremoloPickingEffect), ParseFailure>)
    ensures
        r matches Ok((rest, t)) ==> rest@ == i@.subrange(1, i@.len() as int) && (i@[0] == 1 ==> t.duration.value == 8)
            && (i@[0] == 2 ==> t.duration.value == 32) && (i@[0] == 3 ==> t.duration.value == 16)
            && t.duration.tuplet_enters == 1,
        i@.len() >= 1 ==> (r is Ok <==> 1 <= i@[0] <= 3),
        i@.len() == 0 ==> r is Err,
{
    let (rest, tp) = parse_byte(i)?;
    if tp < 1 || tp > 3 {
        return Err(ParseFailure::Malformed);
    }
    let mut d = Duration::default();
    d.value = TremoloPickingEffect::from_tremolo_value(tp as i8);
    Ok((rest, TremoloPickingEffect { duration: d }))
}

/// The slide of a stored bit set: the lowest set bit of the six decides.
pub open spec fn slide_of(t: u8) -> Option<SlideType> {
    if t & 0x01 == 0x01 {
        Some(SlideType::ShiftSlideTo)
    } else if t & 0x02 == 0x02 {
        Some(SlideType::LegatoSlideTo)
    } else if t & 0x04 == 0x04 {
        Some(SlideType::OutDownwards)
    } else if t & 0x08 == 0x08 {
        Some(SlideType::OutUpWards)
    } else if t & 0x10 == 0x10 {
        Some(SlideType::IntoFromBelow)
    } else if t & 0x20 == 0x20 {
        Some(SlideType::IntoFromAbove)
    } else {
        None
    }
}

pub fn parse_slide_type(i: &[u8]) -> (r: Result<(&[u8], Option<SlideType>), ParseFailure>)
    ensures
        i@.len() >= 1 <==> r is Ok,
        r matches Ok((rest, t)) ==> rest@ == i@.subrange(1, i@.len() as int) && t == slide_of(i@[0]),
{
    let (rest, t) = parse_byte(i)?;
    let slide = if (t & 0x01) == 0x01 {
        Some(SlideType::ShiftSlideTo)
    } else if (t & 0x02) == 0x02 {
        Some(SlideType::LegatoSlideTo)
    } else if (t & 0x04) == 0x04 {
        Some(SlideType::OutDownwards)
    } else if (t & 0x08) == 0x08 {
        Some(SlideType::OutUpWards)
    } else if (t & 0x10) == 0x10 {
        Some(SlideType::IntoFromBelow)
    } else if (t & 0x20) == 0x20 {
        Some(SlideType::IntoFromAbove)
    } else {
        None
    };
    Ok((rest, slide))
}

/// Reads a trill: the trill fret and its period (1 sixteenths, 2
/// thirty-seconds, 3 sixty-fourths).
pub fn parse_trill_effect(i: &[u8]) -> (r: Result<(&[u8], TrillEffect), ParseFailure>)
    ensures
        r matches Ok((rest, t)) ==> rest@ == i@.subrange(2, i@.len() as int) && t.fret
            == crate::bytes::le_i8(i@) && t.duration.tuplet_enters == 1,
        i@.len() < 2 ==> r is Err,
{
    let (i1, fret) = parse_signed_byte(i)?;
    let (i2, period) = parse_signed_byte(i1)?;
    if period < 1 || period > 3 {
        return Err(ParseFailure::Malformed);
    }
    let mut d = Duration::default();
    d.value = TrillEffect::from_trill_period(period);
    proof { assert(i2@ =~= i@.subrange(2, i@.len() as int)); }
    Ok((i2, TrillEffect { fret, duration: d }))
}

/// Reads a harmonic: its kind, and for GP5 the pitch of an artificial
/// harmonic or the right-hand fret of a tapped one. Kinds 15, 17 and 22 are
/// artificial harmonics of older versions; any other kind is malformed.
pub fn parse_harmonic_effect(i: &[u8], version: GpVersion) -> (r: Result<(&[u8], HarmonicEffect), ParseFailure>)
    ensures
        r matches Ok((rest, h)) ==> is_rest_of(rest@, i@) && (i@[0] == 1 ==> h.kind == HarmonicType::Natural)
            && (i@[0] == 4 ==> h.kind == HarmonicType::Pinch) && (i@[0] == 5 ==> h.kind == HarmonicType::Semi),
        i@.len() == 0 ==> r is Err,
{
    let (i1, harmonic_type) = parse_signed_byte(i)?;
    let mut he = HarmonicEffect::default();
    let gp5 = version.at_least(GpVersion::GP5);
    let mut cur = i1;
    proof {
        lemma_rest_refl(i1@);
    }
    if harmonic_type == 1 {
        he.kind = HarmonicType::Natural;
    } else if harmonic_type == 2 {
        he.kind = HarmonicType::Artificial;
        if gp5 {
            let (c1, semitone) = parse_byte(cur)?;
            let (c2, accidental) = parse_signed_byte(c1)?;
            let (c3, octave) = parse_byte(c2)?;
            let just: i8 = if semitone >= 128 {
                (semitone as i16 - 256) as i8
            } else {
                semitone as i8
            };
            let value: i16 = crate::song::rem12_exec(just) as i16 + accidental as i16;
            if value < -128 || value > 127 || octave > 4 {
                return Err(ParseFailure::Malformed);
            }
            he.pitch = Some(PitchClass::from(just, Some(accidental), None));
            he.octave = Some(Octave::get_octave(octave));
            proof {
                lemma_rest_trans(i1@, cur@, c1@);
                lemma_rest_trans(i1@, c1@, c2@);
                lemma_rest_trans(i1@, c2@, c3@);
            }
            cur = c3;
        }
    } else if harmonic_type == 3 {
        he.kind = HarmonicType::Tapped;
        if gp5 {
            let (c1, fret) = parse_byte(cur)?;
            he.right_hand_fret = Some(if fret >= 128 {
                (fret as i16 - 256) as i8
            } else {
                fret as i8
            });
            proof {
                lemma_rest_trans(i1@, cur@, c1@);
            }
            cur = c1;
        }
    } else if harmonic_type == 4 {
        he.kind = HarmonicType::Pinch;
    } else if harmonic_type == 5 {
        he.kind = HarmonicType::Semi;
    } else if harmonic_type == 15 || harmonic_type == 17 || harmonic_type == 22 {
        if gp5 {
            return Err(ParseFailure::Malformed);
        }
        he.kind = HarmonicType::Artificial;
    } else {
        return Err(ParseFailure::Malformed);
    }
    proof {
        lemma_rest_trans(i@, i1@, cur@);
    }
    Ok((cur, he))
}


/// Reads the effects of a note from two flag bytes: hammer-on, let ring,
/// staccato, palm mute and vibrato flags, then the bend, grace note, tremolo
/// picking, slide, harmonic and trill that the flags announce.
pub fn parse_note_effects<'a>(i: &'a [u8], note: &mut Note, version: GpVersion) -> (r: Result<&'a [u8], ParseFailure>)
    ensures
        r matches Ok(rest) ==> is_rest_of(rest@, i@),
        final(note).value == old(note).value,
        final(note).string == old(note).string,
        final(note).effect.ghost_note == old(note).effect.ghost_note,
        final(note).effect.accentuated_note == old(note).effect.accentuated_note,
        final(note).effect.heavy_accentuated_note == old(note).effect.heavy_accentuated_note,
        r is Ok ==> final(note).effect.hammer == (i@[0] & 0x02 == 0x02)
            && final(note).effect.let_ring == (i@[0] & 0x08 == 0x08)
            && final(note).effect.staccato == (i@[1] & 0x01 == 0x01)
            && final(note).effect.palm_mute == (i@[1] & 0x02 == 0x02),
        i@.len() < 2 ==> r is Err,
{
    let (i1, flags1) = parse_byte(i)?;
    let (i2, flags2) = parse_byte(i1)?;
    proof { lemma_rest_trans(i@, i1@, i2@); }
    note.effect.hammer = (flags1 & 0x02) == 0x02;
    note.effect.let_ring = (flags1 & 0x08) == 0x08;
    note.effect.staccato = (flags2 & 0x01) == 0x01;
    note.effect.palm_mute = (flags2 & 0x02) == 0x02;
    note.effect.vibrato = (flags2 & 0x40) == 0x40 || note.effect.vibrato;
    proof {
        assert(flags1 == i@[0]);
        assert(flags2 == i@[1]);
    }
    let mut cur = i2;
    if (flags1 & 0x01) == 0x01 {
        let (c, bend) = parse_bend_effect(cur)?;
        proof { lemma_rest_trans(i@, cur@, c@); }
        note.effect.bend = Some(bend);
        cur = c;
    }
    if (flags1 & 0x10) == 0x10 {
        let (c, grace) = parse_grace_effect(cur, version)?;
        proof { lemma_rest_trans(i@, cur@, c@); }
        note.effect.grace = Some(grace);
        cur = c;
    }
    if (flags2 & 0x04) == 0x04 {
        let (c, tp) = parse_tremolo_picking(cur)?;
        proof { lemma_rest_trans(i@, cur@, c@); }
        note.effect.tremolo_picking = Some(tp);
        cur = c;
    }
    if (flags2 & 0x08) == 0x08 {
        let (c, slide) = parse_slide_type(cur)?;
        proof { lemma_rest_trans(i@, cur@, c@); }
        note.effect.slide = slide;
        cur = c;
    }
    if (flags2 & 0x10) == 0x10 {
        let (c, harmonic) = parse_harmonic_effect(cur, version)?;
        proof { lemma_rest_trans(i@, cur@, c@); }
        note.effect.harmonic = Some(harmonic);
        cur = c;
    }
    if (flags2 & 0x20) == 0x20 {
        let (c, trill) = parse_trill_effect(cur)?;
        proof { lemma_rest_trans(i@, cur@, c@); }
        note.effect.trill = Some(trill);
        cur = c;
    }
    Ok(cur)
}

/// Reads the effects of a beat: fade in, vibrato, slap, tremolo bar and
/// stroke. The note effects go to `note_effect`, which every note of the beat
/// starts from.
pub fn parse_beat_effects<'a>(
    i: &'a [u8],
    beat: &mut crate::song::Beat,
    note_effect: &mut NoteEffect,
) -> (r: Result<&'a [u8], ParseFailure>)
    ensures
        r matches Ok(rest) ==> is_rest_of(rest@, i@),
        final(beat).start == old(beat).start,
        final(beat).empty == old(beat).empty,
        final(beat).notes == old(beat).notes,
        r is Ok ==> final(note_effect).fade_in == (i@[0] & 0x10 != 0) && final(note_effect).vibrato
            == (i@[0] & 0x02 != 0),
        i@.len() < 2 ==> r is Err,
{
    let (i1, flags1) = parse_byte(i)?;
    let (i2, flags2) = parse_byte(i1)?;
    proof { lemma_rest_trans(i@, i1@, i2@); }
    note_effect.fade_in = flags1 & 0x10 != 0;
    note_effect.vibrato = flags1 & 0x02 != 0;
    let mut cur = i2;
    if flags1 & 0x20 != 0 {
        let (c, effect) = parse_byte(cur)?;
        proof { lemma_rest_trans(i@, cur@, c@); }
        note_effect.slap = if effect == 1 {
            SlapEffect::Slapping
        } else if effect == 2 {
            SlapEffect::Popping
        } else if effect == 3 {
            SlapEffect::Tapping
        } else {
            SlapEffect::NoSlap
        };
        cur = c;
    }
    if flags2 & 0x04 != 0 {
        let (c, bar) = parse_tremolo_bar(cur)?;
        proof { lemma_rest_trans(i@, cur@, c@); }
        note_effect.tremolo_bar = Some(bar);
        cur = c;
    }
    if flags1 & 0x40 != 0 {
        let (c1, stroke_up) = parse_signed_byte(cur)?;
        let (c2, stroke_down) = parse_signed_byte(c1)?;
        proof {
            lemma_rest_trans(i@, cur@, c1@);
            lemma_rest_trans(i@, c1@, c2@);
        }
        if stroke_up > 0 {
            beat.effect.stroke.value = stroke_up as u16;
            beat.effect.stroke.direction = BeatStrokeDirection::Up;
        }
        if stroke_down > 0 {
            beat.effect.stroke.value = stroke_down as u16;
            beat.effect.stroke.direction = BeatStrokeDirection::Down;
        }
        cur = c2;
    }
    if flags2 & 0x02 != 0 {
        let c = skip(cur, 1);
        proof { lemma_rest_trans(i@, cur@, c@); }
        cur = c;
    }
    Ok(cur)
}

/// Reads the frets of a chord diagram: `count` stored frets, of which those
/// below `string_count` are kept.
fn parse_chord_frets<'a>(i: &'a [u8], count: u8, strings: &mut Vec<i8>, string_count: u8) -> (r: Result<&'a [u8], ParseFailure>)
    requires
        old(strings)@.len() == string_count,
    ensures
        final(strings)@.len() == string_count,
        r matches Ok(rest) ==> is_rest_of(rest@, i@),
{
    let mut cur = i;
    proof { lemma_rest_refl(i@); }
    let mut c: u8 = 0;
    while c < count
        invariant
            strings@.len() == string_count,
            is_rest_of(cur@, i@),
        decreases count - c,
    {
        let (next, fret) = parse_int(cur)?;
        proof { lemma_rest_trans(i@, cur@, next@); }
        if c < string_count {
            strings.set(c as usize, #[verifier::truncate] (fret as i8));
        }
        cur = next;
        c = c + 1;
    }
    Ok(cur)
}

/// Reads a chord diagram, in the GP4 layout when bit 0x01 of its header byte
/// is clear, else in the GP5 layout.
pub fn parse_chord(i: &[u8], string_count: u8, version: GpVersion) -> (r: Result<(&[u8], Chord), ParseFailure>)
    ensures
        r matches Ok((rest, c)) ==> is_rest_of(rest@, i@) && c.strings@.len() == string_count,
{
    let mut strings: Vec<i8> = Vec::new();
    let mut k: u8 = 0;
    while k < string_count
        invariant
            strings@.len() == k,
            k <= string_count,
        decreases string_count - k,
    {
        strings.push(-1);
        k = k + 1;
    }
    let (i1, header) = parse_byte(i)?;
    let mut chord = Chord {
        length: 0,
        sharp: None,
        root: None,
        bass: None,
        add: None,
        name: String::new(),
        first_fret: None,
        strings: Vec::new(),
        omissions: Vec::new(),
        show: None,
        new_format: None,
    };
    let rest;
    if (header & 0x01) == 0 {
        let (i2, name) = parse_int_byte_sized_string(i1)?;
        let (i3, first_fret) = parse_int(i2)?;
        proof {
            lemma_rest_trans(i@, i1@, i2@);
            lemma_rest_trans(i@, i2@, i3@);
        }
        chord.name = name;
        chord.first_fret = Some(#[verifier::truncate] (first_fret as u32));
        if first_fret != 0 {
            let i4 = parse_chord_frets(i3, 6, &mut strings, string_count)?;
            proof { lemma_rest_trans(i@, i3@, i4@); }
            rest = i4;
        } else {
            rest = i3;
        }
    } else {
        let i2 = skip(i1, 16);
        let (i3, name) = parse_byte_size_string(i2, 21)?;
        let i4 = skip(i3, 4);
        let (i5, first_fret) = parse_int(i4)?;
        let i6 = parse_chord_frets(i5, 7, &mut strings, string_count)?;
        let i7 = skip(i6, 32);
        proof {
            lemma_rest_trans(i@, i1@, i2@);
            lemma_rest_drop(i2@, 22int);
            lemma_rest_trans(i@, i2@, i3@);
            lemma_rest_trans(i@, i3@, i4@);
            lemma_rest_trans(i@, i4@, i5@);
            lemma_rest_trans(i@, i5@, i6@);
            lemma_rest_trans(i@, i6@, i7@);
        }
        chord.name = name;
        chord.first_fret = Some(#[verifier::truncate] (first_fret as u32));
        rest = i7;
    }
    chord.strings = strings;
    Ok((rest, chord))
}


/// Whether any bit of `m` is set in `f`.
#[verifier::opaque]
pub open spec fn bit_set(f: u8, m: u8) -> bool {
    f & m != 0
}

fn test_bit(f: u8, m: u8) -> (r: bool)
    ensures
        r == bit_set(f, m),
{
    proof {
        reveal(bit_set);
    }
    f & m != 0
}

/// 1 when bit `m` of the flags is set, else 0.
pub open spec fn flag(f: u8, m: u8) -> int {
    if bit_set(f, m) {
        1
    } else {
        0
    }
}

/// Offset of the marker in a measure header with flags `f`.
pub open spec fn mh_marker_at(f: u8) -> int {
    1 + flag(f, 0x01) + flag(f, 0x02) + flag(f, 0x08)
}

/// Offset after the marker.
pub open spec fn mh_after_marker(i: Seq<u8>) -> int {
    mh_marker_at(i[0]) + (if bit_set(i[0], 0x20) {
        marker_len(i.subrange(mh_marker_at(i[0]), i.len() as int))
    } else {
        0
    })
}

/// Offset of the key signature.
pub open spec fn mh_key_at(i: Seq<u8>) -> int {
    mh_after_marker(i) + flag(i[0], 0x10)
}

/// Offset of the triplet feel byte of a GP5 header.
pub open spec fn mh_triplet_at(i: Seq<u8>) -> int {
    mh_key_at(i) + 2 * flag(i[0], 0x40) + (if bit_set(i[0], 0x01) || bit_set(i[0], 0x02) {
        4int
    } else {
        0
    }) + (if !bit_set(i[0], 0x10) {
        1int
    } else {
        0
    })
}

/// Bytes of the measure header at the front of `i`.
pub open spec fn mh_len(i: Seq<u8>, gp5: bool) -> int {
    if gp5 {
        mh_triplet_at(i) + 1
    } else {
        mh_key_at(i) + 2 * flag(i[0], 0x40)
    }
}

/// The front of `i` holds a whole measure header: the flags, each field they
/// announce, and for GP5 a known triplet feel.
pub open spec fn mh_ok(i: Seq<u8>, gp5: bool) -> bool {
    &&& i.len() >= 1
    &&& mh_marker_at(i[0]) <= i.len()
    &&& (bit_set(i[0], 0x20) ==> marker_ok(i.subrange(mh_marker_at(i[0]), i.len() as int)))
    &&& mh_len(i, gp5) <= i.len()
    &&& (gp5 ==> i[mh_triplet_at(i)] <= 2)
}

/// The triplet feel of a stored byte 0 to 2.
pub open spec fn triplet_of(b: u8) -> TripletFeel {
    if b == 0 {
        TripletFeel::NoFeel
    } else if b == 1 {
        TripletFeel::Eighth
    } else {
        TripletFeel::Sixteenth
    }
}

/// Reads a measure header. Its time signature is `previous_time_signature`
/// unless the flags announce a new numerator (0x01) or denominator (0x02);
/// then come the repeat close (0x08), the marker (0x20), the alternative
/// endings (0x10), the key signature (0x40), and for GP5 the triplet feel.
/// Its tempo starts as the song's tempo.
#[verifier::rlimit(100)]
pub fn parse_measure_header(
    i: &[u8],
    previous_time_signature: TimeSignature,
    song_tempo: i32,
    song_version: GpVersion,
) -> (r: Result<(&[u8], MeasureHeader), ParseFailure>)
    ensures
        r is Ok <==> mh_ok(i@, song_version.rank() >= GpVersion::GP5.rank()),
        r matches Ok((rest, mh)) ==> ({
            let f = i@[0];
            let gp5 = song_version.rank() >= GpVersion::GP5.rank();
            &&& rest@ == i@.subrange(mh_len(i@, gp5), i@.len() as int)
            &&& mh.tempo.value == song_tempo
            &&& mh.repeat_open == bit_set(f, 0x04)
            &&& (bit_set(f, 0x01) ==> mh.time_signature.numerator == crate::bytes::le_i8(i@.subrange(1, i@.len() as int)))
            &&& (!bit_set(f, 0x01) ==> mh.time_signature.numerator == previous_time_signature.numerator)
            &&& (!bit_set(f, 0x02) ==> mh.time_signature.denominator == previous_time_signature.denominator)
            &&& (bit_set(f, 0x02) ==> mh.time_signature.denominator.value == sat_signed_u16(
                crate::bytes::le_i8(i@.subrange(1 + flag(f, 0x01), i@.len() as int)),
            ) && mh.time_signature.denominator.tuplet_enters == 1)
            &&& mh.repeat_close == (if bit_set(f, 0x08) {
                crate::bytes::le_i8(i@.subrange(1 + flag(f, 0x01) + flag(f, 0x02), i@.len() as int))
            } else {
                0
            })
            &&& (!bit_set(f, 0x20) <==> mh.marker is None)
            &&& mh.repeat_alternative == (if bit_set(f, 0x10) {
                i@[mh_after_marker(i@)] as int
            } else {
                0
            })
            &&& (bit_set(f, 0x40) ==> mh.key_signature.key == crate::bytes::le_i8(
                i@.subrange(mh_key_at(i@), i@.len() as int),
            ) && mh.key_signature.is_minor == (i@[mh_key_at(i@) + 1] != 0))
            &&& (!bit_set(f, 0x40) ==> mh.key_signature == KeySignature { key: 0, is_minor: false })
            &&& mh.triplet_feel == (if gp5 {
                triplet_of(i@[mh_triplet_at(i@)])
            } else {
                TripletFeel::NoFeel
            })
        }),
        i@.len() == 0 ==> r is Err,
{
    let gp5 = song_version.at_least(GpVersion::GP5);
    let size = match measure_header_len(i, gp5) {
        Some(n) => n,
        None => {
            return Err(ParseFailure::Incomplete);
        },
    };
    let f = i[0];
    let (time_signature, repeat_close) = header_prefix(i, previous_time_signature);
    let marker = header_marker(i);
    let (repeat_alternative, key_signature, triplet_feel) = header_suffix(i, gp5);
    let mut mh = MeasureHeader::default();
    mh.tempo.value = song_tempo;
    mh.repeat_open = test_bit(f, 0x04);
    mh.time_signature = time_signature;
    mh.repeat_close = repeat_close;
    mh.marker = marker;
    mh.repeat_alternative = repeat_alternative;
    mh.key_signature = key_signature;
    mh.triplet_feel = triplet_feel;
    Ok((&i[size..i.len()], mh))
}

/// The time signature and repeat close of a measure header.
fn header_prefix(i: &[u8], previous_time_signature: TimeSignature) -> (r: (TimeSignature, i8))
    requires
        i@.len() >= 1,
        mh_marker_at(i@[0]) <= i@.len(),
    ensures
        ({
            let f = i@[0];
            let (ts, close) = r;
            &&& (bit_set(f, 0x01) ==> ts.numerator == crate::bytes::le_i8(i@.subrange(1, i@.len() as int)))
            &&& (!bit_set(f, 0x01) ==> ts.numerator == previous_time_signature.numerator)
            &&& (!bit_set(f, 0x02) ==> ts.denominator == previous_time_signature.denominator)
            &&& (bit_set(f, 0x02) ==> ts.denominator.value == sat_signed_u16(
                crate::bytes::le_i8(i@.subrange(1 + flag(f, 0x01), i@.len() as int)),
            ) && ts.denominator.tuplet_enters == 1)
            &&& close == (if bit_set(f, 0x08) {
                crate::bytes::le_i8(i@.subrange(1 + flag(f, 0x01) + flag(f, 0x02), i@.len() as int))
            } else {
                0
            })
        }),
{
    let f = i[0];
    let mut ts = previous_time_signature;
    let mut close: i8 = 0;
    let mut off: usize = 1;
    if test_bit(f, 0x01) {
        ts.numerator = signed(i[off]);
        proof { assert(i@.subrange(1, i@.len() as int)[0] == i@[1]); }
        off = off + 1;
    }
    if test_bit(f, 0x02) {
        let mut denominator = Duration::default();
        denominator.value = signed_to_u16(signed(i[off]));
        proof { assert(i@.subrange(off as int, i@.len() as int)[0] == i@[off as int]); }
        ts.denominator = denominator;
        off = off + 1;
    }
    if test_bit(f, 0x08) {
        close = signed(i[off]);
        proof { assert(i@.subrange(off as int, i@.len() as int)[0] == i@[off as int]); }
    }
    (ts, close)
}

/// The marker of a measure header, when its flag is set.
fn header_marker(i: &[u8]) -> (r: Option<Marker>)
    requires
        i@.len() >= 1,
        mh_marker_at(i@[0]) <= i@.len(),
        bit_set(i@[0], 0x20) ==> marker_ok(i@.subrange(mh_marker_at(i@[0]), i@.len() as int)),
    ensures
        r is Some <==> bit_set(i@[0], 0x20),
{
    let f = i[0];
    if !test_bit(f, 0x20) {
        return None;
    }
    let off: usize = 1 + (if test_bit(f, 0x01) { 1 } else { 0 }) + (if test_bit(f, 0x02) { 1 } else { 0 })
        + (if test_bit(f, 0x08) { 1 } else { 0 });
    match parse_marker(&i[off..i.len()]) {
        Ok((_, marker)) => Some(marker),
        Err(_) => None,
    }
}

/// The alternative endings, key signature and triplet feel of a measure
/// header.
fn header_suffix(i: &[u8], gp5: bool) -> (r: (u8, KeySignature, TripletFeel))
    requires
        mh_ok(i@, gp5),
    ensures
        ({
            let f = i@[0];
            let (alt, key, feel) = r;
            &&& alt == (if bit_set(f, 0x10) {
                i@[mh_after_marker(i@)] as int
            } else {
                0
            })
            &&& (bit_set(f, 0x40) ==> key.key == crate::bytes::le_i8(i@.subrange(mh_key_at(i@), i@.len() as int))
                && key.is_minor == (i@[mh_key_at(i@) + 1] != 0))
            &&& (!bit_set(f, 0x40) ==> key == KeySignature { key: 0, is_minor: false })
            &&& feel == (if gp5 {
                triplet_of(i@[mh_triplet_at(i@)])
            } else {
                TripletFeel::NoFeel
            })
        }),
{
    let f = i[0];
    let after = after_marker_offset(i);
    let mut alt: u8 = 0;
    if test_bit(f, 0x10) {
        alt = i[after];
    }
    let key_at: usize = after + if test_bit(f, 0x10) {
        1
    } else {
        0
    };
    assert(key_at == mh_key_at(i@));
    let mut key = KeySignature::new(0, false);
    if test_bit(f, 0x40) {
        key = KeySignature::new(signed(i[key_at]), i[key_at + 1] != 0);
        proof { assert(i@.subrange(key_at as int, i@.len() as int)[0] == i@[key_at as int]); }
    }
    let feel = if gp5 {
        let t = i[triplet_offset(i, key_at)];
        if t == 0 {
            TripletFeel::NoFeel
        } else if t == 1 {
            TripletFeel::Eighth
        } else {
            TripletFeel::Sixteenth
        }
    } else {
        TripletFeel::NoFeel
    };
    (alt, key, feel)
}

/// Offset just after the marker of a whole measure header.
fn after_marker_offset(i: &[u8]) -> (r: usize)
    requires
        i@.len() >= 1,
        mh_marker_at(i@[0]) <= i@.len(),
        bit_set(i@[0], 0x20) ==> marker_ok(i@.subrange(mh_marker_at(i@[0]), i@.len() as int)),
    ensures
        r == mh_after_marker(i@),
        r <= i@.len(),
{
    let f = i[0];
    let off: usize = 1 + (if test_bit(f, 0x01) { 1 } else { 0 }) + (if test_bit(f, 0x02) { 1 } else { 0 })
        + (if test_bit(f, 0x08) { 1 } else { 0 });
    if test_bit(f, 0x20) {
        let l = match parse_int(&i[off..i.len()]) {
            Ok((_, v)) => v,
            Err(_) => 0,
        };
        off + l as usize + 8
    } else {
        off
    }
}

/// Offset of the triplet feel byte of a whole GP5 measure header.
fn triplet_offset(i: &[u8], key_at: usize) -> (r: usize)
    requires
        mh_ok(i@, true),
        key_at == mh_key_at(i@),
    ensures
        r == mh_triplet_at(i@),
        r < i@.len(),
{
    let f = i[0];
    key_at + (if test_bit(f, 0x40) { 2 } else { 0 }) + (if test_bit(f, 0x01) || test_bit(f, 0x02) { 4 } else { 0 })
        + (if !test_bit(f, 0x10) { 1 } else { 0 })
}

/// Bytes of the measure header at the front of `i`, when it holds a whole one.
#[verifier::rlimit(100)]
fn measure_header_len(i: &[u8], gp5: bool) -> (r: Option<usize>)
    ensures
        r is Some <==> mh_ok(i@, gp5),
        r matches Some(n) ==> n == mh_len(i@, gp5),
{
    if i.len() < 1 {
        return None;
    }
    let f = i[0];
    let mut off: usize = 1;
    if test_bit(f, 0x01) {
        off = off + 1;
    }
    if test_bit(f, 0x02) {
        off = off + 1;
    }
    if test_bit(f, 0x08) {
        off = off + 1;
    }
    if off > i.len() {
        return None;
    }
    if test_bit(f, 0x20) {
        let m = &i[off..i.len()];
        if m.len() < 4 {
            return None;
        }
        let l = match parse_int(m) {
            Ok((_, v)) => v,
            Err(_) => {
                return None;
            },
        };
        if l < 0 || m.len() < 8 || l as usize > m.len() - 8 {
            return None;
        }
        off = off + l as usize + 8;
    }
    if test_bit(f, 0x10) {
        if off >= i.len() {
            return None;
        }
        off = off + 1;
    }
    if test_bit(f, 0x40) {
        if i.len() - off < 2 {
            return None;
        }
        off = off + 2;
    }
    if gp5 {
        if test_bit(f, 0x01) || test_bit(f, 0x02) {
            if i.len() - off < 4 {
                return None;
            }
            off = off + 4;
        }
        if !test_bit(f, 0x10) {
            if off >= i.len() {
                return None;
            }
            off = off + 1;
        }
        if off >= i.len() || i[off] > 2 {
            return None;
        }
        off = off + 1;
    }
    Some(off)
}

/// A byte read as a signed byte.
fn signed(b: u8) -> (r: i8)
    ensures
        r == crate::bytes::le_i8(seq![b]),
{
    if b >= 128 {
        (b as i16 - 256) as i8
    } else {
        b as i8
    }
}

/// A signed byte as the 16-bit unsigned value it converts to.
pub open spec fn sat_signed_u16(v: int) -> int {
    if v < 0 {
        v + 65536
    } else {
        v
    }
}

fn signed_to_u16(v: i8) -> (r: u16)
    ensures
        r == sat_signed_u16(v as int),
{
    if v < 0 {
        (v as i32 + 65536) as u16
    } else {
        v as u16
    }
}

/// Reads `measure_count` measure headers (at least one), each inheriting the
/// time signature of the one before; from GP5 on a byte stands between two
/// headers.
pub fn parse_measure_headers(
    i: &[u8],
    measure_count: i32,
    song_tempo: i32,
    version: GpVersion,
) -> (r: Result<(&[u8], Vec<MeasureHeader>), ParseFailure>)
    ensures
        r matches Ok((rest, headers)) ==> is_rest_of(rest@, i@) && headers@.len() == (if measure_count
            > 1 {
            measure_count as int
        } else {
            1
        }) && forall|k: int| 0 <= k < headers@.len() ==> headers@[k].tempo.value == song_tempo,
{
    let (mut cur, first_header) = parse_measure_header(i, TimeSignature::default(), song_tempo, version)?;
    let mut previous_time_signature = first_header.time_signature;
    let mut headers: Vec<MeasureHeader> = Vec::new();
    headers.push(first_header);
    let mut k: i32 = 1;
    while k < measure_count
        invariant
            1 <= k,
            k <= measure_count || k == 1,
            headers@.len() == k,
            is_rest_of(cur@, i@),
            forall|j: int| 0 <= j < headers@.len() ==> headers@[j].tempo.value == song_tempo,
        decreases measure_count - k,
    {
        if version.at_least(GpVersion::GP5) {
            let (c, _separator) = parse_byte(cur)?;
            proof { lemma_rest_trans(i@, cur@, c@); }
            cur = c;
        }
        let (c, header) = parse_measure_header(cur, previous_time_signature, song_tempo, version)?;
        proof { lemma_rest_trans(i@, cur@, c@); }
        previous_time_signature = header.time_signature;
        headers.push(header);
        cur = c;
        k = k + 1;
    }
    Ok((cur, headers))
}

/// Reads the channel `channel_id` of the channel table. Channel 9 is always
/// the percussion channel; a negative instrument reads as 0.
pub fn parse_midi_channel(i: &[u8], channel_id: u8) -> (r: Result<(&[u8], MidiChannel), ParseFailure>)
    ensures
        r is Ok <==> i@.len() >= 12,
        r matches Ok((rest, c)) ==> rest@ == i@.subrange(12, i@.len() as int) && c.channel_id
            == channel_id && c.effect_channel_id == 0 && (c.bank == DEFAULT_PERCUSSION_BANK
            <==> channel_id == 9) && c.instrument >= 0,
{
    if i.len() < 12 {
        return Err(ParseFailure::Incomplete);
    }
    let (i1, instrument) = parse_int(i)?;
    let (i2, volume) = parse_signed_byte(i1)?;
    let (i3, balance) = parse_signed_byte(i2)?;
    let (i4, chorus) = parse_signed_byte(i3)?;
    let (i5, reverb) = parse_signed_byte(i4)?;
    let (i6, phaser) = parse_signed_byte(i5)?;
    let (i7, tremolo) = parse_signed_byte(i6)?;
    let (i8, _blank) = parse_byte(i7)?;
    let (i9, _blank2) = parse_byte(i8)?;
    let bank = if channel_id == 9 {
        DEFAULT_PERCUSSION_BANK
    } else {
        DEFAULT_BANK
    };
    proof {
        assert(i9@ =~= i@.subrange(12, i@.len() as int));
    }
    Ok((
        i9,
        MidiChannel {
            channel_id,
            effect_channel_id: 0,
            instrument: if instrument < 0 {
                0
            } else {
                instrument
            },
            volume,
            balance,
            chorus,
            reverb,
            phaser,
            tremolo,
            bank,
        },
    ))
}

/// Reads the 64 channels of the channel table; channel `k` has id `k`.
pub fn parse_midi_channels(i: &[u8]) -> (r: Result<(&[u8], Vec<MidiChannel>), ParseFailure>)
    ensures
        r is Ok <==> i@.len() >= 768,
        r matches Ok((rest, channels)) ==> rest@ == i@.subrange(768, i@.len() as int)
            && channels@.len() == 64 && forall|k: int|
            0 <= k < 64 ==> channels@[k].channel_id == k && (channels@[k].bank
                == DEFAULT_PERCUSSION_BANK <==> k == 9) && channels@[k].instrument >= 0,
{
    if i.len() < 768 {
        return Err(ParseFailure::Incomplete);
    }
    let mut channels: Vec<MidiChannel> = Vec::new();
    let mut cur = i;
    let mut k: u8 = 0;
    while k < 64
        invariant
            k <= 64,
            i@.len() >= 768,
            channels@.len() == k,
            cur@ == i@.subrange(12 * k, i@.len() as int),
            forall|j: int|
                0 <= j < k ==> channels@[j].channel_id == j && (channels@[j].bank
                    == DEFAULT_PERCUSSION_BANK <==> j == 9) && channels@[j].instrument >= 0,
        decreases 64 - k,
    {
        let (c, channel) = parse_midi_channel(cur, k)?;
        proof {
            assert(c@ =~= i@.subrange(12 * (k + 1), i@.len() as int));
        }
        channels.push(channel);
        cur = c;
        k = k + 1;
    }
    Ok((cur, channels))
}

pub fn parse_point(i: &[u8]) -> (r: Result<(&[u8], Point), ParseFailure>)
    ensures
        r is Ok <==> i@.len() >= 8,
        r matches Ok((rest, p)) ==> rest@ == i@.subrange(8, i@.len() as int) && p.x == crate::bytes::le_i32(i@)
            && p.y == crate::bytes::le_i32(i@.subrange(4, i@.len() as int)),
{
    if i.len() < 8 {
        return Err(ParseFailure::Incomplete);
    }
    let (i1, x) = parse_int(i)?;
    let (i2, y) = parse_int(i1)?;
    proof {
        assert(i2@ =~= i@.subrange(8, i@.len() as int));
    }
    Ok((i2, Point { x, y }))
}

pub fn parse_padding(i: &[u8]) -> (r: Result<(&[u8], Padding), ParseFailure>)
    ensures
        r is Ok <==> i@.len() >= 16,
        r matches Ok((rest, p)) ==> rest@ == i@.subrange(16, i@.len() as int) && p.right
            == crate::bytes::le_i32(i@),
{
    if i.len() < 16 {
        return Err(ParseFailure::Incomplete);
    }
    let (i1, right) = parse_int(i)?;
    let (i2, top) = parse_int(i1)?;
    let (i3, left) = parse_int(i2)?;
    let (i4, bottom) = parse_int(i3)?;
    proof {
        assert(i4@ =~= i@.subrange(16, i@.len() as int));
    }
    Ok((i4, Padding { right, top, left, bottom }))
}

/// Reads the page setup of a GP5 file; the two copyright lines are joined by
/// a line break.
pub fn parse_page_setup(i: &[u8]) -> (r: Result<(&[u8], PageSetup), ParseFailure>)
    ensures
        r matches Ok((rest, _)) ==> is_rest_of(rest@, i@),
{
    let (i1, page_size) = parse_point(i)?;
    let (i2, page_margin) = parse_padding(i1)?;
    let (i3, score_size_percent) = parse_int(i2)?;
    let (i4, header_and_footer) = parse_short(i3)?;
    let (i5, title) = parse_int_sized_string(i4)?;
    let (i6, subtitle) = parse_int_sized_string(i5)?;
    let (i7, artist) = parse_int_sized_string(i6)?;
    let (i8, album) = parse_int_sized_string(i7)?;
    let (i9, words) = parse_int_sized_string(i8)?;
    let (i10, music) = parse_int_sized_string(i9)?;
    let (i11, word_and_music) = parse_int_sized_string(i10)?;
    let (i12, copyright_1) = parse_int_sized_string(i11)?;
    let (i13, copyright_2) = parse_int_sized_string(i12)?;
    let (i14, page_number) = parse_int_sized_string(i13)?;
    proof {
        lemma_rest_drop(i@, 8);
        lemma_rest_drop(i1@, 16);
        lemma_rest_trans(i@, i1@, i2@);
        lemma_rest_trans(i@, i2@, i3@);
        lemma_rest_trans(i@, i3@, i4@);
        lemma_rest_trans(i@, i4@, i5@);
        lemma_rest_trans(i@, i5@, i6@);
        lemma_rest_trans(i@, i6@, i7@);
        lemma_rest_trans(i@, i7@, i8@);
        lemma_rest_trans(i@, i8@, i9@);
        lemma_rest_trans(i@, i9@, i10@);
        lemma_rest_trans(i@, i10@, i11@);
        lemma_rest_trans(i@, i11@, i12@);
        lemma_rest_trans(i@, i12@, i13@);
        lemma_rest_trans(i@, i13@, i14@);
    }
    let mut copyright = copyright_1;
    copyright.append("\n");
    copyright.append(copyright_2.as_str());
    Ok((
        i14,
        PageSetup {
            page_size,
            page_margin,
            score_size_percent,
            header_and_footer,
            title,
            subtitle,
            artist,
            album,
            words,
            music,
            word_and_music,
            copyright,
            page_number,
        },
    ))
}

/// Reads the lyrics: the track they belong to and five lines, each with the
/// measure it starts at.
pub fn parse_lyrics(i: &[u8]) -> (r: Result<(&[u8], Lyrics), ParseFailure>)
    ensures
        r matches Ok((rest, l)) ==> is_rest_of(rest@, i@) && l.lines@.len() == 5,
{
    let (mut cur, track_choice) = parse_int(i)?;
    let mut lines: Vec<(i32, String)> = Vec::new();
    let mut k: u8 = 0;
    while k < 5
        invariant
            k <= 5,
            lines@.len() == k,
            is_rest_of(cur@, i@),
        decreases 5 - k,
    {
        let (c1, start) = parse_int(cur)?;
        let (c2, text) = parse_int_sized_string(c1)?;
        proof {
            lemma_rest_trans(i@, cur@, c1@);
            lemma_rest_trans(i@, c1@, c2@);
        }
        lines.push((start, text));
        cur = c2;
        k = k + 1;
    }
    Ok((cur, Lyrics { track_choice, lines }))
}

/// The version named by the text of the version field.
pub open spec fn version_named(text: Seq<char>) -> Option<GpVersion> {
    if text == "FICHIER GUITAR PRO v3.00"@ {
        Some(GpVersion::GP3)
    } else if text == "FICHIER GUITAR PRO v4.00"@ {
        Some(GpVersion::GP4)
    } else if text == "FICHIER GUITAR PRO v4.06"@ {
        Some(GpVersion::GP4_06)
    } else if text == "FICHIER GUITAR PRO v5.00"@ {
        Some(GpVersion::GP5)
    } else if text == "FICHIER GUITAR PRO v5.10"@ {
        Some(GpVersion::GP5_10)
    } else {
        None
    }
}

/// Reads the version from the 30-byte version field at the start of a file.
/// An unknown version is malformed.
pub fn parse_gp_version(i: &[u8]) -> (r: Result<(&[u8], GpVersion), ParseFailure>)
    ensures
        r is Ok ==> i@.len() >= 31,
        r matches Ok((rest, v)) ==> rest@ == i@.subrange(31, i@.len() as int) && Some(v)
            == version_named(text_of(i@.subrange(1, 1 + (if i@[0] > 30 { 30 } else { i@[0] as int })))),
        (i@.len() >= 1 && i@[0] <= i@.len() - 1 && 30 <= i@.len() - 1) ==> (r is Ok <==> version_named(
            text_of(i@.subrange(1, 1 + (if i@[0] > 30 { 30 } else { i@[0] as int })))) is Some),
{
    let (rest, text) = parse_byte_size_string(i, 30)?;
    let v = if text == String::from_str("FICHIER GUITAR PRO v3.00") {
        GpVersion::GP3
    } else if text == String::from_str("FICHIER GUITAR PRO v4.00") {
        GpVersion::GP4
    } else if text == String::from_str("FICHIER GUITAR PRO v4.06") {
        GpVersion::GP4_06
    } else if text == String::from_str("FICHIER GUITAR PRO v5.00") {
        GpVersion::GP5
    } else if text == String::from_str("FICHIER GUITAR PRO v5.10") {
        GpVersion::GP5_10
    } else {
        return Err(ParseFailure::Malformed);
    };
    Ok((rest, v))
}

/// Reads the notices: a count, then that many strings.
pub fn parse_notices(i: &[u8]) -> (r: Result<(&[u8], Vec<String>), ParseFailure>)
    ensures
        r matches Ok((rest, _)) ==> is_rest_of(rest@, i@),
{
    let (mut cur, count) = parse_int(i)?;
    let mut notices: Vec<String> = Vec::new();
    let mut k: i32 = 0;
    while k < count
        invariant
            is_rest_of(cur@, i@),
        decreases count - k,
    {
        let (c, notice) = parse_int_byte_sized_string(cur)?;
        proof { lemma_rest_trans(i@, cur@, c@); }
        notices.push(notice);
        cur = c;
        k = k + 1;
    }
    Ok((cur, notices))
}

/// Reads the information about the piece; the words field exists from GP5 on.
pub fn parse_info(i: &[u8], version: GpVersion) -> (r: Result<(&[u8], SongInfo), ParseFailure>)
    ensures
        r matches Ok((rest, info)) ==> is_rest_of(rest@, i@) && (info.words is Some <==> version.rank()
            >= GpVersion::GP5.rank()),
{
    let (i1, name) = parse_int_byte_sized_string(i)?;
    let (i2, subtitle) = parse_int_byte_sized_string(i1)?;
    let (i3, artist) = parse_int_byte_sized_string(i2)?;
    let (i4, album) = parse_int_byte_sized_string(i3)?;
    let (i5, author) = parse_int_byte_sized_string(i4)?;
    proof {
        lemma_rest_trans(i@, i1@, i2@);
        lemma_rest_trans(i@, i2@, i3@);
        lemma_rest_trans(i@, i3@, i4@);
        lemma_rest_trans(i@, i4@, i5@);
    }
    let mut cur = i5;
    let mut words = None;
    if version.at_least(GpVersion::GP5) {
        let (c, w) = parse_int_byte_sized_string(cur)?;
        proof { lemma_rest_trans(i@, cur@, c@); }
        words = Some(w);
        cur = c;
    }
    let (i6, copyright) = parse_int_byte_sized_string(cur)?;
    let (i7, writer) = parse_int_byte_sized_string(i6)?;
    let (i8, instructions) = parse_int_byte_sized_string(i7)?;
    let (i9, notices) = parse_notices(i8)?;
    proof {
        lemma_rest_trans(i@, cur@, i6@);
        lemma_rest_trans(i@, i6@, i7@);
        lemma_rest_trans(i@, i7@, i8@);
        lemma_rest_trans(i@, i8@, i9@);
    }
    Ok((
        i9,
        SongInfo {
            name,
            subtitle,
            artist,
            album,
            author,
            words,
            copyright,
            writer,
            instructions,
            notices,
        },
    ))
}


/// The text of the 30-byte version field at the start of a file.
pub open spec fn version_text(i: Seq<u8>) -> Seq<char> {
    text_of(i.subrange(1, 1 + (if i[0] > 30 { 30 } else { i[0] as int })))
}

/// The 64 channels of a song: channel `k` has id `k`, only channel 9 plays
/// percussion, and no instrument is negative.
pub open spec fn channel_table_ok(channels: Seq<MidiChannel>) -> bool {
    &&& channels.len() == 64
    &&& forall|k: int|
        0 <= k < 64 ==> #[trigger] channels[k].channel_id == k && (channels[k].bank
            == DEFAULT_PERCUSSION_BANK <==> k == 9) && channels[k].instrument >= 0
}

/// The song read from the header block of a file, with no measures yet.
fn parse_song_header(i: &[u8]) -> (r: Result<(&[u8], crate::song::Song), ParseFailure>)
    ensures
        r matches Ok((rest, song)) ==> is_rest_of(rest@, i@) && song.tracks@.len() == 0
            && channel_table_ok(song.midi_channels@),
        r is Ok ==> i@.len() >= 31,
        r matches Ok((_, song)) ==> Some(song.version) == version_named(version_text(i@)),
        i@.len() >= 31 && i@[0] <= i@.len() - 1 && version_named(version_text(i@)) is None ==> r is Err,
{
    let (i1, version) = parse_gp_version(i)?;
    let (i2, song_info) = parse_info(i1, version)?;
    proof {
        lemma_rest_drop(i@, 31);
        lemma_rest_trans(i@, i1@, i2@);
    }
    let mut cur = i2;
    let mut triplet_feel = None;
    if !version.at_least(GpVersion::GP5) {
        let (c, t) = parse_bool(cur)?;
        proof { lemma_rest_trans(i@, cur@, c@); }
        triplet_feel = Some(t);
        cur = c;
    }
    let mut lyrics = None;
    if version.at_least(GpVersion::GP4) {
        let (c, l) = parse_lyrics(cur)?;
        proof { lemma_rest_trans(i@, cur@, c@); }
        lyrics = Some(l);
        cur = c;
    }
    if version.at_least(GpVersion::GP5_10) {
        if cur.len() < 19 {
            return Err(ParseFailure::Incomplete);
        }
        let c = skip(cur, 19);
        proof { lemma_rest_trans(i@, cur@, c@); }
        cur = c;
    }
    let mut page_setup = None;
    let mut tempo_name = None;
    if version.at_least(GpVersion::GP5) {
        let (c1, p) = parse_page_setup(cur)?;
        let (c2, name) = parse_int_sized_string(c1)?;
        proof {
            lemma_rest_trans(i@, cur@, c1@);
            lemma_rest_trans(i@, c1@, c2@);
        }
        page_setup = Some(p);
        tempo_name = Some(name);
        cur = c2;
    }
    let (c3, tempo) = parse_int(cur)?;
    proof { lemma_rest_trans(i@, cur@, c3@); }
    cur = c3;
    let mut hide_tempo = None;
    if version == GpVersion::GP5_10 {
        let (c, h) = parse_bool(cur)?;
        proof { lemma_rest_trans(i@, cur@, c@); }
        hide_tempo = Some(h);
        cur = c;
    }
    let (c4, key_signature) = parse_signed_byte(cur)?;
    proof { lemma_rest_trans(i@, cur@, c4@); }
    cur = c4;
    let mut octave = None;
    if version.at_least(GpVersion::GP4) {
        let (c, o) = parse_int(cur)?;
        proof { lemma_rest_trans(i@, cur@, c@); }
        octave = Some(o);
        cur = c;
    }
    let (c5, midi_channels) = parse_midi_channels(cur)?;
    proof {
        lemma_rest_drop(cur@, 768);
        lemma_rest_trans(i@, cur@, c5@);
    }
    Ok((
        c5,
        crate::song::Song {
            version,
            song_info,
            triplet_feel,
            lyrics,
            page_setup,
            tempo: Tempo::new(tempo, tempo_name),
            hide_tempo,
            key_signature,
            octave,
            midi_channels,
            measure_headers: Vec::new(),
            tracks: Vec::new(),
        },
    ))
}

/// Parses a whole Guitar Pro file. Every song it returns has its measure grid
/// laid out on the timeline of its headers.
pub fn parse_gp_data(file_data: &[u8]) -> (r: Result<crate::song::Song, crate::error::RuxError>)
    ensures
        r matches Ok(song) ==> song.well_structured() && channel_table_ok(song.midi_channels@),
        r matches Ok(song) ==> Some(song.version) == version_named(version_text(file_data@)),
        file_data@.len() >= 31 && file_data@[0] <= file_data@.len() - 1 && version_named(
            version_text(file_data@),
        ) is None ==> r is Err,
        r matches Err(e) ==> e is ParsingError,
        file_data@.len() < 31 ==> r is Err,
{
    let (rest, base_song) = match parse_song_header(file_data) {
        Ok(v) => v,
        Err(_) => {
            return Err(crate::error::RuxError::ParsingError(String::from_str("Failed to parse GP data")));
        },
    };
    let mut parser = crate::music::MusicParser::new(base_song);
    match parser.parse_music_data(rest) {
        Ok(_) => {},
        Err(_) => {
            return Err(crate::error::RuxError::ParsingError(String::from_str("Failed to parse music data")));
        },
    }
    let song = parser.take_song();
    Ok(song)
}

} // verus!

//! Primitive decoding of little-endian integers and length-prefixed strings.
//! Each function reads from the front of its input and returns what is left
//! of it together with the value read.
use vstd::prelude::*;

verus! {

/// Why a byte stream could not be decoded.
#[derive(Debug, Clone, Copy, PartialEq, Eq, Structural)]
pub enum ParseFailure {
    /// The input ends before the value does.
    Incomplete,
    /// The input holds a value that the format does not allow.
    Malformed,
    /// The input asks for more chunks than a file may hold.
    TooLarge,
}

/// `rest` is what is left of `input` once its first `input.len() - rest.len()`
/// bytes are read.
pub open spec fn is_rest_of(rest: Seq<u8>, input: Seq<u8>) -> bool {
    rest.len() <= input.len() && rest == input.subrange(input.len() - rest.len(), input.len() as int)
}

/// Reading on from a rest gives a rest of the first input.
pub proof fn lemma_rest_trans(a: Seq<u8>, b: Seq<u8>, c: Seq<u8>)
    requires
        is_rest_of(b, a),
        is_rest_of(c, b),
    ensures
        is_rest_of(c, a),
{
    assert(c =~= a.subrange(a.len() - c.len(), a.len() as int));
}

/// An input is a rest of itself.
pub proof fn lemma_rest_refl(a: Seq<u8>)
    ensures
        is_rest_of(a, a),
{
    assert(a =~= a.subrange(0, a.len() as int));
}

/// Dropping the first `n` bytes leaves a rest.
pub proof fn lemma_rest_drop(a: Seq<u8>, n: int)
    requires
        0 <= n <= a.len(),
    ensures
        is_rest_of(a.subrange(n, a.len() as int), a),
{
    assert(a.subrange(n, a.len() as int) =~= a.subrange(a.len() - (a.len() - n), a.len() as int));
}

/// The byte at the front read as a signed byte.
pub open spec fn le_i8(b: Seq<u8>) -> int {
    if b[0] >= 128 {
        b[0] - 256
    } else {
        b[0] as int
    }
}

/// The first two bytes read as a little-endian signed 16-bit integer.
pub open spec fn le_i16(b: Seq<u8>) -> int {
    let u = b[0] + 256 * b[1];
    if u >= 32768 {
        u - 65536
    } else {
        u
    }
}

/// The first four bytes read as a little-endian signed 32-bit integer.
pub open spec fn le_i32(b: Seq<u8>) -> int {
    let u = b[0] + 256 * b[1] + 65536 * b[2] + 16777216 * b[3];
    if u >= 2147483648 {
        u - 4294967296
    } else {
        u
    }
}

/// Reads one unsigned byte.
pub fn parse_byte(i: &[u8]) -> (r: Result<(&[u8], u8), ParseFailure>)
    ensures
        i@.len() >= 1 <==> r is Ok,
        r is Err ==> r == Err::<(&[u8], u8), ParseFailure>(ParseFailure::Incomplete),
        r matches Ok((rest, v)) ==> v == i@[0] && rest@ == i@.subrange(1, i@.len() as int),
        r matches Ok((rest, _)) ==> is_rest_of(rest@, i@),
{
    if i.len() < 1 {
        return Err(ParseFailure::Incomplete);
    }
    proof {
        lemma_rest_drop(i@, 1);
    }
    Ok((&i[1..i.len()], i[0]))
}

/// Reads one signed byte.
pub fn parse_signed_byte(i: &[u8]) -> (r: Result<(&[u8], i8), ParseFailure>)
    ensures
        i@.len() >= 1 <==> r is Ok,
        r is Err ==> r == Err::<(&[u8], i8), ParseFailure>(ParseFailure::Incomplete),
        r matches Ok((rest, v)) ==> v == le_i8(i@) && rest@ == i@.subrange(
            1,
            i@.len() as int,
        ),
        r matches Ok((rest, _)) ==> is_rest_of(rest@, i@),
{
    if i.len() < 1 {
        return Err(ParseFailure::Incomplete);
    }
    let b = i[0];
    let v: i8 = if b >= 128 {
        (b as i16 - 256) as i8
    } else {
        b as i8
    };
    proof {
        lemma_rest_drop(i@, 1);
    }
    Ok((&i[1..i.len()], v))
}

/// Reads a byte as a boolean: 1 is true, any other value false.
pub fn parse_bool(i: &[u8]) -> (r: Result<(&[u8], bool), ParseFailure>)
    ensures
        i@.len() >= 1 <==> r is Ok,
        r is Err ==> r == Err::<(&[u8], bool), ParseFailure>(ParseFailure::Incomplete),
        r matches Ok((rest, v)) ==> v == (i@[0] == 1) && rest@ == i@.subrange(1, i@.len() as int),
        r matches Ok((rest, _)) ==> is_rest_of(rest@, i@),
{
    let (rest, b) = parse_byte(i)?;
    proof {
        lemma_rest_drop(i@, 1);
    }
    Ok((rest, b == 1))
}

/// Reads a little-endian 16-bit signed integer.
pub fn parse_short(i: &[u8]) -> (r: Result<(&[u8], i16), ParseFailure>)
    ensures
        i@.len() >= 2 <==> r is Ok,
        r is Err ==> r == Err::<(&[u8], i16), ParseFailure>(ParseFailure::Incomplete),
        r matches Ok((rest, v)) ==> v == le_i16(i@) && rest@ == i@.subrange(
            2,
            i@.len() as int,
        ),
        r matches Ok((rest, _)) ==> is_rest_of(rest@, i@),
{
    if i.len() < 2 {
        return Err(ParseFailure::Incomplete);
    }
    let u: u32 = i[0] as u32 + 256 * i[1] as u32;
    let v: i16 = if u >= 32768 {
        (u as i32 - 65536) as i16
    } else {
        u as i16
    };
    proof {
        lemma_rest_drop(i@, 2);
    }
    Ok((&i[2..i.len()], v))
}

/// Reads a little-endian 32-bit signed integer.
pub fn parse_int(i: &[u8]) -> (r: Result<(&[u8], i32), ParseFailure>)
    ensures
        i@.len() >= 4 <==> r is Ok,
        r is Err ==> r == Err::<(&[u8], i32), ParseFailure>(ParseFailure::Incomplete),
        r matches Ok((rest, v)) ==> v == le_i32(i@) && rest@ == i@.subrange(
            4,
            i@.len() as int,
        ),
        r matches Ok((rest, _)) ==> is_rest_of(rest@, i@),
{
    if i.len() < 4 {
        return Err(ParseFailure::Incomplete);
    }
    let u: u64 = i[0] as u64 + 256 * i[1] as u64 + 65536 * i[2] as u64 + 16777216 * i[3] as u64;
    let v: i32 = if u >= 2147483648 {
        (u as i64 - 4294967296) as i32
    } else {
        u as i32
    };
    proof {
        lemma_rest_drop(i@, 4);
    }
    Ok((&i[4..i.len()], v))
}

/// Skips `n` bytes. An empty input stays empty; skipping past the end leaves
/// nothing.
pub fn skip(i: &[u8], n: usize) -> (r: &[u8])
    ensures
        r@ == (if i@.len() == 0 {
            i@
        } else if n <= i@.len() {
            i@.subrange(n as int, i@.len() as int)
        } else {
            Seq::<u8>::empty()
        }),
        is_rest_of(r@, i@),
{
    if i.len() == 0 {
        proof {
            assert(i@ =~= i@.subrange(0, 0));
        }
        return i;
    }
    if n <= i.len() {
        &i[n..i.len()]
    } else {
        proof {
            assert(i@.subrange(i@.len() as int, i@.len() as int) =~= Seq::<u8>::empty());
        }
        &i[i.len()..i.len()]
    }
}

/// What the Windows-1252 decoder of encoding_rs makes of some bytes (a byte
/// order mark at the front selects its encoding instead), and whether it met
/// malformed input.
pub uninterp spec fn windows_1252_decode(b: Seq<u8>) -> (Seq<char>, bool);

/// What std makes of some bytes read as UTF-8, when they are valid UTF-8.
pub uninterp spec fn utf8_decode(b: Seq<u8>) -> Option<Seq<char>>;

/// Relies on encoding_rs::Encoding::decode with WINDOWS_1252: the decoded text
/// and whether malformed sequences were replaced; nothing read gives nothing.
#[verifier::external_body]
fn decode_windows_1252(b: &[u8]) -> (r: (String, bool))
    ensures
        r.0@ == windows_1252_decode(b@).0,
        r.1 == windows_1252_decode(b@).1,
        b@.len() == 0 ==> r.0@.len() == 0 && !r.1,
{
    let (cow, _encoding, had_errors) = encoding_rs::WINDOWS_1252.decode(b);
    (cow.into_owned(), had_errors)
}

/// Relies on std::str::from_utf8: the text of valid UTF-8 bytes.
#[verifier::external_body]
fn decode_utf8(b: &[u8]) -> (r: Option<String>)
    ensures
        match r {
            Some(s) => utf8_decode(b@) == Some(s@),
            None => utf8_decode(b@) is None,
        },
{
    match std::str::from_utf8(b) {
        Ok(s) => Some(s.to_owned()),
        Err(_) => None,
    }
}

/// Text of stored bytes: Windows-1252, else UTF-8 when the first decoding met
/// malformed input, else nothing.
pub open spec fn text_of(b: Seq<u8>) -> Seq<char> {
    if !windows_1252_decode(b).1 {
        windows_1252_decode(b).0
    } else {
        match utf8_decode(b) {
            Some(s) => s,
            None => Seq::empty(),
        }
    }
}

pub fn make_string(i: &[u8]) -> (r: String)
    ensures
        r@ == text_of(i@),
{
    let (text, had_errors) = decode_windows_1252(i);
    if had_errors {
        match decode_utf8(i) {
            Some(s) => s,
            None => String::new(),
        }
    } else {
        text
    }
}

/// Reads a string of exactly `len` bytes.
pub fn parse_string(i: &[u8], len: i32) -> (r: Result<(&[u8], String), ParseFailure>)
    ensures
        (0 <= len <= i@.len()) <==> r is Ok,
        r is Err ==> r == Err::<(&[u8], String), ParseFailure>(ParseFailure::Incomplete),
        r matches Ok((rest, s)) ==> rest@ == i@.subrange(len as int, i@.len() as int) && s@ == (
        if len == 0 {
            Seq::<char>::empty()
        } else {
            text_of(i@.subrange(0, len as int))
        }),
        r matches Ok((rest, _)) ==> is_rest_of(rest@, i@),
{
    if len < 0 || len as usize > i.len() {
        return Err(ParseFailure::Incomplete);
    }
    let n = len as usize;
    let text = if n == 0 {
        String::new()
    } else {
        make_string(&i[0..n])
    };
    proof {
        lemma_rest_drop(i@, n as int);
    }
    Ok((&i[n..i.len()], text))
}

/// Reads a string whose length is a 32-bit integer before it.
pub fn parse_int_sized_string(i: &[u8]) -> (r: Result<(&[u8], String), ParseFailure>)
    ensures
        r matches Ok((rest, _)) ==> is_rest_of(rest@, i@),
        r is Ok <==> (i@.len() >= 4 && 0 <= le_i32(i@) <= i@.len() - 4),
        r matches Ok((rest, s)) ==> rest@ == i@.subrange(4 + le_i32(i@), i@.len() as int) && s@ == (
        if le_i32(i@) == 0 {
            Seq::<char>::empty()
        } else {
            text_of(i@.subrange(4, 4 + le_i32(i@)))
        }),
{
    let (rest, len) = parse_int(i)?;
    let (rest2, s) = parse_string(rest, len)?;
    proof {
        assert(rest@.subrange(0, len as int) =~= i@.subrange(4, 4 + len));
        assert(rest2@ =~= i@.subrange(4 + len, i@.len() as int));
        assert(rest2@ =~= i@.subrange(i@.len() - rest2@.len(), i@.len() as int));
    }
    Ok((rest2, s))
}

/// Reads a fixed field of `size` bytes after a length byte; the text is the
/// first `length` bytes of the field, at most `size`.
pub fn parse_byte_size_string(i: &[u8], size: usize) -> (r: Result<(&[u8], String), ParseFailure>)
    ensures
        r is Ok <==> (i@.len() >= 1 && i@[0] <= i@.len() - 1 && size <= i@.len() - 1),
        r matches Ok((rest, s)) ==> rest@ == i@.subrange(1 + size, i@.len() as int) && s@ == text_of(
            i@.subrange(1, 1 + (if i@[0] > size { size as int } else { i@[0] as int })),
        ),
{
    let (rest, length) = parse_byte(i)?;
    if length as usize > rest.len() {
        return Err(ParseFailure::Incomplete);
    }
    let n: usize = if length as usize > size {
        size
    } else {
        length as usize
    };
    let string = make_string(&rest[0..n]);
    if size > rest.len() {
        return Err(ParseFailure::Incomplete);
    }
    proof {
        assert(rest@.subrange(0, n as int) =~= i@.subrange(1, 1 + n));
        assert(rest@.subrange(size as int, rest@.len() as int) =~= i@.subrange(
            1 + size,
            i@.len() as int,
        ));
    }
    Ok((&rest[size..rest.len()], string))
}

/// Reads a string whose length is a byte before it.
pub fn parse_byte_sized_string(i: &[u8]) -> (r: Result<(&[u8], String), ParseFailure>)
    ensures
        r is Ok <==> (i@.len() >= 1 && i@[0] <= i@.len() - 1),
        r matches Ok((rest, s)) ==> rest@ == i@.subrange(1 + i@[0], i@.len() as int) && s@ == (
        if i@[0] == 0 {
            Seq::<char>::empty()
        } else {
            text_of(i@.subrange(1, 1 + i@[0]))
        }),
{
    let (rest, len) = parse_byte(i)?;
    let r = parse_string(rest, len as i32);
    proof {
        if r is Ok {
            assert(rest@.subrange(0, len as int) =~= i@.subrange(1, 1 + len));
            assert(rest@.subrange(len as int, rest@.len() as int) =~= i@.subrange(
                1 + len,
                i@.len() as int,
            ));
        }
    }
    r
}

/// Length of the text of a string stored as a 32-bit field size and a length
/// byte: the length byte, which must be one less than the field size; a
/// negative length byte means the text fills the field.
pub open spec fn int_byte_text_len(i: Seq<u8>) -> Option<int> {
    let field = le_i32(i) - 1;
    let length = le_i8(i.subrange(4, i.len() as int));
    if length < 0 {
        Some(field)
    } else if length == field {
        Some(length)
    } else {
        None
    }
}

/// Reads a string stored as a 32-bit field size, then a length byte, then
/// the text. A negative length byte means the text fills the field.
pub fn parse_int_byte_sized_string(i: &[u8]) -> (r: Result<(&[u8], String), ParseFailure>)
    ensures
        r matches Ok((rest, _)) ==> is_rest_of(rest@, i@),
        i@.len() < 5 ==> r is Err,
        i@.len() >= 5 ==> (r is Ok <==> int_byte_text_len(i@) is Some && 0 <= int_byte_text_len(
            i@,
        )->0 <= i@.len() - 5),
        r matches Ok((rest, s)) ==> ({
            let n = int_byte_text_len(i@)->0;
            &&& rest@ == i@.subrange(5 + n, i@.len() as int)
            &&& s@ == (if n == 0 {
                Seq::<char>::empty()
            } else {
                text_of(i@.subrange(5, 5 + n))
            })
        }),
{
    let (rest, len) = parse_int(i)?;
    let (rest2, str_len) = parse_signed_byte(rest)?;
    let field: i64 = len as i64 - 1;
    let text_len: i32 = if str_len < 0 {
        if field < i32::MIN as i64 {
            return Err(ParseFailure::Malformed);
        }
        field as i32
    } else {
        if field != str_len as i64 {
            return Err(ParseFailure::Malformed);
        }
        str_len as i32
    };
    proof {
        assert(rest@.subrange(0, 1) =~= i@.subrange(4, i@.len() as int).subrange(0, 1));
        assert(rest@[0] == i@.subrange(4, i@.len() as int)[0]);
    }
    let (rest3, s) = parse_string(rest2, text_len)?;
    proof {
        assert(rest2@.subrange(0, text_len as int) =~= i@.subrange(5, 5 + text_len));
        assert(rest2@.subrange(text_len as int, rest2@.len() as int) =~= i@.subrange(5 + text_len, i@.len() as int));
        assert(is_rest_of(rest@, i@));
        assert(is_rest_of(rest2@, rest@));
        lemma_rest_trans(i@, rest@, rest2@);
        assert(is_rest_of(rest3@, rest2@));
        lemma_rest_trans(i@, rest2@, rest3@);
    }
    Ok((rest3, s))
}


/// The first two bytes read as a little-endian unsigned 16-bit integer.
pub open spec fn le_u16(b: Seq<u8>) -> int {
    b[0] + 256 * b[1]
}

/// The first four bytes read as a little-endian unsigned 32-bit integer.
pub open spec fn le_u32(b: Seq<u8>) -> int {
    b[0] + 256 * b[1] + 65536 * b[2] + 16777216 * b[3]
}

/// Reads a little-endian 16-bit unsigned integer.
pub fn parse_u16(i: &[u8]) -> (r: Result<(&[u8], u16), ParseFailure>)
    ensures
        i@.len() >= 2 <==> r is Ok,
        r is Err ==> r == Err::<(&[u8], u16), ParseFailure>(ParseFailure::Incomplete),
        r matches Ok((rest, v)) ==> v == le_u16(i@) && rest@ == i@.subrange(2, i@.len() as int),
        r matches Ok((rest, _)) ==> is_rest_of(rest@, i@),
{
    if i.len() < 2 {
        return Err(ParseFailure::Incomplete);
    }
    let v: u16 = i[0] as u16 + 256 * i[1] as u16;
    proof {
        lemma_rest_drop(i@, 2);
    }
    Ok((&i[2..i.len()], v))
}

/// Reads a little-endian 32-bit unsigned integer.
pub fn parse_u32(i: &[u8]) -> (r: Result<(&[u8], u32), ParseFailure>)
    ensures
        i@.len() >= 4 <==> r is Ok,
        r is Err ==> r == Err::<(&[u8], u32), ParseFailure>(ParseFailure::Incomplete),
        r matches Ok((rest, v)) ==> v == le_u32(i@) && rest@ == i@.subrange(4, i@.len() as int),
        r matches Ok((rest, _)) ==> is_rest_of(rest@, i@),
{
    if i.len() < 4 {
        return Err(ParseFailure::Incomplete);
    }
    let v: u32 = i[0] as u32 + 256 * i[1] as u32 + 65536 * i[2] as u32 + 16777216 * i[3] as u32;
    proof {
        lemma_rest_drop(i@, 4);
    }
    Ok((&i[4..i.len()], v))
}

/// Takes the first `n` bytes.
pub fn take(i: &[u8], n: usize) -> (r: Result<(&[u8], &[u8]), ParseFailure>)
    ensures
        n <= i@.len() <==> r is Ok,
        r is Err ==> r == Err::<(&[u8], &[u8]), ParseFailure>(ParseFailure::Incomplete),
        r matches Ok((rest, taken)) ==> taken@ == i@.subrange(0, n as int) && rest@ == i@.subrange(
            n as int,
            i@.len() as int,
        ) && is_rest_of(rest@, i@),
{
    if n > i.len() {
        return Err(ParseFailure::Incomplete);
    }
    proof {
        lemma_rest_drop(i@, n as int);
    }
    Ok((&i[n..i.len()], &i[0..n]))
}

} // verus!

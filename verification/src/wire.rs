//! The fields that an archive is made of, as bytes: numbers least
//! significant byte first, a boolean as one byte, bytes and text behind their
//! length. Reading is by position; a field that runs past the end of the
//! data is a failed read.

use vstd::prelude::*;
use vstd::bytes::*;
use vstd::slice::slice_subrange;
use vstd::utf8::{decode_utf8, encode_utf8, encode_utf8_decode_utf8, encode_utf8_valid_utf8, valid_utf8};
use crate::error::{unexpected_eof, Error, Failure};

verus! {

/// Whether `n` bytes from `pos` on lie within `data`.
pub open spec fn fits(data: Seq<u8>, pos: int, n: int) -> bool {
    0 <= pos && 0 <= n && pos + n <= data.len()
}

/// Whether `data` holds `piece` at `pos`.
pub open spec fn holds_at(data: Seq<u8>, pos: int, piece: Seq<u8>) -> bool {
    fits(data, pos, piece.len() as int) && data.subrange(pos, pos + piece.len()) == piece
}

/// A 32-bit number as a field.
pub open spec fn u32_field(x: u32) -> Seq<u8> {
    spec_u32_to_le_bytes(x)
}

/// A 64-bit number as a field.
pub open spec fn u64_field(x: u64) -> Seq<u8> {
    spec_u64_to_le_bytes(x)
}

/// A boolean as a field.
pub open spec fn bool_field(b: bool) -> Seq<u8> {
    seq![if b { 1u8 } else { 0u8 }]
}

/// Bytes as a field: their number, then the bytes.
pub open spec fn bytes_field(s: Seq<u8>) -> Seq<u8> {
    u64_field(s.len() as u64) + s
}

/// Text as a field: its UTF-8 bytes as a field of bytes.
pub open spec fn text_field(t: Seq<char>) -> Seq<u8> {
    bytes_field(encode_utf8(t))
}

/// The byte at `pos` and the position behind it.
pub open spec fn read_u8_spec(data: Seq<u8>, pos: int) -> Result<(u8, int), Failure> {
    if fits(data, pos, 1) {
        Ok((data[pos], pos + 1))
    } else {
        Err(Failure::Io)
    }
}

/// The 64-bit number at `pos` and the position behind it.
pub open spec fn read_u64_spec(data: Seq<u8>, pos: int) -> Result<(u64, int), Failure> {
    if fits(data, pos, 8) {
        Ok((spec_u64_from_le_bytes(data.subrange(pos, pos + 8)), pos + 8))
    } else {
        Err(Failure::Io)
    }
}

/// The boolean at `pos` and the position behind it. A byte other than 0 and
/// 1 is an error that carries the byte.
pub open spec fn read_bool_spec(data: Seq<u8>, pos: int) -> Result<(bool, int), Failure> {
    match read_u8_spec(data, pos) {
        Ok((byte, next)) => if byte == 0 {
            Ok((false, next))
        } else if byte == 1 {
            Ok((true, next))
        } else {
            Err(Failure::Bool(byte))
        },
        Err(f) => Err(f),
    }
}

/// The field of bytes at `pos` and the position behind it.
pub open spec fn read_bytes_spec(data: Seq<u8>, pos: int) -> Result<(Seq<u8>, int), Failure> {
    match read_u64_spec(data, pos) {
        Ok((n, at)) => if fits(data, at, n as int) {
            Ok((data.subrange(at, at + n), at + n))
        } else {
            Err(Failure::Io)
        },
        Err(f) => Err(f),
    }
}

/// The text that `bytes` are in UTF-8.
pub open spec fn text_of_spec(bytes: Seq<u8>) -> Result<Seq<char>, Failure> {
    if valid_utf8(bytes) {
        Ok(decode_utf8(bytes))
    } else {
        Err(Failure::Utf8)
    }
}

/// The field of text at `pos` and the position behind it.
pub open spec fn read_text_spec(data: Seq<u8>, pos: int) -> Result<(Seq<char>, int), Failure> {
    match read_bytes_spec(data, pos) {
        Ok((bytes, next)) => match text_of_spec(bytes) {
            Ok(text) => Ok((text, next)),
            Err(f) => Err(f),
        },
        Err(f) => Err(f),
    }
}

/// The first four bytes of `data` as a number, least significant byte first;
/// where there are fewer than four, the missing ones count as zero.
pub open spec fn leading_number(data: Seq<u8>) -> u32 {
    spec_u32_from_le_bytes(
        Seq::new(
            4,
            |i: int|
                if i < data.len() {
                    data[i]
                } else {
                    0u8
                },
        ),
    )
}

/// Whether a read returned what its model says: the same value and
/// position, or an error of the same meaning.
pub open spec fn read_matches<T: View>(
    r: Result<(T, usize), Error>,
    want: Result<(T::V, int), Failure>,
) -> bool {
    match want {
        Ok((value, next)) => r matches Ok((v, n)) && v@ == value && n == next,
        Err(f) => r matches Err(e) && e@ == f,
    }
}

/// A piece that is held at a position holds its two halves one behind the
/// other.
pub proof fn lemma_holds_at_split(data: Seq<u8>, pos: int, a: Seq<u8>, b: Seq<u8>)
    requires
        holds_at(data, pos, a + b),
    ensures
        holds_at(data, pos, a),
        holds_at(data, pos + a.len(), b),
{
    let whole = a + b;
    assert(data.subrange(pos, pos + a.len()) =~= whole.subrange(0, a.len() as int));
    assert(whole.subrange(0, a.len() as int) =~= a);
    assert(data.subrange(pos + a.len(), pos + a.len() + b.len()) =~= whole.subrange(
        a.len() as int,
        whole.len() as int,
    ));
    assert(whole.subrange(a.len() as int, whole.len() as int) =~= b);
}

/// The lengths of the number fields.
pub proof fn lemma_field_lengths()
    ensures
        forall|x: u32| #[trigger] u32_field(x).len() == 4,
        forall|x: u64| #[trigger] u64_field(x).len() == 8,
        forall|b: bool| #[trigger] bool_field(b).len() == 1,
{
    lemma_auto_spec_u32_to_from_le_bytes();
    lemma_auto_spec_u64_to_from_le_bytes();
}

/// A 64-bit field is read back as the number it was made of.
pub proof fn lemma_read_u64(data: Seq<u8>, pos: int, x: u64)
    requires
        holds_at(data, pos, u64_field(x)),
    ensures
        read_u64_spec(data, pos) == Ok::<(u64, int), Failure>((x, pos + 8)),
{
    lemma_auto_spec_u64_to_from_le_bytes();
}

/// A single byte is read back.
pub proof fn lemma_read_u8(data: Seq<u8>, pos: int, x: u8)
    requires
        holds_at(data, pos, seq![x]),
    ensures
        read_u8_spec(data, pos) == Ok::<(u8, int), Failure>((x, pos + 1)),
{
    assert(data.subrange(pos, pos + 1)[0] == x);
}

/// A boolean field is read back as the boolean it was made of.
pub proof fn lemma_read_bool(data: Seq<u8>, pos: int, b: bool)
    requires
        holds_at(data, pos, bool_field(b)),
    ensures
        read_bool_spec(data, pos) == Ok::<(bool, int), Failure>((b, pos + 1)),
{
    lemma_read_u8(data, pos, bool_field(b)[0]);
}

/// A field of bytes is read back as the bytes it was made of.
pub proof fn lemma_read_bytes(data: Seq<u8>, pos: int, s: Seq<u8>)
    requires
        s.len() <= u64::MAX,
        holds_at(data, pos, bytes_field(s)),
    ensures
        read_bytes_spec(data, pos) == Ok::<(Seq<u8>, int), Failure>((s, pos + 8 + s.len())),
        bytes_field(s).len() == 8 + s.len(),
{
    lemma_field_lengths();
    lemma_holds_at_split(data, pos, u64_field(s.len() as u64), s);
    lemma_read_u64(data, pos, s.len() as u64);
}

/// A field of text is read back as the text it was made of.
pub proof fn lemma_read_text(data: Seq<u8>, pos: int, t: Seq<char>)
    requires
        encode_utf8(t).len() <= u64::MAX,
        holds_at(data, pos, text_field(t)),
    ensures
        read_text_spec(data, pos) == Ok::<(Seq<char>, int), Failure>(
            (t, pos + 8 + encode_utf8(t).len()),
        ),
{
    lemma_read_bytes(data, pos, encode_utf8(t));
    encode_utf8_valid_utf8(t);
    encode_utf8_decode_utf8(t);
}

/// Reads the byte at `pos`.
pub fn read_u8(data: &[u8], pos: usize) -> (r: Result<(u8, usize), Error>)
    ensures
        read_matches(r, read_u8_spec(data@, pos as int)),
{
    if pos >= data.len() {
        return Err(Error::Io(unexpected_eof()));
    }
    Ok((data[pos], pos + 1))
}

/// Reads the 64-bit number at `pos`.
pub fn read_u64(data: &[u8], pos: usize) -> (r: Result<(u64, usize), Error>)
    ensures
        read_matches(r, read_u64_spec(data@, pos as int)),
{
    if data.len() < 8 || pos > data.len() - 8 {
        return Err(Error::Io(unexpected_eof()));
    }
    let x: u64 = u64_from_le_bytes(slice_subrange(data, pos, pos + 8));
    Ok((x, pos + 8))
}

/// Reads the boolean at `pos`.
pub fn read_bool(data: &[u8], pos: usize) -> (r: Result<(bool, usize), Error>)
    ensures
        read_matches(r, read_bool_spec(data@, pos as int)),
{
    match read_u8(data, pos) {
        Ok((byte, next)) => {
            if byte == 0 {
                Ok((false, next))
            } else if byte == 1 {
                Ok((true, next))
            } else {
                Err(Error::Bool(byte))
            }
        },
        Err(e) => Err(e),
    }
}

/// Reads the field of bytes at `pos`.
pub fn read_bytes(data: &[u8], pos: usize) -> (r: Result<(Vec<u8>, usize), Error>)
    ensures
        read_matches(r, read_bytes_spec(data@, pos as int)),
{
    match read_u64(data, pos) {
        Ok((n, at)) => {
            if n > (data.len() - at) as u64 {
                return Err(Error::Io(unexpected_eof()));
            }
            let len: usize = n as usize;
            let bytes = vstd::slice::slice_to_vec(slice_subrange(data, at, at + len));
            Ok((bytes, at + len))
        },
        Err(e) => Err(e),
    }
}

/// `String::from_utf8`: the text that the bytes are in UTF-8, and an error
/// exactly where they are no UTF-8.
#[verifier::external_body]
fn from_utf8(bytes: Vec<u8>) -> (r: Result<String, std::string::FromUtf8Error>)
    ensures
        valid_utf8(bytes@) ==> r is Ok && r->Ok_0@ == decode_utf8(bytes@),
        !valid_utf8(bytes@) ==> r is Err,
{
    String::from_utf8(bytes)
}

/// The text that `bytes` are in UTF-8.
pub fn text_of(bytes: Vec<u8>) -> (r: Result<String, Error>)
    ensures
        crate::error::outcome(r) == text_of_spec(bytes@),
{
    match from_utf8(bytes) {
        Ok(text) => Ok(text),
        Err(e) => Err(Error::Utf8(e)),
    }
}

/// Reads the field of text at `pos`.
pub fn read_text(data: &[u8], pos: usize) -> (r: Result<(String, usize), Error>)
    ensures
        read_matches(r, read_text_spec(data@, pos as int)),
{
    match read_bytes(data, pos) {
        Ok((bytes, next)) => match text_of(bytes) {
            Ok(text) => Ok((text, next)),
            Err(e) => Err(e),
        },
        Err(e) => Err(e),
    }
}

/// The first four bytes of `data` as a number, zeros standing in for bytes
/// that are not there.
pub fn read_leading_number(data: &[u8]) -> (found: u32)
    ensures
        found == leading_number(data@),
{
    let mut lead: Vec<u8> = Vec::new();
    let mut i: usize = 0;
    while i < 4
        invariant
            i <= 4,
            lead@.len() == i,
            forall|k: int| 0 <= k < i ==> lead@[k] == (if k < data@.len() {
                data@[k]
            } else {
                0u8
            }),
        decreases 4 - i,
    {
        if i < data.len() {
            lead.push(data[i]);
        } else {
            lead.push(0u8);
        }
        i += 1;
    }
    proof {
        assert(lead@ =~= Seq::new(
            4,
            |i: int|
                if i < data@.len() {
                    data@[i]
                } else {
                    0u8
                },
        ));
    }
    u32_from_le_bytes(lead.as_slice())
}

/// Appends a 32-bit field.
pub fn push_u32(out: &mut Vec<u8>, x: u32)
    ensures
        final(out)@ == old(out)@ + u32_field(x),
{
    let mut field = u32_to_le_bytes(x);
    out.append(&mut field);
}

/// Appends a 64-bit field.
pub fn push_u64(out: &mut Vec<u8>, x: u64)
    ensures
        final(out)@ == old(out)@ + u64_field(x),
{
    let mut field = u64_to_le_bytes(x);
    out.append(&mut field);
}

/// Appends a boolean field.
pub fn push_bool(out: &mut Vec<u8>, b: bool)
    ensures
        final(out)@ == old(out)@ + bool_field(b),
{
    out.push(if b { 1u8 } else { 0u8 });
    proof {
        assert(final(out)@ =~= old(out)@ + bool_field(b));
    }
}

/// Appends `s` as it is.
pub fn push_raw(out: &mut Vec<u8>, s: &[u8])
    ensures
        final(out)@ == old(out)@ + s@,
{
    let mut copy = vstd::slice::slice_to_vec(s);
    out.append(&mut copy);
}

/// Appends a field of bytes.
pub fn push_bytes(out: &mut Vec<u8>, s: &[u8])
    ensures
        final(out)@ == old(out)@ + bytes_field(s@),
{
    push_u64(out, s.len() as u64);
    push_raw(out, s);
    proof {
        assert(final(out)@ =~= old(out)@ + bytes_field(s@));
    }
}

} // verus!

//! A key written as text: sixty-four hexadecimal digits, with `0x` before
//! them or without, or the base64 form of thirty-two bytes, with its `=` at
//! the end or without.

use vstd::prelude::*;
use vstd::slice::slice_subrange;
use vstd::string::*;
use crate::encryption::Key;
use crate::error::{outcome, Error, Failure};

verus! {

/// The value of a hexadecimal digit, in either case.
pub open spec fn hex_value(c: u8) -> Option<u8> {
    if 0x30 <= c <= 0x39 {
        Some((c - 0x30) as u8)
    } else if 0x61 <= c <= 0x66 {
        Some((c - 0x57) as u8)
    } else if 0x41 <= c <= 0x46 {
        Some((c - 0x37) as u8)
    } else {
        None
    }
}

/// The value of a base64 symbol of the standard alphabet.
pub open spec fn sextet(c: u8) -> Option<u8> {
    if 0x41 <= c <= 0x5a {
        Some((c - 0x41) as u8)
    } else if 0x61 <= c <= 0x7a {
        Some((c - 0x47) as u8)
    } else if 0x30 <= c <= 0x39 {
        Some((c + 4) as u8)
    } else if c == 0x2b {
        Some(62u8)
    } else if c == 0x2f {
        Some(63u8)
    } else {
        None
    }
}

/// The hexadecimal digits of a text: the text without a leading `0x`.
pub open spec fn hex_digits_of(text: Seq<u8>) -> Seq<u8> {
    if text.len() >= 2 && text[0] == 0x30 && text[1] == 0x78 {
        text.skip(2)
    } else {
        text
    }
}

/// Byte `j` of what the hexadecimal digits stand for.
pub open spec fn hex_byte(digits: Seq<u8>, j: int) -> u8 {
    (hex_value(digits[2 * j])->Some_0 * 16 + hex_value(digits[2 * j + 1])->Some_0) as u8
}

/// The key that a text gives in hexadecimal, if it is sixty-four digits.
pub open spec fn hex_key(text: Seq<u8>) -> Option<Seq<u8>> {
    let digits = hex_digits_of(text);
    if digits.len() == 64 && forall|i: int| 0 <= i < 64 ==> hex_value(#[trigger] digits[i]) is Some {
        Some(Seq::new(32, |j: int| hex_byte(digits, j)))
    } else {
        None
    }
}

/// The base64 symbols of a text: the text without the `=` that ends the
/// base64 form of thirty-two bytes.
pub open spec fn symbols_of(text: Seq<u8>) -> Seq<u8> {
    if text.len() == 44 && text[43] == 0x3d {
        text.take(43)
    } else {
        text
    }
}

/// The value of symbol `i`; past the last symbol the value is zero.
pub open spec fn sextet_at(symbols: Seq<u8>, i: int) -> u8 {
    if 0 <= i < symbols.len() && sextet(symbols[i]) is Some {
        sextet(symbols[i])->Some_0
    } else {
        0u8
    }
}

/// Byte `j` of what the base64 symbols stand for: four symbols give three
/// bytes.
pub open spec fn base64_byte(symbols: Seq<u8>, j: int) -> u8 {
    let g = j / 3 * 4;
    if j % 3 == 0 {
        (sextet_at(symbols, g) << 2u8) | (sextet_at(symbols, g + 1) >> 4u8)
    } else if j % 3 == 1 {
        ((sextet_at(symbols, g + 1) & 0x0fu8) << 4u8) | (sextet_at(symbols, g + 2) >> 2u8)
    } else {
        ((sextet_at(symbols, g + 2) & 0x03u8) << 6u8) | sextet_at(symbols, g + 3)
    }
}

/// The key that a text gives in base64, if it is the base64 form of
/// thirty-two bytes: forty-three symbols, of which the last leaves no bit
/// over.
pub open spec fn base64_key(text: Seq<u8>) -> Option<Seq<u8>> {
    let symbols = symbols_of(text);
    if symbols.len() == 43 && (forall|i: int| 0 <= i < 43 ==> sextet(#[trigger] symbols[i]) is Some)
        && sextet_at(symbols, 42) & 0x03u8 == 0u8 {
        Some(Seq::new(32, |j: int| base64_byte(symbols, j)))
    } else {
        None
    }
}

/// The key that a text gives: in hexadecimal where it reads so, else in
/// base64.
pub open spec fn key_text_spec(text: Seq<u8>) -> Option<Seq<u8>> {
    match hex_key(text) {
        Some(key) => Some(key),
        None => base64_key(text),
    }
}

fn hex_value_of(c: u8) -> (r: Option<u8>)
    ensures
        r == hex_value(c),
        r matches Some(v) ==> v < 16,
{
    if 0x30 <= c && c <= 0x39 {
        Some(c - 0x30)
    } else if 0x61 <= c && c <= 0x66 {
        Some(c - 0x57)
    } else if 0x41 <= c && c <= 0x46 {
        Some(c - 0x37)
    } else {
        None
    }
}

fn sextet_of(c: u8) -> (r: Option<u8>)
    ensures
        r == sextet(c),
        r matches Some(v) ==> v < 64,
{
    if 0x41 <= c && c <= 0x5a {
        Some(c - 0x41)
    } else if 0x61 <= c && c <= 0x7a {
        Some(c - 0x47)
    } else if 0x30 <= c && c <= 0x39 {
        Some(c + 4)
    } else if c == 0x2b {
        Some(62)
    } else if c == 0x2f {
        Some(63)
    } else {
        None
    }
}

/// The key that `text` gives in hexadecimal.
pub fn key_from_hex(text: &[u8]) -> (r: Option<Key>)
    ensures
        match hex_key(text@) {
            Some(key) => r matches Some(k) && k@ == key,
            None => r is None,
        },
{
    let digits = if text.len() >= 2 && text[0] == 0x30 && text[1] == 0x78 {
        slice_subrange(text, 2, text.len())
    } else {
        text
    };
    proof {
        assert(digits@ =~= hex_digits_of(text@));
    }
    if digits.len() != 64 {
        return None;
    }
    let mut bytes: [u8; 32] = [0u8; 32];
    let mut j: usize = 0;
    while j < 32
        invariant
            j <= 32,
            digits@.len() == 64,
            digits@ == hex_digits_of(text@),
            forall|i: int| 0 <= i < 2 * j ==> hex_value(#[trigger] digits@[i]) is Some,
            forall|k: int| 0 <= k < j ==> bytes@[k] == hex_byte(digits@, k),
        decreases 32 - j,
    {
        let high = match hex_value_of(digits[2 * j]) {
            Some(v) => v,
            None => {
                return None;
            },
        };
        let low = match hex_value_of(digits[2 * j + 1]) {
            Some(v) => v,
            None => {
                return None;
            },
        };
        bytes[j] = high * 16 + low;
        j += 1;
    }
    proof {
        assert(bytes@ =~= Seq::new(32, |j: int| hex_byte(digits@, j)));
    }
    Some(Key { bytes })
}

/// The key that `text` gives in base64.
pub fn key_from_base64(text: &[u8]) -> (r: Option<Key>)
    ensures
        match base64_key(text@) {
            Some(key) => r matches Some(k) && k@ == key,
            None => r is None,
        },
{
    let symbols = if text.len() == 44 && text[43] == 0x3d {
        slice_subrange(text, 0, 43)
    } else {
        text
    };
    proof {
        assert(symbols@ =~= symbols_of(text@));
    }
    if symbols.len() != 43 {
        return None;
    }
    let mut values: [u8; 44] = [0u8; 44];
    let mut i: usize = 0;
    while i < 43
        invariant
            i <= 43,
            symbols@.len() == 43,
            symbols@ == symbols_of(text@),
            forall|k: int| 0 <= k < i ==> sextet(#[trigger] symbols@[k]) is Some,
            forall|k: int| 0 <= k < i ==> values@[k] == sextet_at(symbols@, k),
            forall|k: int| i <= k < 44 ==> values@[k] == 0,
        decreases 43 - i,
    {
        match sextet_of(symbols[i]) {
            Some(v) => {
                values[i] = v;
            },
            None => {
                return None;
            },
        }
        i += 1;
    }
    if values[42] & 0x03u8 != 0u8 {
        return None;
    }
    let mut bytes: [u8; 32] = [0u8; 32];
    let mut j: usize = 0;
    while j < 32
        invariant
            j <= 32,
            symbols@.len() == 43,
            symbols@ == symbols_of(text@),
            forall|k: int| 0 <= k < 44 ==> values@[k] == sextet_at(symbols@, k),
            forall|k: int| 0 <= k < j ==> bytes@[k] == base64_byte(symbols@, k),
        decreases 32 - j,
    {
        let g: usize = j / 3 * 4;
        let r: usize = j % 3;
        let b: u8 = if r == 0 {
            (values[g] << 2u8) | (values[g + 1] >> 4u8)
        } else if r == 1 {
            ((values[g + 1] & 0x0fu8) << 4u8) | (values[g + 2] >> 2u8)
        } else {
            ((values[g + 2] & 0x03u8) << 6u8) | values[g + 3]
        };
        bytes[j] = b;
        j += 1;
    }
    proof {
        assert(bytes@ =~= Seq::new(32, |j: int| base64_byte(symbols@, j)));
    }
    Some(Key { bytes })
}

/// The key that `text` gives, in hexadecimal or in base64. Text that is
/// neither is a malformed key.
pub fn key_from_text(text: &str) -> (r: Result<Key, Error>)
    ensures
        outcome(r) == (match key_text_spec(text.spec_bytes()) {
            Some(key) => Ok::<Seq<u8>, Failure>(key),
            None => Err::<Seq<u8>, Failure>(Failure::Aes),
        }),
{
    let bytes = text.as_bytes();
    match key_from_hex(bytes) {
        Some(key) => Ok(key),
        None => match key_from_base64(bytes) {
            Some(key) => Ok(key),
            None => Err(Error::Aes),
        },
    }
}

} // verus!

//! The AES block cipher with 256-bit keys.
//!
//! A block and a round key are sixteen bytes, a state column after column. The
//! cipher is stated as the standard describes it: the four transformations
//! of a round, their inverses, and the key schedule. That deciphering undoes
//! enciphering is proved here.

use vstd::prelude::*;

verus! {

/// The substitution table.
pub const SBOX: [u8; 256] = [
    0x63, 0x7c, 0x77, 0x7b, 0xf2, 0x6b, 0x6f, 0xc5, 0x30, 0x01, 0x67, 0x2b, 0xfe, 0xd7, 0xab, 0x76,
    0xca, 0x82, 0xc9, 0x7d, 0xfa, 0x59, 0x47, 0xf0, 0xad, 0xd4, 0xa2, 0xaf, 0x9c, 0xa4, 0x72, 0xc0,
    0xb7, 0xfd, 0x93, 0x26, 0x36, 0x3f, 0xf7, 0xcc, 0x34, 0xa5, 0xe5, 0xf1, 0x71, 0xd8, 0x31, 0x15,
    0x04, 0xc7, 0x23, 0xc3, 0x18, 0x96, 0x05, 0x9a, 0x07, 0x12, 0x80, 0xe2, 0xeb, 0x27, 0xb2, 0x75,
    0x09, 0x83, 0x2c, 0x1a, 0x1b, 0x6e, 0x5a, 0xa0, 0x52, 0x3b, 0xd6, 0xb3, 0x29, 0xe3, 0x2f, 0x84,
    0x53, 0xd1, 0x00, 0xed, 0x20, 0xfc, 0xb1, 0x5b, 0x6a, 0xcb, 0xbe, 0x39, 0x4a, 0x4c, 0x58, 0xcf,
    0xd0, 0xef, 0xaa, 0xfb, 0x43, 0x4d, 0x33, 0x85, 0x45, 0xf9, 0x02, 0x7f, 0x50, 0x3c, 0x9f, 0xa8,
    0x51, 0xa3, 0x40, 0x8f, 0x92, 0x9d, 0x38, 0xf5, 0xbc, 0xb6, 0xda, 0x21, 0x10, 0xff, 0xf3, 0xd2,
    0xcd, 0x0c, 0x13, 0xec, 0x5f, 0x97, 0x44, 0x17, 0xc4, 0xa7, 0x7e, 0x3d, 0x64, 0x5d, 0x19, 0x73,
    0x60, 0x81, 0x4f, 0xdc, 0x22, 0x2a, 0x90, 0x88, 0x46, 0xee, 0xb8, 0x14, 0xde, 0x5e, 0x0b, 0xdb,
    0xe0, 0x32, 0x3a, 0x0a, 0x49, 0x06, 0x24, 0x5c, 0xc2, 0xd3, 0xac, 0x62, 0x91, 0x95, 0xe4, 0x79,
    0xe7, 0xc8, 0x37, 0x6d, 0x8d, 0xd5, 0x4e, 0xa9, 0x6c, 0x56, 0xf4, 0xea, 0x65, 0x7a, 0xae, 0x08,
    0xba, 0x78, 0x25, 0x2e, 0x1c, 0xa6, 0xb4, 0xc6, 0xe8, 0xdd, 0x74, 0x1f, 0x4b, 0xbd, 0x8b, 0x8a,
    0x70, 0x3e, 0xb5, 0x66, 0x48, 0x03, 0xf6, 0x0e, 0x61, 0x35, 0x57, 0xb9, 0x86, 0xc1, 0x1d, 0x9e,
    0xe1, 0xf8, 0x98, 0x11, 0x69, 0xd9, 0x8e, 0x94, 0x9b, 0x1e, 0x87, 0xe9, 0xce, 0x55, 0x28, 0xdf,
    0x8c, 0xa1, 0x89, 0x0d, 0xbf, 0xe6, 0x42, 0x68, 0x41, 0x99, 0x2d, 0x0f, 0xb0, 0x54, 0xbb, 0x16,
];

/// The inverse substitution table.
pub const INV_SBOX: [u8; 256] = [
    0x52, 0x09, 0x6a, 0xd5, 0x30, 0x36, 0xa5, 0x38, 0xbf, 0x40, 0xa3, 0x9e, 0x81, 0xf3, 0xd7, 0xfb,
    0x7c, 0xe3, 0x39, 0x82, 0x9b, 0x2f, 0xff, 0x87, 0x34, 0x8e, 0x43, 0x44, 0xc4, 0xde, 0xe9, 0xcb,
    0x54, 0x7b, 0x94, 0x32, 0xa6, 0xc2, 0x23, 0x3d, 0xee, 0x4c, 0x95, 0x0b, 0x42, 0xfa, 0xc3, 0x4e,
    0x08, 0x2e, 0xa1, 0x66, 0x28, 0xd9, 0x24, 0xb2, 0x76, 0x5b, 0xa2, 0x49, 0x6d, 0x8b, 0xd1, 0x25,
    0x72, 0xf8, 0xf6, 0x64, 0x86, 0x68, 0x98, 0x16, 0xd4, 0xa4, 0x5c, 0xcc, 0x5d, 0x65, 0xb6, 0x92,
    0x6c, 0x70, 0x48, 0x50, 0xfd, 0xed, 0xb9, 0xda, 0x5e, 0x15, 0x46, 0x57, 0xa7, 0x8d, 0x9d, 0x84,
    0x90, 0xd8, 0xab, 0x00, 0x8c, 0xbc, 0xd3, 0x0a, 0xf7, 0xe4, 0x58, 0x05, 0xb8, 0xb3, 0x45, 0x06,
    0xd0, 0x2c, 0x1e, 0x8f, 0xca, 0x3f, 0x0f, 0x02, 0xc1, 0xaf, 0xbd, 0x03, 0x01, 0x13, 0x8a, 0x6b,
    0x3a, 0x91, 0x11, 0x41, 0x4f, 0x67, 0xdc, 0xea, 0x97, 0xf2, 0xcf, 0xce, 0xf0, 0xb4, 0xe6, 0x73,
    0x96, 0xac, 0x74, 0x22, 0xe7, 0xad, 0x35, 0x85, 0xe2, 0xf9, 0x37, 0xe8, 0x1c, 0x75, 0xdf, 0x6e,
    0x47, 0xf1, 0x1a, 0x71, 0x1d, 0x29, 0xc5, 0x89, 0x6f, 0xb7, 0x62, 0x0e, 0xaa, 0x18, 0xbe, 0x1b,
    0xfc, 0x56, 0x3e, 0x4b, 0xc6, 0xd2, 0x79, 0x20, 0x9a, 0xdb, 0xc0, 0xfe, 0x78, 0xcd, 0x5a, 0xf4,
    0x1f, 0xdd, 0xa8, 0x33, 0x88, 0x07, 0xc7, 0x31, 0xb1, 0x12, 0x10, 0x59, 0x27, 0x80, 0xec, 0x5f,
    0x60, 0x51, 0x7f, 0xa9, 0x19, 0xb5, 0x4a, 0x0d, 0x2d, 0xe5, 0x7a, 0x9f, 0x93, 0xc9, 0x9c, 0xef,
    0xa0, 0xe0, 0x3b, 0x4d, 0xae, 0x2a, 0xf5, 0xb0, 0xc8, 0xeb, 0xbb, 0x3c, 0x83, 0x53, 0x99, 0x61,
    0x17, 0x2b, 0x04, 0x7e, 0xba, 0x77, 0xd6, 0x26, 0xe1, 0x69, 0x14, 0x63, 0x55, 0x21, 0x0c, 0x7d,
];

/// For each place of the state, the place that the row shift fills it from.
pub const SHIFT: [usize; 16] = [0, 5, 10, 15, 4, 9, 14, 3, 8, 13, 2, 7, 12, 1, 6, 11];

/// For each place of the state, the place that the inverse row shift fills
/// it from.
pub const INV_SHIFT: [usize; 16] = [0, 13, 10, 7, 4, 1, 14, 11, 8, 5, 2, 15, 12, 9, 6, 3];

/// The round constants of the key schedule.
pub const RCON: [u8; 7] = [0x01, 0x02, 0x04, 0x08, 0x10, 0x20, 0x40];

/// The substitute of a byte.
pub open spec fn sbox(x: u8) -> u8 {
    SBOX[x as int]
}

/// The byte whose substitute `x` is.
pub open spec fn inv_sbox(x: u8) -> u8 {
    INV_SBOX[x as int]
}

/// `x` times two in the cipher's field.
pub open spec fn xtime(x: u8) -> u8 {
    if x & 0x80u8 == 0u8 {
        x << 1u8
    } else {
        (x << 1u8) ^ 0x1bu8
    }
}

/// One byte of a mixed column: twice the first byte, three times the second,
/// and the other two, added in the field.
pub open spec fn mix_byte(a0: u8, a1: u8, a2: u8, a3: u8) -> u8 {
    xtime(a0) ^ xtime(a1) ^ a1 ^ a2 ^ a3
}

/// One byte of an unmixed column: 14, 11, 13 and 9 times the four bytes,
/// added in the field.
pub open spec fn inv_mix_byte(b0: u8, b1: u8, b2: u8, b3: u8) -> u8 {
    let b0_2 = xtime(b0);
    let b0_4 = xtime(b0_2);
    let b0_8 = xtime(b0_4);
    let b1_2 = xtime(b1);
    let b1_4 = xtime(b1_2);
    let b1_8 = xtime(b1_4);
    let b2_2 = xtime(b2);
    let b2_4 = xtime(b2_2);
    let b2_8 = xtime(b2_4);
    let b3_2 = xtime(b3);
    let b3_4 = xtime(b3_2);
    let b3_8 = xtime(b3_4);
    (b0_8 ^ b0_4 ^ b0_2) ^ (b1_8 ^ b1_2 ^ b1) ^ (b2_8 ^ b2_4 ^ b2) ^ (b3_8 ^ b3)
}

/// Every byte of the state replaced by its substitute.
pub open spec fn sub_bytes(s: Seq<u8>) -> Seq<u8> {
    Seq::new(16, |i: int| sbox(s[i]))
}

/// The inverse of [`sub_bytes`].
pub open spec fn inv_sub_bytes(s: Seq<u8>) -> Seq<u8> {
    Seq::new(16, |i: int| inv_sbox(s[i]))
}

/// Row `r` of the state moved `r` places to the left.
pub open spec fn shift_rows(s: Seq<u8>) -> Seq<u8> {
    Seq::new(16, |i: int| s[SHIFT[i] as int])
}

/// The inverse of [`shift_rows`].
pub open spec fn inv_shift_rows(s: Seq<u8>) -> Seq<u8> {
    Seq::new(16, |i: int| s[INV_SHIFT[i] as int])
}

/// Every column of the state multiplied by the fixed polynomial.
pub open spec fn mix_columns(s: Seq<u8>) -> Seq<u8> {
    Seq::new(
        16,
        |i: int|
            {
                let c = i / 4 * 4;
                let r = i % 4;
                mix_byte(s[c + r], s[c + (r + 1) % 4], s[c + (r + 2) % 4], s[c + (r + 3) % 4])
            },
    )
}

/// The inverse of [`mix_columns`].
pub open spec fn inv_mix_columns(s: Seq<u8>) -> Seq<u8> {
    Seq::new(
        16,
        |i: int|
            {
                let c = i / 4 * 4;
                let r = i % 4;
                inv_mix_byte(
                    s[c + r],
                    s[c + (r + 1) % 4],
                    s[c + (r + 2) % 4],
                    s[c + (r + 3) % 4],
                )
            },
    )
}

/// The state with a round key added.
pub open spec fn add_round_key(s: Seq<u8>, k: Seq<u8>) -> Seq<u8> {
    Seq::new(16, |i: int| s[i] ^ k[i])
}

/// Byte `j` of the key schedule of `key`: the key itself, then each word made
/// of the word eight before it and of the one just before it.
pub open spec fn key_byte(key: Seq<u8>, j: int) -> u8
    decreases j,
{
    if j < 32 {
        key[j]
    } else {
        let i = j / 4;
        let r = j % 4;
        let prev = 4 * (i - 1);
        let t = if i % 8 == 0 {
            let v = sbox(key_byte(key, prev + (r + 1) % 4));
            if r == 0 {
                v ^ RCON[i / 8 - 1]
            } else {
                v
            }
        } else if i % 8 == 4 {
            sbox(key_byte(key, prev + r))
        } else {
            key_byte(key, prev + r)
        };
        key_byte(key, j - 32) ^ t
    }
}

/// The key schedule of `key`: fifteen round keys in a row.
pub open spec fn expanded_key(key: Seq<u8>) -> Seq<u8> {
    Seq::new(240, |j: int| key_byte(key, j))
}

/// Round key `r` of a schedule.
pub open spec fn round_key(ek: Seq<u8>, r: int) -> Seq<u8> {
    ek.subrange(16 * r, 16 * r + 16)
}

/// The state after round `r` of enciphering `block`, for the rounds before
/// the last.
pub open spec fn enc_state(ek: Seq<u8>, block: Seq<u8>, r: int) -> Seq<u8>
    decreases r,
{
    if r <= 0 {
        add_round_key(block, round_key(ek, 0))
    } else {
        add_round_key(
            mix_columns(shift_rows(sub_bytes(enc_state(ek, block, r - 1)))),
            round_key(ek, r),
        )
    }
}

/// `block` enciphered under the schedule `ek`.
pub open spec fn cipher(ek: Seq<u8>, block: Seq<u8>) -> Seq<u8> {
    add_round_key(shift_rows(sub_bytes(enc_state(ek, block, 13))), round_key(ek, 14))
}

/// The state after round `r` of the enciphering that gave `block`, found by
/// undoing the rounds after it.
pub open spec fn dec_state(ek: Seq<u8>, block: Seq<u8>, r: int) -> Seq<u8>
    decreases 13 - r,
{
    if r >= 13 {
        inv_sub_bytes(inv_shift_rows(add_round_key(block, round_key(ek, 14))))
    } else {
        inv_sub_bytes(
            inv_shift_rows(
                inv_mix_columns(add_round_key(dec_state(ek, block, r + 1), round_key(ek, r + 1))),
            ),
        )
    }
}

/// `block` deciphered under the schedule `ek`.
pub open spec fn inv_cipher(ek: Seq<u8>, block: Seq<u8>) -> Seq<u8> {
    add_round_key(dec_state(ek, block, 0), round_key(ek, 0))
}

/// `block` enciphered with `key`.
#[verifier::opaque]
pub open spec fn encrypt_block_spec(key: Seq<u8>, block: Seq<u8>) -> Seq<u8> {
    cipher(expanded_key(key), block)
}

/// `block` deciphered with `key`.
#[verifier::opaque]
pub open spec fn decrypt_block_spec(key: Seq<u8>, block: Seq<u8>) -> Seq<u8> {
    inv_cipher(expanded_key(key), block)
}

/// The inverse table undoes the substitution.
pub proof fn lemma_sbox_inverse(x: u8)
    ensures
        inv_sbox(sbox(x)) == x,
{
}

/// Doubling in the field goes through the field's addition.
pub proof fn lemma_xtime_xor(x: u8, y: u8)
    ensures
        xtime(x ^ y) == xtime(x) ^ xtime(y),
{
    assert((if (x ^ y) & 0x80u8 == 0u8 {
        (x ^ y) << 1u8
    } else {
        ((x ^ y) << 1u8) ^ 0x1bu8
    }) == (if x & 0x80u8 == 0u8 {
        x << 1u8
    } else {
        (x << 1u8) ^ 0x1bu8
    }) ^ (if y & 0x80u8 == 0u8 {
        y << 1u8
    } else {
        (y << 1u8) ^ 0x1bu8
    })) by (bit_vector);
}

/// Doubling a sum of five bytes is the sum of the doubles.
pub proof fn lemma_xtime_xor5(v0: u8, v1: u8, v2: u8, v3: u8, v4: u8)
    ensures
        xtime(v0 ^ v1 ^ v2 ^ v3 ^ v4) == xtime(v0) ^ xtime(v1) ^ xtime(v2) ^ xtime(v3) ^ xtime(v4),
{
    lemma_xtime_xor(v0 ^ v1 ^ v2 ^ v3, v4);
    lemma_xtime_xor(v0 ^ v1 ^ v2, v3);
    lemma_xtime_xor(v0 ^ v1, v2);
    lemma_xtime_xor(v0, v1);
}

/// Unmixing the first byte of a mixed column gives the first byte of the
/// column. The other three follow by turning the column.
pub proof fn lemma_mix_inverse(a0: u8, a1: u8, a2: u8, a3: u8)
    ensures
        inv_mix_byte(
            mix_byte(a0, a1, a2, a3),
            mix_byte(a1, a2, a3, a0),
            mix_byte(a2, a3, a0, a1),
            mix_byte(a3, a0, a1, a2),
        ) == a0,
{
    let q0_1 = xtime(a0);
    let q0_2 = xtime(q0_1);
    let q0_3 = xtime(q0_2);
    let q0_4 = xtime(q0_3);
    let q1_1 = xtime(a1);
    let q1_2 = xtime(q1_1);
    let q1_3 = xtime(q1_2);
    let q1_4 = xtime(q1_3);
    let q2_1 = xtime(a2);
    let q2_2 = xtime(q2_1);
    let q2_3 = xtime(q2_2);
    let q2_4 = xtime(q2_3);
    let q3_1 = xtime(a3);
    let q3_2 = xtime(q3_1);
    let q3_3 = xtime(q3_2);
    let q3_4 = xtime(q3_3);
    let b0 = mix_byte(a0, a1, a2, a3);
    let b0_2 = xtime(b0);
    let b0_4 = xtime(b0_2);
    let b0_8 = xtime(b0_4);
    let b1 = mix_byte(a1, a2, a3, a0);
    let b1_2 = xtime(b1);
    let b1_4 = xtime(b1_2);
    let b1_8 = xtime(b1_4);
    let b2 = mix_byte(a2, a3, a0, a1);
    let b2_2 = xtime(b2);
    let b2_4 = xtime(b2_2);
    let b2_8 = xtime(b2_4);
    let b3 = mix_byte(a3, a0, a1, a2);
    let b3_2 = xtime(b3);
    let b3_4 = xtime(b3_2);
    let b3_8 = xtime(b3_4);
    lemma_xtime_xor5(q0_1, q1_1, a1, a2, a3);
    assert(b0_2 == q0_2 ^ q1_2 ^ q1_1 ^ q2_1 ^ q3_1);
    lemma_xtime_xor5(q0_2, q1_2, q1_1, q2_1, q3_1);
    assert(b0_4 == q0_3 ^ q1_3 ^ q1_2 ^ q2_2 ^ q3_2);
    lemma_xtime_xor5(q0_3, q1_3, q1_2, q2_2, q3_2);
    assert(b0_8 == q0_4 ^ q1_4 ^ q1_3 ^ q2_3 ^ q3_3);
    lemma_xtime_xor5(q1_1, q2_1, a2, a3, a0);
    assert(b1_2 == q1_2 ^ q2_2 ^ q2_1 ^ q3_1 ^ q0_1);
    lemma_xtime_xor5(q1_2, q2_2, q2_1, q3_1, q0_1);
    assert(b1_4 == q1_3 ^ q2_3 ^ q2_2 ^ q3_2 ^ q0_2);
    lemma_xtime_xor5(q1_3, q2_3, q2_2, q3_2, q0_2);
    assert(b1_8 == q1_4 ^ q2_4 ^ q2_3 ^ q3_3 ^ q0_3);
    lemma_xtime_xor5(q2_1, q3_1, a3, a0, a1);
    assert(b2_2 == q2_2 ^ q3_2 ^ q3_1 ^ q0_1 ^ q1_1);
    lemma_xtime_xor5(q2_2, q3_2, q3_1, q0_1, q1_1);
    assert(b2_4 == q2_3 ^ q3_3 ^ q3_2 ^ q0_2 ^ q1_2);
    lemma_xtime_xor5(q2_3, q3_3, q3_2, q0_2, q1_2);
    assert(b2_8 == q2_4 ^ q3_4 ^ q3_3 ^ q0_3 ^ q1_3);
    lemma_xtime_xor5(q3_1, q0_1, a0, a1, a2);
    assert(b3_2 == q3_2 ^ q0_2 ^ q0_1 ^ q1_1 ^ q2_1);
    lemma_xtime_xor5(q3_2, q0_2, q0_1, q1_1, q2_1);
    assert(b3_4 == q3_3 ^ q0_3 ^ q0_2 ^ q1_2 ^ q2_2);
    lemma_xtime_xor5(q3_3, q0_3, q0_2, q1_2, q2_2);
    assert(b3_8 == q3_4 ^ q0_4 ^ q0_3 ^ q1_3 ^ q2_3);
    assert((b0_8 ^ b0_4 ^ b0_2) ^ (b1_8 ^ b1_2 ^ b1) ^ (b2_8 ^ b2_4 ^ b2) ^ (b3_8 ^ b3) == a0) by (bit_vector)
        requires
            b0 == q0_1 ^ q1_1 ^ a1 ^ a2 ^ a3,
            b0_2 == q0_2 ^ q1_2 ^ q1_1 ^ q2_1 ^ q3_1,
            b0_4 == q0_3 ^ q1_3 ^ q1_2 ^ q2_2 ^ q3_2,
            b0_8 == q0_4 ^ q1_4 ^ q1_3 ^ q2_3 ^ q3_3,
            b1 == q1_1 ^ q2_1 ^ a2 ^ a3 ^ a0,
            b1_2 == q1_2 ^ q2_2 ^ q2_1 ^ q3_1 ^ q0_1,
            b1_4 == q1_3 ^ q2_3 ^ q2_2 ^ q3_2 ^ q0_2,
            b1_8 == q1_4 ^ q2_4 ^ q2_3 ^ q3_3 ^ q0_3,
            b2 == q2_1 ^ q3_1 ^ a3 ^ a0 ^ a1,
            b2_2 == q2_2 ^ q3_2 ^ q3_1 ^ q0_1 ^ q1_1,
            b2_4 == q2_3 ^ q3_3 ^ q3_2 ^ q0_2 ^ q1_2,
            b2_8 == q2_4 ^ q3_4 ^ q3_3 ^ q0_3 ^ q1_3,
            b3 == q3_1 ^ q0_1 ^ a0 ^ a1 ^ a2,
            b3_2 == q3_2 ^ q0_2 ^ q0_1 ^ q1_1 ^ q2_1,
            b3_4 == q3_3 ^ q0_3 ^ q0_2 ^ q1_2 ^ q2_2,
            b3_8 == q3_4 ^ q0_4 ^ q0_3 ^ q1_3 ^ q2_3,
    ;
}

/// The inverse substitution undoes the substitution of a state.
pub proof fn lemma_sub_bytes_inverse(s: Seq<u8>)
    requires
        s.len() == 16,
    ensures
        inv_sub_bytes(sub_bytes(s)) == s,
{
    assert forall|i: int| 0 <= i < 16 implies inv_sub_bytes(sub_bytes(s))[i] == s[i] by {
        lemma_sbox_inverse(s[i]);
    }
    assert(inv_sub_bytes(sub_bytes(s)) =~= s);
}

/// The inverse row shift undoes the row shift.
pub proof fn lemma_shift_rows_inverse(s: Seq<u8>)
    requires
        s.len() == 16,
    ensures
        inv_shift_rows(shift_rows(s)) == s,
{
    assert forall|i: int| 0 <= i < 16 implies SHIFT[INV_SHIFT[i] as int] == i by {}
    assert(inv_shift_rows(shift_rows(s)) =~= s);
}

/// Unmixing undoes the mixing of the columns.
pub proof fn lemma_mix_columns_inverse(s: Seq<u8>)
    requires
        s.len() == 16,
    ensures
        inv_mix_columns(mix_columns(s)) == s,
{
    let m = mix_columns(s);
    assert forall|i: int| 0 <= i < 16 implies inv_mix_columns(m)[i] == s[i] by {
        let c = i / 4 * 4;
        let r = i % 4;
        let r1 = (r + 1) % 4;
        let r2 = (r + 2) % 4;
        let r3 = (r + 3) % 4;
        lemma_mix_inverse(s[c + r], s[c + r1], s[c + r2], s[c + r3]);
        assert(m[c + r] == mix_byte(s[c + r], s[c + r1], s[c + r2], s[c + r3]));
        assert(m[c + r1] == mix_byte(s[c + r1], s[c + r2], s[c + r3], s[c + r]));
        assert(m[c + r2] == mix_byte(s[c + r2], s[c + r3], s[c + r], s[c + r1]));
        assert(m[c + r3] == mix_byte(s[c + r3], s[c + r], s[c + r1], s[c + r2]));
    }
    assert(inv_mix_columns(m) =~= s);
}

/// Adding a round key twice changes nothing.
pub proof fn lemma_add_round_key_twice(s: Seq<u8>, k: Seq<u8>)
    requires
        s.len() == 16,
    ensures
        add_round_key(add_round_key(s, k), k) == s,
{
    assert forall|i: int| 0 <= i < 16 implies add_round_key(add_round_key(s, k), k)[i] == s[i] by {
        let a = s[i];
        let b = k[i];
        assert((a ^ b) ^ b == a) by (bit_vector);
    }
    assert(add_round_key(add_round_key(s, k), k) =~= s);
}

/// Undoing the rounds of an enciphering leads back through its states.
pub proof fn lemma_dec_state(ek: Seq<u8>, block: Seq<u8>, r: int)
    requires
        block.len() == 16,
        0 <= r <= 13,
    ensures
        dec_state(ek, cipher(ek, block), r) == enc_state(ek, block, r),
    decreases 13 - r,
{
    let c = cipher(ek, block);
    let here = enc_state(ek, block, r);
    assert(here.len() == 16);
    if r == 13 {
        let x = shift_rows(sub_bytes(here));
        lemma_add_round_key_twice(x, round_key(ek, 14));
        lemma_shift_rows_inverse(sub_bytes(here));
        lemma_sub_bytes_inverse(here);
    } else {
        lemma_dec_state(ek, block, r + 1);
        let x = mix_columns(shift_rows(sub_bytes(here)));
        assert(enc_state(ek, block, r + 1) == add_round_key(x, round_key(ek, r + 1)));
        lemma_add_round_key_twice(x, round_key(ek, r + 1));
        lemma_mix_columns_inverse(shift_rows(sub_bytes(here)));
        lemma_shift_rows_inverse(sub_bytes(here));
        lemma_sub_bytes_inverse(here);
    }
}

/// Deciphering undoes enciphering, under any schedule.
pub proof fn lemma_inv_cipher(ek: Seq<u8>, block: Seq<u8>)
    requires
        block.len() == 16,
    ensures
        inv_cipher(ek, cipher(ek, block)) == block,
        cipher(ek, block).len() == 16,
        inv_cipher(ek, block).len() == 16,
{
    lemma_dec_state(ek, block, 0);
    lemma_add_round_key_twice(block, round_key(ek, 0));
}

/// A block deciphered with the key it was enciphered with is the block
/// again.
pub proof fn lemma_decrypt_block_encrypt_block(key: Seq<u8>, block: Seq<u8>)
    requires
        block.len() == 16,
    ensures
        decrypt_block_spec(key, encrypt_block_spec(key, block)) == block,
        encrypt_block_spec(key, block).len() == 16,
        decrypt_block_spec(key, block).len() == 16,
{
    reveal(encrypt_block_spec);
    reveal(decrypt_block_spec);
    lemma_inv_cipher(expanded_key(key), block);
}

fn xtime_exec(x: u8) -> (y: u8)
    ensures
        y == xtime(x),
{
    if x & 0x80u8 == 0u8 {
        x << 1u8
    } else {
        (x << 1u8) ^ 0x1bu8
    }
}

fn mix_byte_exec(a0: u8, a1: u8, a2: u8, a3: u8) -> (y: u8)
    ensures
        y == mix_byte(a0, a1, a2, a3),
{
    xtime_exec(a0) ^ xtime_exec(a1) ^ a1 ^ a2 ^ a3
}

fn inv_mix_byte_exec(b0: u8, b1: u8, b2: u8, b3: u8) -> (y: u8)
    ensures
        y == inv_mix_byte(b0, b1, b2, b3),
{
    let b0_2: u8 = xtime_exec(b0);
    let b0_4: u8 = xtime_exec(b0_2);
    let b0_8: u8 = xtime_exec(b0_4);
    let b1_2: u8 = xtime_exec(b1);
    let b1_4: u8 = xtime_exec(b1_2);
    let b1_8: u8 = xtime_exec(b1_4);
    let b2_2: u8 = xtime_exec(b2);
    let b2_4: u8 = xtime_exec(b2_2);
    let b2_8: u8 = xtime_exec(b2_4);
    let b3_2: u8 = xtime_exec(b3);
    let b3_4: u8 = xtime_exec(b3_2);
    let b3_8: u8 = xtime_exec(b3_4);
    (b0_8 ^ b0_4 ^ b0_2) ^ (b1_8 ^ b1_2 ^ b1) ^ (b2_8 ^ b2_4 ^ b2) ^ (b3_8 ^ b3)
}

fn expand_key(key: &[u8; 32]) -> (ek: [u8; 240])
    ensures
        ek@ == expanded_key(key@),
{
    let mut ek: [u8; 240] = [0u8; 240];
    let mut j: usize = 0;
    while j < 32
        invariant
            j <= 32,
            forall|k: int| 0 <= k < j ==> ek@[k] == key_byte(key@, k),
        decreases 32 - j,
    {
        ek[j] = key[j];
        j += 1;
    }
    while j < 240
        invariant
            32 <= j <= 240,
            forall|k: int| 0 <= k < j ==> ek@[k] == key_byte(key@, k),
        decreases 240 - j,
    {
        let i: usize = j / 4;
        let r: usize = j % 4;
        let prev: usize = 4 * (i - 1);
        let t: u8 = if i % 8 == 0 {
            let v: u8 = SBOX[ek[prev + (r + 1) % 4] as usize];
            if r == 0 {
                v ^ RCON[i / 8 - 1]
            } else {
                v
            }
        } else if i % 8 == 4 {
            SBOX[ek[prev + r] as usize]
        } else {
            ek[prev + r]
        };
        ek[j] = ek[j - 32] ^ t;
        j += 1;
    }
    proof {
        assert(ek@ =~= expanded_key(key@));
    }
    ek
}

fn first_round(ek: &[u8; 240], block: &[u8; 16]) -> (out: [u8; 16])
    ensures
        out@ == add_round_key(block@, round_key(ek@, 0)),
{
    let mut out: [u8; 16] = [0u8; 16];
    let mut i: usize = 0;
    while i < 16
        invariant
            i <= 16,
            forall|k: int| 0 <= k < i ==> out@[k] == block@[k] ^ ek@[k],
        decreases 16 - i,
    {
        out[i] = block[i] ^ ek[i];
        i += 1;
    }
    proof {
        assert(out@ =~= add_round_key(block@, round_key(ek@, 0)));
    }
    out
}

fn round(ek: &[u8; 240], s: &[u8; 16], r: usize) -> (out: [u8; 16])
    requires
        1 <= r <= 13,
    ensures
        out@ == add_round_key(mix_columns(shift_rows(sub_bytes(s@))), round_key(ek@, r as int)),
{
    let ghost want = add_round_key(
        mix_columns(shift_rows(sub_bytes(s@))),
        round_key(ek@, r as int),
    );
    let mut out: [u8; 16] = [0u8; 16];
    let mut c: usize = 0;
    while c < 16
        invariant
            c <= 16,
            c % 4 == 0,
            1 <= r <= 13,
            want == add_round_key(mix_columns(shift_rows(sub_bytes(s@))), round_key(ek@, r as int)),
            forall|k: int| 0 <= k < c ==> out@[k] == want[k],
        decreases 16 - c,
    {
        let a0: u8 = SBOX[s[SHIFT[c]] as usize];
        let a1: u8 = SBOX[s[SHIFT[c + 1]] as usize];
        let a2: u8 = SBOX[s[SHIFT[c + 2]] as usize];
        let a3: u8 = SBOX[s[SHIFT[c + 3]] as usize];
        let k: usize = 16 * r + c;
        proof {
            let t = shift_rows(sub_bytes(s@));
            assert(t[c as int] == a0 && t[c + 1] == a1 && t[c + 2] == a2 && t[c + 3] == a3);
            assert(round_key(ek@, r as int)[c as int] == ek@[k as int]);
            assert(round_key(ek@, r as int)[c + 1] == ek@[k + 1]);
            assert(round_key(ek@, r as int)[c + 2] == ek@[k + 2]);
            assert(round_key(ek@, r as int)[c + 3] == ek@[k + 3]);
        }
        out[c] = mix_byte_exec(a0, a1, a2, a3) ^ ek[k];
        out[c + 1] = mix_byte_exec(a1, a2, a3, a0) ^ ek[k + 1];
        out[c + 2] = mix_byte_exec(a2, a3, a0, a1) ^ ek[k + 2];
        out[c + 3] = mix_byte_exec(a3, a0, a1, a2) ^ ek[k + 3];
        c += 4;
    }
    proof {
        assert(out@ =~= want);
    }
    out
}

fn last_round(ek: &[u8; 240], s: &[u8; 16]) -> (out: [u8; 16])
    ensures
        out@ == add_round_key(shift_rows(sub_bytes(s@)), round_key(ek@, 14)),
{
    let mut out: [u8; 16] = [0u8; 16];
    let mut i: usize = 0;
    while i < 16
        invariant
            i <= 16,
            forall|k: int| 0 <= k < i ==> out@[k] == sbox(s@[SHIFT[k] as int]) ^ ek@[224 + k],
        decreases 16 - i,
    {
        out[i] = SBOX[s[SHIFT[i]] as usize] ^ ek[224 + i];
        i += 1;
    }
    proof {
        assert(out@ =~= add_round_key(shift_rows(sub_bytes(s@)), round_key(ek@, 14)));
    }
    out
}

fn cipher_block(ek: &[u8; 240], block: &[u8; 16]) -> (out: [u8; 16])
    ensures
        out@ == cipher(ek@, block@),
{
    let mut s: [u8; 16] = first_round(ek, block);
    let mut r: usize = 1;
    while r < 14
        invariant
            1 <= r <= 14,
            s@ == enc_state(ek@, block@, r - 1),
        decreases 14 - r,
    {
        s = round(ek, &s, r);
        r += 1;
    }
    last_round(ek, &s)
}

fn first_inv_round(ek: &[u8; 240], block: &[u8; 16]) -> (out: [u8; 16])
    ensures
        out@ == inv_sub_bytes(inv_shift_rows(add_round_key(block@, round_key(ek@, 14)))),
{
    let mut out: [u8; 16] = [0u8; 16];
    let mut i: usize = 0;
    while i < 16
        invariant
            i <= 16,
            forall|k: int|
                0 <= k < i ==> out@[k] == inv_sbox(
                    block@[INV_SHIFT[k] as int] ^ ek@[224 + INV_SHIFT[k]],
                ),
        decreases 16 - i,
    {
        let from: usize = INV_SHIFT[i];
        out[i] = INV_SBOX[(block[from] ^ ek[224 + from]) as usize];
        i += 1;
    }
    proof {
        assert(out@ =~= inv_sub_bytes(
            inv_shift_rows(add_round_key(block@, round_key(ek@, 14))),
        ));
    }
    out
}

fn inv_round(ek: &[u8; 240], s: &[u8; 16], r: usize) -> (out: [u8; 16])
    requires
        1 <= r <= 13,
    ensures
        out@ == inv_sub_bytes(
            inv_shift_rows(inv_mix_columns(add_round_key(s@, round_key(ek@, r as int)))),
        ),
{
    let ghost keyed = add_round_key(s@, round_key(ek@, r as int));
    let ghost unmixed = inv_mix_columns(keyed);
    let mut mid: [u8; 16] = [0u8; 16];
    let mut c: usize = 0;
    while c < 16
        invariant
            c <= 16,
            c % 4 == 0,
            1 <= r <= 13,
            keyed == add_round_key(s@, round_key(ek@, r as int)),
            unmixed == inv_mix_columns(keyed),
            forall|k: int| 0 <= k < c ==> mid@[k] == unmixed[k],
        decreases 16 - c,
    {
        let k: usize = 16 * r + c;
        let b0: u8 = s[c] ^ ek[k];
        let b1: u8 = s[c + 1] ^ ek[k + 1];
        let b2: u8 = s[c + 2] ^ ek[k + 2];
        let b3: u8 = s[c + 3] ^ ek[k + 3];
        proof {
            assert(round_key(ek@, r as int)[c as int] == ek@[k as int]);
            assert(round_key(ek@, r as int)[c + 1] == ek@[k + 1]);
            assert(round_key(ek@, r as int)[c + 2] == ek@[k + 2]);
            assert(round_key(ek@, r as int)[c + 3] == ek@[k + 3]);
            assert(keyed[c as int] == b0 && keyed[c + 1] == b1 && keyed[c + 2] == b2 && keyed[c
                + 3] == b3);
        }
        mid[c] = inv_mix_byte_exec(b0, b1, b2, b3);
        mid[c + 1] = inv_mix_byte_exec(b1, b2, b3, b0);
        mid[c + 2] = inv_mix_byte_exec(b2, b3, b0, b1);
        mid[c + 3] = inv_mix_byte_exec(b3, b0, b1, b2);
        c += 4;
    }
    let mut out: [u8; 16] = [0u8; 16];
    let mut i: usize = 0;
    while i < 16
        invariant
            i <= 16,
            forall|k: int| 0 <= k < 16 ==> mid@[k] == unmixed[k],
            forall|k: int| 0 <= k < i ==> out@[k] == inv_sbox(unmixed[INV_SHIFT[k] as int]),
        decreases 16 - i,
    {
        out[i] = INV_SBOX[mid[INV_SHIFT[i]] as usize];
        i += 1;
    }
    proof {
        assert(out@ =~= inv_sub_bytes(inv_shift_rows(unmixed)));
    }
    out
}

fn last_inv_round(ek: &[u8; 240], s: &[u8; 16]) -> (out: [u8; 16])
    ensures
        out@ == add_round_key(s@, round_key(ek@, 0)),
{
    first_round(ek, s)
}

fn inv_cipher_block(ek: &[u8; 240], block: &[u8; 16]) -> (out: [u8; 16])
    ensures
        out@ == inv_cipher(ek@, block@),
{
    let mut s: [u8; 16] = first_inv_round(ek, block);
    let mut r: usize = 13;
    while r > 0
        invariant
            r <= 13,
            s@ == dec_state(ek@, block@, r as int),
        decreases r,
    {
        s = inv_round(ek, &s, r);
        r -= 1;
    }
    last_inv_round(ek, &s)
}

/// The cipher under one key: the key's schedule, computed once.
pub struct Aes256 {
    round_keys: [u8; 240],
}

impl Aes256 {
    /// The key that this cipher works with.
    pub closed spec fn key(&self) -> Seq<u8> {
        self.round_keys@.subrange(0, 32)
    }

    #[verifier::type_invariant]
    spec fn holds_schedule(&self) -> bool {
        self.round_keys@ == expanded_key(self.key())
    }

    /// The cipher under `key`.
    pub fn new(key: &[u8; 32]) -> (c: Aes256)
        ensures
            c.key() == key@,
    {
        let round_keys = expand_key(key);
        proof {
            assert(round_keys@.subrange(0, 32) =~= key@);
        }
        Aes256 { round_keys }
    }

    /// `block` enciphered.
    pub fn encrypt_block(&self, block: &[u8; 16]) -> (out: [u8; 16])
        ensures
            out@ == encrypt_block_spec(self.key(), block@),
    {
        proof {
            use_type_invariant(self);
            reveal(encrypt_block_spec);
        }
        cipher_block(&self.round_keys, block)
    }

    /// `block` deciphered.
    pub fn decrypt_block(&self, block: &[u8; 16]) -> (out: [u8; 16])
        ensures
            out@ == decrypt_block_spec(self.key(), block@),
    {
        proof {
            use_type_invariant(self);
            reveal(decrypt_block_spec);
        }
        inv_cipher_block(&self.round_keys, block)
    }
}

} // verus!

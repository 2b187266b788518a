//! Encryption of byte ranges with AES-256: whole blocks one by one, behind
//! a padding that makes every length fit.
//!
//! The padding adds between one and sixteen bytes, each holding how many were
//! added, so that what was encrypted is found again exactly.

use vstd::prelude::*;
use vstd::string::*;
use crate::aes::{
    decrypt_block_spec, encrypt_block_spec, lemma_decrypt_block_encrypt_block, Aes256,
};
use crate::error::{outcome, Error, Failure};

verus! {

/// A 256-bit key, held as its bytes. A key is never written anywhere by this
/// library, and is not shown when a value that holds it is printed.
#[derive(Clone, Copy)]
pub struct Key {
    pub bytes: [u8; 32],
}

impl View for Key {
    type V = Seq<u8>;

    open spec fn view(&self) -> Seq<u8> {
        self.bytes@
    }
}

impl Key {
    /// The key made of `bytes`, which must be exactly 32.
    pub fn from_bytes(bytes: &[u8]) -> (r: Result<Key, Error>)
        ensures
            outcome(r) == (if bytes@.len() == 32 {
                Ok::<Seq<u8>, Failure>(bytes@)
            } else {
                Err::<Seq<u8>, Failure>(Failure::Aes)
            }),
    {
        if bytes.len() != 32 {
            return Err(Error::Aes);
        }
        let mut held: [u8; 32] = [0u8; 32];
        let mut i: usize = 0;
        while i < 32
            invariant
                i <= 32,
                bytes@.len() == 32,
                forall|k: int| 0 <= k < i ==> held@[k] == bytes@[k],
            decreases 32 - i,
        {
            held[i] = bytes[i];
            i += 1;
        }
        proof {
            assert(held@ =~= bytes@);
        }
        Ok(Key { bytes: held })
    }
}

/// How many bytes the padding adds to `n` bytes: what is missing to the next
/// multiple of sixteen, and sixteen where nothing is missing.
pub open spec fn pad_len(n: nat) -> nat {
    (16 - n % 16) as nat
}

/// `plain` with its padding.
pub open spec fn pad(plain: Seq<u8>) -> Seq<u8> {
    plain + Seq::new(pad_len(plain.len()), |i: int| pad_len(plain.len()) as u8)
}

/// `padded` without its padding; `None` where it does not end in one.
pub open spec fn unpad(padded: Seq<u8>) -> Option<Seq<u8>> {
    if padded.len() == 0 || padded.len() % 16 != 0 {
        None
    } else {
        let n = padded[padded.len() - 1];
        if 1 <= n <= 16 && (forall|i: int| padded.len() - n <= i < padded.len() ==> padded[i] == n) {
            Some(padded.subrange(0, padded.len() - n))
        } else {
            None
        }
    }
}

/// Block `b` of `data`.
pub open spec fn block_of(data: Seq<u8>, b: int) -> Seq<u8> {
    data.subrange(16 * b, 16 * b + 16)
}

/// Every block of `data` enciphered with `key`.
pub open spec fn ecb_encrypt(key: Seq<u8>, data: Seq<u8>) -> Seq<u8> {
    Seq::new(data.len(), |i: int| encrypt_block_spec(key, block_of(data, i / 16))[i % 16])
}

/// Every block of `data` deciphered with `key`.
pub open spec fn ecb_decrypt(key: Seq<u8>, data: Seq<u8>) -> Seq<u8> {
    Seq::new(data.len(), |i: int| decrypt_block_spec(key, block_of(data, i / 16))[i % 16])
}

/// What `encrypt` returns.
#[verifier::opaque]
pub open spec fn encrypt_spec(key: Seq<u8>, plain: Seq<u8>) -> Seq<u8> {
    ecb_encrypt(key, pad(plain))
}

/// What `decrypt` returns on success; `None` where `sealed` is no whole
/// number of blocks or does not decipher to padded bytes.
#[verifier::opaque]
pub open spec fn decrypt_spec(key: Seq<u8>, sealed: Seq<u8>) -> Option<Seq<u8>> {
    if sealed.len() % 16 != 0 {
        None
    } else {
        unpad(ecb_decrypt(key, sealed))
    }
}

/// The text of the error for bytes that are no output of `encrypt`.
pub open spec fn malformed_text() -> Seq<char> {
    "encrypted data is malformed"@
}

/// Taking the padding off gives back what was padded.
pub proof fn lemma_unpad_pad(plain: Seq<u8>)
    ensures
        unpad(pad(plain)) == Some(plain),
        pad(plain).len() % 16 == 0,
        pad(plain).len() == plain.len() + pad_len(plain.len()),
        1 <= pad_len(plain.len()) <= 16,
{
    let padded = pad(plain);
    let n = pad_len(plain.len());
    assert(padded[padded.len() - 1] == n as u8);
    assert(padded.subrange(0, padded.len() - n) =~= plain);
}

/// Deciphering the blocks undoes enciphering them.
pub proof fn lemma_ecb_round_trip(key: Seq<u8>, data: Seq<u8>)
    requires
        data.len() % 16 == 0,
    ensures
        ecb_decrypt(key, ecb_encrypt(key, data)) == data,
{
    let sealed = ecb_encrypt(key, data);
    assert forall|i: int| 0 <= i < data.len() implies ecb_decrypt(key, sealed)[i] == data[i] by {
        let b = i / 16;
        let block = block_of(data, b);
        lemma_decrypt_block_encrypt_block(key, block);
        assert forall|j: int| 0 <= j < 16 implies block_of(sealed, b)[j] == encrypt_block_spec(
            key,
            block,
        )[j] by {
            assert((16 * b + j) / 16 == b);
            assert((16 * b + j) % 16 == j);
        }
        assert(block_of(sealed, b) =~= encrypt_block_spec(key, block));
        assert(block[i % 16] == data[i]);
    }
    assert(ecb_decrypt(key, sealed) =~= data);
}

/// Round trip: what was encrypted with a key is decrypted with it to the
/// same bytes, whatever the key and the bytes.
pub proof fn lemma_decrypt_encrypt(key: Seq<u8>, plain: Seq<u8>)
    ensures
        decrypt_spec(key, encrypt_spec(key, plain)) == Some(plain),
{
    reveal(encrypt_spec);
    reveal(decrypt_spec);
    lemma_unpad_pad(plain);
    lemma_ecb_round_trip(key, pad(plain));
}

fn load_block(data: &[u8], at: usize) -> (block: [u8; 16])
    requires
        at + 16 <= data.len(),
    ensures
        block@ == data@.subrange(at as int, at + 16),
{
    let mut block: [u8; 16] = [0u8; 16];
    let mut j: usize = 0;
    while j < 16
        invariant
            j <= 16,
            at + 16 <= data.len(),
            forall|k: int| 0 <= k < j ==> block@[k] == data@[at + k],
        decreases 16 - j,
    {
        block[j] = data[at + j];
        j += 1;
    }
    proof {
        assert(block@ =~= data@.subrange(at as int, at + 16));
    }
    block
}

fn push_block(out: &mut Vec<u8>, block: &[u8; 16])
    ensures
        final(out)@ == old(out)@ + block@,
{
    let mut j: usize = 0;
    while j < 16
        invariant
            j <= 16,
            out@ == old(out)@ + block@.subrange(0, j as int),
        decreases 16 - j,
    {
        out.push(block[j]);
        j += 1;
        proof {
            assert(out@ =~= old(out)@ + block@.subrange(0, j as int));
        }
    }
    proof {
        assert(block@.subrange(0, 16) =~= block@);
    }
}

/// `plain` encrypted with `key`: padded, then enciphered block by block.
pub fn encrypt(key: &Key, plain: &[u8]) -> (sealed: Vec<u8>)
    ensures
        sealed@ == encrypt_spec(key@, plain@),
{
    let cipher = Aes256::new(&key.bytes);
    let ghost padded = pad(plain@);
    let ghost want = ecb_encrypt(key@, padded);
    proof {
        reveal(encrypt_spec);
        lemma_unpad_pad(plain@);
    }
    let mut out: Vec<u8> = Vec::new();
    let mut i: usize = 0;
    while plain.len() - i >= 16
        invariant
            i <= plain.len(),
            i % 16 == 0,
            cipher.key() == key@,
            padded == pad(plain@),
            want == ecb_encrypt(key@, padded),
            out@ == want.subrange(0, i as int),
        decreases plain@.len() - i,
    {
        let block = load_block(plain, i);
        let sealed_block = cipher.encrypt_block(&block);
        proof {
            assert(block@ =~= block_of(padded, i as int / 16));
            lemma_decrypt_block_encrypt_block(key@, block@);
            assert forall|j: int| 0 <= j < 16 implies want[i + j] == sealed_block@[j] by {
                assert((i + j) / 16 == i as int / 16);
                assert((i + j) % 16 == j);
            }
            assert(want.subrange(0, i + 16) =~= out@ + sealed_block@);
        }
        push_block(&mut out, &sealed_block);
        i += 16;
    }
    let rest: usize = plain.len() - i;
    let n: usize = 16 - rest;
    let mut block: [u8; 16] = [0u8; 16];
    let mut j: usize = 0;
    while j < 16
        invariant
            j <= 16,
            i + rest == plain.len(),
            rest < 16,
            n == 16 - rest,
            forall|k: int| 0 <= k < j ==> block@[k] == (if k < rest {
                plain@[i + k]
            } else {
                n as u8
            }),
        decreases 16 - j,
    {
        if j < rest {
            block[j] = plain[i + j];
        } else {
            block[j] = n as u8;
        }
        j += 1;
    }
    let sealed_block = cipher.encrypt_block(&block);
    proof {
        assert(pad_len(plain@.len()) == n);
        assert(block@ =~= block_of(padded, i as int / 16));
        lemma_decrypt_block_encrypt_block(key@, block@);
        assert forall|j: int| 0 <= j < 16 implies want[i + j] == sealed_block@[j] by {
            assert((i + j) / 16 == i as int / 16);
            assert((i + j) % 16 == j);
        }
        assert(want =~= out@ + sealed_block@);
    }
    push_block(&mut out, &sealed_block);
    out
}

/// `sealed` decrypted with `key`. Fails with `Other` where `sealed` is no
/// whole number of blocks, or does not decipher to padded bytes, as happens
/// with another key than it was encrypted with.
pub fn decrypt(key: &Key, sealed: &[u8]) -> (r: Result<Vec<u8>, Error>)
    ensures
        outcome(r) == (match decrypt_spec(key@, sealed@) {
            Some(plain) => Ok::<Seq<u8>, Failure>(plain),
            None => Err::<Seq<u8>, Failure>(Failure::Other(malformed_text())),
        }),
{
    proof {
        reveal(decrypt_spec);
    }
    if sealed.len() % 16 != 0 || sealed.len() == 0 {
        return Err(Error::Other(String::from_str("encrypted data is malformed")));
    }
    let cipher = Aes256::new(&key.bytes);
    let ghost want = ecb_decrypt(key@, sealed@);
    let mut out: Vec<u8> = Vec::new();
    let mut i: usize = 0;
    while i < sealed.len()
        invariant
            i <= sealed.len(),
            i % 16 == 0,
            sealed.len() % 16 == 0,
            cipher.key() == key@,
            want == ecb_decrypt(key@, sealed@),
            out@ == want.subrange(0, i as int),
        decreases sealed@.len() - i,
    {
        let block = load_block(sealed, i);
        let plain_block = cipher.decrypt_block(&block);
        proof {
            assert(block@ =~= block_of(sealed@, i as int / 16));
            lemma_decrypt_block_encrypt_block(key@, block@);
            assert forall|j: int| 0 <= j < 16 implies want[i + j] == plain_block@[j] by {
                assert((i + j) / 16 == i as int / 16);
                assert((i + j) % 16 == j);
            }
            assert(want.subrange(0, i + 16) =~= out@ + plain_block@);
        }
        push_block(&mut out, &plain_block);
        i += 16;
    }
    proof {
        assert(want.subrange(0, i as int) =~= want);
    }
    let len: usize = out.len();
    let n: u8 = out[len - 1];
    if n < 1 || n > 16 {
        return Err(Error::Other(String::from_str("encrypted data is malformed")));
    }
    let start: usize = len - n as usize;
    let mut k: usize = start;
    while k < len
        invariant
            start <= k <= len,
            len == out@.len(),
            len == sealed.len(),
            len % 16 == 0,
            1 <= n <= 16,
            start == len - n,
            n == out@[len - 1],
            out@ == ecb_decrypt(key@, sealed@),
            forall|m: int| start <= m < k ==> out@[m] == n,
        decreases len - k,
    {
        if out[k] != n {
            proof {
                reveal(decrypt_spec);
            }
            return Err(Error::Other(String::from_str("encrypted data is malformed")));
        }
        k += 1;
    }
    out.truncate(start);
    Ok(out)
}

} // verus!

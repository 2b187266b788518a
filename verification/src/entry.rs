//! The record of one entry, in memory and as bytes.
//!
//! A record holds the entry's path behind the mount point, where its stored
//! bytes lie in the archive body and how many they are, how many bytes the
//! entry itself has, its codec, whether it is encrypted, and the hash of its
//! bytes where one was taken.

use vstd::prelude::*;
use vstd::slice::{slice_subrange, slice_to_vec};
use vstd::string::*;
use vstd::utf8::{encode_utf8, encode_utf8_decode_utf8, encode_utf8_valid_utf8};
use crate::compression::Compression;
use crate::error::{outcome, Error, Failure};
use crate::wire::{
    bool_field, bytes_field, holds_at, lemma_field_lengths, lemma_holds_at_split, lemma_read_bool,
    lemma_read_bytes, lemma_read_u64, lemma_read_u8, push_bool, push_bytes, push_raw, push_u64,
    read_bool, read_bool_spec, read_bytes, read_bytes_spec, read_matches, read_u64, read_u64_spec,
    read_u8, read_u8_spec, text_of, text_of_spec, u64_field,
};

verus! {

/// One entry of an archive.
#[derive(Debug)]
pub struct Entry {
    /// The logical path: slash-separated, without the mount point.
    pub path: String,
    /// Where the stored bytes begin, counted from the start of the body.
    pub offset: u64,
    /// How many bytes are stored.
    pub stored_size: u64,
    /// How many bytes the entry has once it is decrypted and decompressed.
    pub size: u64,
    /// The codec that the bytes are stored with.
    pub compression: Compression,
    /// Whether the stored bytes are encrypted.
    pub encrypted: bool,
    /// The hash of the entry's bytes, where one was taken.
    pub hash: Option<u64>,
}

/// An entry as contracts speak of it.
pub struct EntryData {
    pub path: Seq<char>,
    pub offset: u64,
    pub stored_size: u64,
    pub size: u64,
    pub compression: Compression,
    pub encrypted: bool,
    pub hash: Option<u64>,
}

impl View for Entry {
    type V = EntryData;

    open spec fn view(&self) -> EntryData {
        EntryData {
            path: self.path@,
            offset: self.offset,
            stored_size: self.stored_size,
            size: self.size,
            compression: self.compression,
            encrypted: self.encrypted,
            hash: self.hash,
        }
    }
}

impl Entry {
    /// A copy of this entry.
    pub fn duplicate(&self) -> (e: Entry)
        ensures
            e@ == self@,
    {
        Entry {
            path: self.path.clone(),
            offset: self.offset,
            stored_size: self.stored_size,
            size: self.size,
            compression: self.compression,
            encrypted: self.encrypted,
            hash: self.hash,
        }
    }
}

/// The path of a record as it is stored: the bytes of the mount point, then
/// those of the logical path.
pub open spec fn stored_path(mount: Seq<char>, path: Seq<char>) -> Seq<u8> {
    encode_utf8(mount) + encode_utf8(path)
}

/// The hash of a record as bytes: whether there is one, then the hash.
pub open spec fn hash_field(hash: Option<u64>) -> Seq<u8> {
    match hash {
        None => bool_field(false),
        Some(h) => bool_field(true) + u64_field(h),
    }
}

/// The record of `e` as bytes, in an archive mounted at `mount`.
pub open spec fn record(mount: Seq<char>, e: EntryData) -> Seq<u8> {
    bytes_field(stored_path(mount, e.path)) + u64_field(e.offset) + u64_field(e.stored_size)
        + u64_field(e.size) + seq![e.compression.tag_spec()] + bool_field(e.encrypted)
        + hash_field(e.hash)
}

/// Whether `lead` stands at the start of `bytes`.
pub open spec fn begins_with(bytes: Seq<u8>, lead: Seq<u8>) -> bool {
    lead.len() <= bytes.len() && bytes.subrange(0, lead.len() as int) == lead
}

/// The logical path that a stored path stands for. The stored path must begin
/// with the mount point, or it is a mismatch that names both; what follows
/// the mount point must be UTF-8.
pub open spec fn logical_path_spec(mount: Seq<char>, stored: Seq<u8>) -> Result<
    Seq<char>,
    Failure,
> {
    let lead = encode_utf8(mount);
    if begins_with(stored, lead) {
        text_of_spec(stored.subrange(lead.len() as int, stored.len() as int))
    } else {
        match text_of_spec(stored) {
            Ok(full) => Err(Failure::PrefixMismatch { prefix: mount, path: full }),
            Err(f) => Err(f),
        }
    }
}

/// The codec at `pos` and the position behind it. A number that names no
/// codec is a failed conversion.
pub open spec fn read_codec_spec(data: Seq<u8>, pos: int) -> Result<(Compression, int), Failure> {
    match read_u8_spec(data, pos) {
        Ok((tag, next)) => match Compression::from_tag_spec(tag) {
            Some(codec) => Ok((codec, next)),
            None => Err(Failure::Strum),
        },
        Err(f) => Err(f),
    }
}

/// The optional hash at `pos` and the position behind it.
pub open spec fn read_hash_spec(data: Seq<u8>, pos: int) -> Result<(Option<u64>, int), Failure> {
    match read_bool_spec(data, pos) {
        Ok((present, next)) => if present {
            match read_u64_spec(data, next) {
                Ok((h, end)) => Ok((Some(h), end)),
                Err(f) => Err(f),
            }
        } else {
            Ok((None, next))
        },
        Err(f) => Err(f),
    }
}

/// The record at `pos` and the position behind it. The fields are read in
/// their order, and the first that fails decides the error.
pub open spec fn read_record_spec(data: Seq<u8>, pos: int, mount: Seq<char>) -> Result<
    (EntryData, int),
    Failure,
> {
    match read_bytes_spec(data, pos) {
        Err(f) => Err(f),
        Ok((stored, p1)) => match logical_path_spec(mount, stored) {
            Err(f) => Err(f),
            Ok(path) => match read_u64_spec(data, p1) {
                Err(f) => Err(f),
                Ok((offset, p2)) => match read_u64_spec(data, p2) {
                    Err(f) => Err(f),
                    Ok((stored_size, p3)) => match read_u64_spec(data, p3) {
                        Err(f) => Err(f),
                        Ok((size, p4)) => match read_codec_spec(data, p4) {
                            Err(f) => Err(f),
                            Ok((compression, p5)) => match read_bool_spec(data, p5) {
                                Err(f) => Err(f),
                                Ok((encrypted, p6)) => match read_hash_spec(data, p6) {
                                    Err(f) => Err(f),
                                    Ok((hash, p7)) => Ok(
                                        (
                                            EntryData {
                                                path,
                                                offset,
                                                stored_size,
                                                size,
                                                compression,
                                                encrypted,
                                                hash,
                                            },
                                            p7,
                                        ),
                                    ),
                                },
                            },
                        },
                    },
                },
            },
        },
    }
}

/// How long the record of `e` is.
pub open spec fn record_len(mount: Seq<char>, e: EntryData) -> int {
    8 + stored_path(mount, e.path).len() + 26 + (if e.hash is Some {
        9int
    } else {
        1int
    })
}

/// A stored path made of a mount point and a logical path stands for that
/// logical path.
pub proof fn lemma_logical_path(mount: Seq<char>, path: Seq<char>)
    ensures
        logical_path_spec(mount, stored_path(mount, path)) == Ok::<Seq<char>, Failure>(path),
{
    let lead = encode_utf8(mount);
    let stored = stored_path(mount, path);
    assert(stored.subrange(0, lead.len() as int) =~= lead);
    assert(stored.subrange(lead.len() as int, stored.len() as int) =~= encode_utf8(path));
    encode_utf8_valid_utf8(path);
    encode_utf8_decode_utf8(path);
}

/// A record is read back as the entry it was made of.
pub proof fn lemma_read_record(data: Seq<u8>, pos: int, mount: Seq<char>, e: EntryData)
    requires
        stored_path(mount, e.path).len() <= u64::MAX,
        holds_at(data, pos, record(mount, e)),
    ensures
        read_record_spec(data, pos, mount) == Ok::<(EntryData, int), Failure>(
            (e, pos + record_len(mount, e)),
        ),
        record(mount, e).len() == record_len(mount, e),
{
    lemma_field_lengths();
    let f0 = bytes_field(stored_path(mount, e.path));
    let f1 = u64_field(e.offset);
    let f2 = u64_field(e.stored_size);
    let f3 = u64_field(e.size);
    let f4 = seq![e.compression.tag_spec()];
    let f5 = bool_field(e.encrypted);
    let f6 = hash_field(e.hash);
    lemma_holds_at_split(data, pos, f0 + f1 + f2 + f3 + f4 + f5, f6);
    lemma_holds_at_split(data, pos, f0 + f1 + f2 + f3 + f4, f5);
    lemma_holds_at_split(data, pos, f0 + f1 + f2 + f3, f4);
    lemma_holds_at_split(data, pos, f0 + f1 + f2, f3);
    lemma_holds_at_split(data, pos, f0 + f1, f2);
    lemma_holds_at_split(data, pos, f0, f1);
    lemma_read_bytes(data, pos, stored_path(mount, e.path));
    lemma_logical_path(mount, e.path);
    let p1 = pos + f0.len();
    lemma_read_u64(data, p1, e.offset);
    let p2 = p1 + 8;
    lemma_read_u64(data, p2, e.stored_size);
    let p3 = p2 + 8;
    lemma_read_u64(data, p3, e.size);
    let p4 = p3 + 8;
    lemma_read_u8(data, p4, e.compression.tag_spec());
    Compression::lemma_round_trip(e.compression);
    let p5 = p4 + 1;
    lemma_read_bool(data, p5, e.encrypted);
    let p6 = p5 + 1;
    match e.hash {
        None => {
            lemma_read_bool(data, p6, false);
        },
        Some(h) => {
            lemma_holds_at_split(data, p6, bool_field(true), u64_field(h));
            lemma_read_bool(data, p6, true);
            lemma_read_u64(data, p6 + 1, h);
        },
    }
}

/// The logical path that a stored path stands for.
pub fn logical_path(mount: &String, stored: Vec<u8>) -> (r: Result<String, Error>)
    ensures
        outcome(r) == logical_path_spec(mount@, stored@),
{
    let lead = mount.as_str().as_bytes();
    let mut matches: bool = lead.len() <= stored.len();
    let mut i: usize = 0;
    while matches && i < lead.len()
        invariant
            i <= lead.len(),
            matches ==> lead.len() <= stored.len(),
            matches ==> forall|k: int| 0 <= k < i ==> stored@[k] == lead@[k],
            !matches ==> !begins_with(stored@, lead@),
        decreases lead.len() - i + (if matches { 1int } else { 0int }),
    {
        if stored[i] != lead[i] {
            matches = false;
            proof {
                if lead.len() <= stored.len() {
                    assert(stored@.subrange(0, lead@.len() as int)[i as int] != lead@[i as int]);
                }
            }
        } else {
            i += 1;
        }
    }
    if matches {
        proof {
            assert(stored@.subrange(0, lead@.len() as int) =~= lead@);
        }
        let rest = slice_to_vec(slice_subrange(stored.as_slice(), lead.len(), stored.len()));
        text_of(rest)
    } else {
        match text_of(stored) {
            Ok(full) => Err(Error::PrefixMismatch { prefix: mount.clone(), path: full }),
            Err(e) => Err(e),
        }
    }
}

/// Reads the codec at `pos`.
pub fn read_codec(data: &[u8], pos: usize) -> (r: Result<(Compression, usize), Error>)
    ensures
        match read_codec_spec(data@, pos as int) {
            Ok((codec, next)) => r matches Ok((c, n)) && c == codec && n == next,
            Err(f) => r matches Err(e) && e@ == f,
        },
{
    match read_u8(data, pos) {
        Ok((tag, next)) => match Compression::from_tag(tag) {
            Ok(codec) => Ok((codec, next)),
            Err(e) => Err(Error::Strum(e)),
        },
        Err(e) => Err(e),
    }
}

/// Reads the optional hash at `pos`.
pub fn read_hash(data: &[u8], pos: usize) -> (r: Result<(Option<u64>, usize), Error>)
    ensures
        match read_hash_spec(data@, pos as int) {
            Ok((hash, next)) => r matches Ok((h, n)) && h == hash && n == next,
            Err(f) => r matches Err(e) && e@ == f,
        },
{
    match read_bool(data, pos) {
        Ok((present, next)) => {
            if present {
                match read_u64(data, next) {
                    Ok((h, end)) => Ok((Some(h), end)),
                    Err(e) => Err(e),
                }
            } else {
                Ok((None, next))
            }
        },
        Err(e) => Err(e),
    }
}

/// Reads the record at `pos` of an archive mounted at `mount`.
pub fn read_record(data: &[u8], pos: usize, mount: &String) -> (r: Result<(Entry, usize), Error>)
    ensures
        read_matches(r, read_record_spec(data@, pos as int, mount@)),
{
    let (stored, p1) = match read_bytes(data, pos) {
        Ok(v) => v,
        Err(e) => {
            return Err(e);
        },
    };
    let path = match logical_path(mount, stored) {
        Ok(v) => v,
        Err(e) => {
            return Err(e);
        },
    };
    let (offset, p2) = match read_u64(data, p1) {
        Ok(v) => v,
        Err(e) => {
            return Err(e);
        },
    };
    let (stored_size, p3) = match read_u64(data, p2) {
        Ok(v) => v,
        Err(e) => {
            return Err(e);
        },
    };
    let (size, p4) = match read_u64(data, p3) {
        Ok(v) => v,
        Err(e) => {
            return Err(e);
        },
    };
    let (compression, p5) = match read_codec(data, p4) {
        Ok(v) => v,
        Err(e) => {
            return Err(e);
        },
    };
    let (encrypted, p6) = match read_bool(data, p5) {
        Ok(v) => v,
        Err(e) => {
            return Err(e);
        },
    };
    let (hash, p7) = match read_hash(data, p6) {
        Ok(v) => v,
        Err(e) => {
            return Err(e);
        },
    };
    Ok((Entry { path, offset, stored_size, size, compression, encrypted, hash }, p7))
}

/// Appends the record of `e`, in an archive mounted at `mount`.
pub fn push_record(out: &mut Vec<u8>, mount: &String, e: &Entry)
    ensures
        final(out)@ == old(out)@ + record(mount@, e@),
        stored_path(mount@, e@.path).len() <= u64::MAX,
{
    let mut stored: Vec<u8> = Vec::new();
    push_raw(&mut stored, mount.as_str().as_bytes());
    push_raw(&mut stored, e.path.as_str().as_bytes());
    let stored_len: usize = stored.len();
    proof {
        assert(stored@ =~= stored_path(mount@, e@.path));
        assert(stored_path(mount@, e@.path).len() == stored_len);
    }
    push_bytes(out, stored.as_slice());
    push_u64(out, e.offset);
    push_u64(out, e.stored_size);
    push_u64(out, e.size);
    out.push(e.compression.tag());
    push_bool(out, e.encrypted);
    match e.hash {
        None => {
            push_bool(out, false);
        },
        Some(h) => {
            push_bool(out, true);
            push_u64(out, h);
        },
    }
    proof {
        assert(final(out)@ =~= old(out)@ + record(mount@, e@));
    }
}

} // verus!

//! Reading an archive: it is opened once, which validates the header and
//! loads the index, and after that any entry can be looked up and read.

use vstd::prelude::*;
use vstd::slice::slice_subrange;
use crate::archive::{
    key_view, open_spec, read_header, read_index, ArchiveData, Header,
};
use crate::compression::{
    accept, accept_spec, decompress, decompress_spec, Support, Unpacked,
};
use crate::encryption::{decrypt, decrypt_spec, malformed_text, Key};
use crate::entry::{Entry, EntryData};
use crate::error::{outcome, unexpected_eof, Error, Failure};
use crate::hash::{fnv1a, hash};
use crate::index::{entries_view, lemma_position, position_spec, Index};
use crate::version::VersionMajor;
use crate::wire::fits;

verus! {

/// The stored bytes without their encryption. Encrypted bytes need the
/// cipher and the key: without the cipher this is `Encryption`, without the
/// key `Encrypted`; bytes that do not decrypt are an error in words.
pub open spec fn unseal_spec(
    stored: Seq<u8>,
    encrypted: bool,
    key: Option<Seq<u8>>,
    support: Support,
) -> Result<Seq<u8>, Failure> {
    if !encrypted {
        Ok(stored)
    } else if !support.encryption {
        Err(Failure::Encryption)
    } else {
        match key {
            None => Err(Failure::Encrypted),
            Some(k) => match decrypt_spec(k, stored) {
                Some(packed) => Ok(packed),
                None => Err(Failure::Other(malformed_text())),
            },
        }
    }
}

/// The entry's bytes held against its hash: bytes with another hash than the
/// record gives did not come back as they were, which is a failed
/// decompression.
pub open spec fn check_hash_spec(e: EntryData, raw: Seq<u8>) -> Result<Seq<u8>, Failure> {
    match e.hash {
        Some(h) => if fnv1a(raw) == h {
            Ok(raw)
        } else {
            Err(Failure::DecompressionFailed(e.compression))
        },
        None => Ok(raw),
    }
}

/// What the native Oodle routine produced for an entry, held to the entry's
/// size and hash. An entry too large for the machine's memory is a failed
/// decompression.
pub open spec fn accept_entry_spec(e: EntryData, produced: Option<Seq<u8>>) -> Result<
    Seq<u8>,
    Failure,
> {
    if e.size > usize::MAX {
        Err(Failure::DecompressionFailed(e.compression))
    } else {
        match accept_spec(e.compression, produced, e.size as nat) {
            Ok(raw) => check_hash_spec(e, raw),
            Err(f) => Err(f),
        }
    }
}

/// The packed bytes of an entry turned into the entry's bytes: `Ok(None)`
/// where the caller has to run Oodle. An entry too large for the machine's
/// memory is a failed decompression.
pub open spec fn unpack_entry_spec(e: EntryData, packed: Seq<u8>, support: Support) -> Result<
    Option<Seq<u8>>,
    Failure,
> {
    if e.size > usize::MAX {
        Err(Failure::DecompressionFailed(e.compression))
    } else {
        match decompress_spec(e.compression, packed, e.size as nat, support) {
            Err(f) => Err(f),
            Ok(None) => Ok(None),
            Ok(Some(raw)) => match check_hash_spec(e, raw) {
                Ok(raw) => Ok(Some(raw)),
                Err(f) => Err(f),
            },
        }
    }
}

/// What reading the entry `e` from the archive body `body` gives: the
/// entry's bytes, or `Ok(None)` where the caller has to run Oodle on the
/// stored bytes. A record that points outside the body is a failed read.
pub open spec fn read_entry_spec(
    body: Seq<u8>,
    key: Option<Seq<u8>>,
    support: Support,
    e: EntryData,
) -> Result<Option<Seq<u8>>, Failure> {
    if !fits(body, e.offset as int, e.stored_size as int) {
        Err(Failure::Io)
    } else {
        match unseal_spec(
            body.subrange(e.offset as int, e.offset + e.stored_size),
            e.encrypted,
            key,
            support,
        ) {
            Err(f) => Err(f),
            Ok(packed) => unpack_entry_spec(e, packed, support),
        }
    }
}

/// What reading the entry stops at where Oodle has to be run: the stored
/// bytes without their encryption.
pub open spec fn packed_entry_spec(
    body: Seq<u8>,
    key: Option<Seq<u8>>,
    support: Support,
    e: EntryData,
) -> Result<Seq<u8>, Failure> {
    if !fits(body, e.offset as int, e.stored_size as int) {
        Err(Failure::Io)
    } else {
        unseal_spec(
            body.subrange(e.offset as int, e.offset + e.stored_size),
            e.encrypted,
            key,
            support,
        )
    }
}

/// The bytes that an archive holds under `path`: what reading the first
/// entry with that path gives. `None` where there is no such entry, or it
/// does not read, or is left to Oodle.
#[verifier::opaque]
pub open spec fn stored_content(
    entries: Seq<EntryData>,
    body: Seq<u8>,
    key: Option<Seq<u8>>,
    support: Support,
    path: Seq<char>,
) -> Option<Seq<u8>> {
    match position_spec(entries, path) {
        None => None,
        Some(i) => match read_entry_spec(body, key, support, entries[i]) {
            Ok(Some(raw)) => Some(raw),
            _ => None,
        },
    }
}

/// What an archive holds under a path is what looking the path up and
/// reading the entry found gives.
pub proof fn lemma_content_is_read(
    entries: Seq<EntryData>,
    body: Seq<u8>,
    key: Option<Seq<u8>>,
    support: Support,
    path: Seq<char>,
    raw: Seq<u8>,
)
    requires
        stored_content(entries, body, key, support, path) == Some(raw),
    ensures
        position_spec(entries, path) matches Some(i) && 0 <= i < entries.len() && entries[i].path
            == path && read_entry_spec(body, key, support, entries[i]) == Ok::<
            Option<Seq<u8>>,
            Failure,
        >(Some(raw)),
{
    reveal(stored_content);
    lemma_position(entries, path);
}

/// An entry that lies within a body reads the same from any longer body.
pub proof fn lemma_read_entry_extends(
    body: Seq<u8>,
    more: Seq<u8>,
    key: Option<Seq<u8>>,
    support: Support,
    e: EntryData,
)
    requires
        fits(body, e.offset as int, e.stored_size as int),
    ensures
        read_entry_spec(body + more, key, support, e) == read_entry_spec(body, key, support, e),
{
    assert((body + more).subrange(e.offset as int, e.offset + e.stored_size) =~= body.subrange(
        e.offset as int,
        e.offset + e.stored_size,
    ));
}

fn check_hash(entry: &Entry, raw: Vec<u8>) -> (r: Result<Vec<u8>, Error>)
    ensures
        outcome(r) == check_hash_spec(entry@, raw@),
{
    match entry.hash {
        Some(h) => {
            if hash(raw.as_slice()) == h {
                Ok(raw)
            } else {
                Err(Error::DecompressionFailed(entry.compression))
            }
        },
        None => Ok(raw),
    }
}

fn unpack_entry(entry: &Entry, packed: &[u8], support: &Support) -> (r: Result<Unpacked, Error>)
    ensures
        outcome(r) == unpack_entry_spec(entry@, packed@, *support),
{
    if entry.size > usize::MAX as u64 {
        return Err(Error::DecompressionFailed(entry.compression));
    }
    match decompress(entry.compression, packed, entry.size as usize, support) {
        Err(e) => Err(e),
        Ok(Unpacked::Oodle) => Ok(Unpacked::Oodle),
        Ok(Unpacked::Bytes(raw)) => match check_hash(entry, raw) {
            Ok(raw) => Ok(Unpacked::Bytes(raw)),
            Err(e) => Err(e),
        },
    }
}

/// An archive that was opened for reading.
pub struct PakReader {
    data: Vec<u8>,
    version: VersionMajor,
    encrypted: bool,
    index: Index,
    key: Option<Key>,
    support: Support,
    body_start: usize,
}

impl PakReader {
    /// The bytes of the archive.
    pub closed spec fn data(&self) -> Seq<u8> {
        self.data@
    }

    /// What opening the archive gave.
    pub closed spec fn archive(&self) -> ArchiveData {
        ArchiveData {
            header: crate::archive::HeaderData {
                version: self.version,
                encrypted: self.encrypted,
                mount_point: self.index.mount_point@,
            },
            entries: entries_view(self.index.entries@),
            body_start: self.body_start as int,
        }
    }

    /// The key that the archive is read with.
    pub closed spec fn key(&self) -> Option<Seq<u8>> {
        key_view(self.key)
    }

    /// The capabilities that the archive is read with.
    pub closed spec fn support(&self) -> Support {
        self.support
    }

    /// The bytes that the archive holds under `path`.
    pub open spec fn content(&self, path: Seq<char>) -> Option<Seq<u8>> {
        stored_content(self.archive().entries, self.body(), self.key(), self.support(), path)
    }

    /// The archive body: what lies behind the index.
    pub open spec fn body(&self) -> Seq<u8> {
        self.data().subrange(self.archive().body_start, self.data().len() as int)
    }

    #[verifier::type_invariant]
    spec fn body_within(&self) -> bool {
        self.body_start <= self.data@.len()
    }

    /// Opens the archive `data`, with the key where there is one, as a reader
    /// built for the revision `used`.
    ///
    /// Succeeds exactly where [`open_spec`] does, and fails with its error:
    /// the header is validated first, then the index is loaded. No reader is
    /// returned for an archive of which either failed.
    pub fn open(data: Vec<u8>, key: Option<Key>, used: VersionMajor, support: Support) -> (r:
        Result<PakReader, Error>)
        ensures
            match open_spec(data@, key_view(key), used, support) {
                Ok(archive) => r matches Ok(reader) && reader.archive() == archive
                    && reader.data() == data@ && reader.key() == key_view(key)
                    && reader.support() == support,
                Err(f) => r matches Err(e) && e@ == f,
            },
    {
        let (header, pos) = match read_header(data.as_slice(), used) {
            Ok(v) => v,
            Err(e) => {
                return Err(e);
            },
        };
        let (entries, body_start) = match read_index(data.as_slice(), pos, &header, &key, &support) {
            Ok(v) => v,
            Err(e) => {
                return Err(e);
            },
        };
        let Header { version, encrypted, mount_point } = header;
        Ok(
            PakReader {
                data,
                version,
                encrypted,
                index: Index { mount_point, entries },
                key,
                support,
                body_start,
            },
        )
    }

    /// The revision of the archive.
    pub fn version(&self) -> (v: VersionMajor)
        ensures
            v == self.archive().header.version,
    {
        self.version
    }

    /// Whether the index of the archive is encrypted.
    pub fn encrypted(&self) -> (b: bool)
        ensures
            b == self.archive().header.encrypted,
    {
        self.encrypted
    }

    /// The mount point of the archive.
    pub fn mount_point(&self) -> (m: &String)
        ensures
            m@ == self.archive().header.mount_point,
    {
        &self.index.mount_point
    }

    /// How many entries the archive has.
    pub fn len(&self) -> (n: usize)
        ensures
            n == self.archive().entries.len(),
    {
        self.index.entries.len()
    }

    /// The entries of the archive, in their order.
    pub fn entries(&self) -> (entries: &Vec<Entry>)
        ensures
            entries_view(entries@) == self.archive().entries,
    {
        &self.index.entries
    }

    /// The entry with the given path; a path that the archive does not hold
    /// is a missing entry that names the path.
    pub fn lookup(&self, path: &str) -> (r: Result<&Entry, Error>)
        ensures
            match position_spec(self.archive().entries, path@) {
                Some(i) => r matches Ok(e) && 0 <= i < self.archive().entries.len() && e@
                    == self.archive().entries[i] && e@.path == path@,
                None => r matches Err(e) && e@ == Failure::MissingEntry(path@),
            },
    {
        proof {
            lemma_position(self.archive().entries, path@);
        }
        self.index.lookup(path)
    }

    /// The stored bytes of `entry` without their encryption.
    pub fn packed(&self, entry: &Entry) -> (r: Result<Vec<u8>, Error>)
        ensures
            outcome(r) == packed_entry_spec(self.body(), self.key(), self.support(), entry@),
    {
        proof {
            use_type_invariant(self);
        }
        let body_len: usize = self.data.len() - self.body_start;
        if entry.offset > body_len as u64 || entry.stored_size > body_len as u64 - entry.offset {
            return Err(Error::Io(unexpected_eof()));
        }
        let from: usize = self.body_start + entry.offset as usize;
        let to: usize = from + entry.stored_size as usize;
        let stored = slice_subrange(self.data.as_slice(), from, to);
        proof {
            assert(stored@ =~= self.body().subrange(
                entry.offset as int,
                entry.offset + entry.stored_size,
            ));
        }
        if !entry.encrypted {
            return Ok(vstd::slice::slice_to_vec(stored));
        }
        if !self.support.encryption {
            return Err(Error::Encryption);
        }
        match &self.key {
            None => Err(Error::Encrypted),
            Some(k) => decrypt(k, stored),
        }
    }

    /// The bytes of `entry`: found at its offset, decrypted where the entry
    /// is encrypted, decompressed with the codec of its record to exactly
    /// the size of its record, and held against its hash where it has one.
    /// For an Oodle entry with the routine loaded this is the request to run
    /// it on what [`PakReader::packed`] gives.
    pub fn read(&self, entry: &Entry) -> (r: Result<Unpacked, Error>)
        ensures
            outcome(r) == read_entry_spec(self.body(), self.key(), self.support(), entry@),
    {
        match self.packed(entry) {
            Ok(packed) => unpack_entry(entry, packed.as_slice(), &self.support),
            Err(e) => Err(e),
        }
    }

    /// What the native Oodle routine produced for `entry`, held to the size
    /// and the hash of its record; `None` where the routine reported an
    /// error.
    pub fn accept(&self, entry: &Entry, produced: Option<Vec<u8>>) -> (r: Result<Vec<u8>, Error>)
        ensures
            outcome(r) == accept_entry_spec(
                entry@,
                match produced {
                    Some(v) => Some(v@),
                    None => None,
                },
            ),
    {
        if entry.size > usize::MAX as u64 {
            return Err(Error::DecompressionFailed(entry.compression));
        }
        match accept(entry.compression, produced, entry.size as usize) {
            Ok(raw) => check_hash(entry, raw),
            Err(e) => Err(e),
        }
    }
}

} // verus!

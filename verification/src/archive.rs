//! The layout of an archive, and how it is read.
//!
//! An archive is its header, its index and its body, in that order. The
//! header holds the magic number, the revision, whether the archive is
//! encrypted, and the mount point. The index is a field of bytes that holds
//! the entry table, encrypted where the archive is. The body holds the
//! stored bytes of the entries; an entry's offset counts from its start.

use vstd::prelude::*;
use vstd::bytes::*;
use vstd::string::*;
use vstd::utf8::encode_utf8;
use crate::compression::Support;
use crate::encryption::{decrypt, decrypt_spec, encrypt_spec, lemma_decrypt_encrypt, Key};
use crate::entry::{Entry, EntryData};
use crate::error::{Error, Failure};
use crate::index::{
    entries_view, lemma_read_table, paths_fit, read_table, read_table_spec, table,
};
use crate::version::VersionMajor;
use crate::wire::{
    bool_field, bytes_field, holds_at, leading_number, lemma_field_lengths, lemma_holds_at_split,
    lemma_read_bool, lemma_read_bytes, lemma_read_text, lemma_read_u8, read_bool, read_bool_spec,
    read_bytes, read_bytes_spec, read_leading_number, read_matches, read_text, read_text_spec,
    read_u8, read_u8_spec, text_field, u32_field,
};
use crate::MAGIC;

verus! {

/// What the header of an archive says.
#[derive(Debug)]
pub struct Header {
    /// The revision of the layout.
    pub version: VersionMajor,
    /// Whether the index is encrypted.
    pub encrypted: bool,
    /// The prefix under which every logical path is rooted.
    pub mount_point: String,
}

/// A header as contracts speak of it.
pub struct HeaderData {
    pub version: VersionMajor,
    pub encrypted: bool,
    pub mount_point: Seq<char>,
}

impl View for Header {
    type V = HeaderData;

    open spec fn view(&self) -> HeaderData {
        HeaderData {
            version: self.version,
            encrypted: self.encrypted,
            mount_point: self.mount_point@,
        }
    }
}

/// An archive that was opened: its header, its entries, and where its body
/// begins.
pub struct ArchiveData {
    pub header: HeaderData,
    pub entries: Seq<EntryData>,
    pub body_start: int,
}

/// The key as contracts speak of it.
pub open spec fn key_view(key: Option<Key>) -> Option<Seq<u8>> {
    match key {
        Some(k) => Some(k@),
        None => None,
    }
}

/// Whether one of the entries is encrypted.
pub open spec fn any_encrypted(entries: Seq<EntryData>) -> bool {
    exists|i: int| 0 <= i < entries.len() && (#[trigger] entries[i]).encrypted
}

/// What the error for an index that does not read as one says before its
/// fixed words: the revision that the header gave.
pub open spec fn doubt_detail(version: VersionMajor) -> Seq<char> {
    version.name_spec() + " "@
}

/// The header as bytes.
pub open spec fn header_bytes(h: HeaderData) -> Seq<u8> {
    u32_field(MAGIC) + seq![h.version.tag_spec()] + bool_field(h.encrypted) + text_field(
        h.mount_point,
    )
}

/// The index as it is stored: the entry table, encrypted where the archive
/// is.
pub open spec fn index_payload(h: HeaderData, key: Option<Seq<u8>>, entries: Seq<EntryData>) -> Seq<
    u8,
> {
    if h.encrypted && key is Some {
        encrypt_spec(key->Some_0, table(h.mount_point, entries))
    } else {
        table(h.mount_point, entries)
    }
}

/// A whole archive as bytes.
pub open spec fn archive_bytes(
    h: HeaderData,
    key: Option<Seq<u8>>,
    entries: Seq<EntryData>,
    body: Seq<u8>,
) -> Seq<u8> {
    header_bytes(h) + bytes_field(index_payload(h, key, entries)) + body
}

/// The header at the start of `data`, for a reader built for the revision
/// `used`, and the position behind it.
///
/// Data that does not begin with the magic number is a magic mismatch that
/// carries the number found. A revision number that names no revision is a
/// failed conversion; a revision later than `used` is a version error that
/// names both.
pub open spec fn read_header_spec(data: Seq<u8>, used: VersionMajor) -> Result<
    (HeaderData, int),
    Failure,
> {
    if data.len() < 4 || leading_number(data) != MAGIC {
        Err(Failure::Magic(leading_number(data)))
    } else {
        match read_u8_spec(data, 4) {
            Err(f) => Err(f),
            Ok((tag, p1)) => match VersionMajor::from_tag_spec(tag) {
                None => Err(Failure::Strum),
                Some(version) => if version.tag_spec() > used.tag_spec() {
                    Err(Failure::Version { used, version })
                } else {
                    match read_bool_spec(data, p1) {
                        Err(f) => Err(f),
                        Ok((encrypted, p2)) => match read_text_spec(data, p2) {
                            Err(f) => Err(f),
                            Ok((mount_point, p3)) => Ok(
                                (HeaderData { version, encrypted, mount_point }, p3),
                            ),
                        },
                    }
                },
            },
        }
    }
}

/// The entries of the index at `pos`, and the position behind the index,
/// where the body begins.
///
/// An encrypted index needs the cipher and the key: without the cipher this
/// is `Encryption`, without the key `Encrypted`, before anything is read. An
/// encrypted index that does not decrypt, or does not read as a table once
/// decrypted, is `UnsupportedOrEncrypted`: the key may be wrong, or the
/// revision. The same two checks are made where the index is not encrypted
/// and one of its entries is.
pub open spec fn read_index_spec(
    data: Seq<u8>,
    pos: int,
    h: HeaderData,
    key: Option<Seq<u8>>,
    support: Support,
) -> Result<(Seq<EntryData>, int), Failure> {
    if h.encrypted && !support.encryption {
        Err(Failure::Encryption)
    } else if h.encrypted && key is None {
        Err(Failure::Encrypted)
    } else {
        match read_bytes_spec(data, pos) {
            Err(f) => Err(f),
            Ok((payload, body_start)) => if h.encrypted {
                match decrypt_spec(key->Some_0, payload) {
                    None => Err(Failure::UnsupportedOrEncrypted(doubt_detail(h.version))),
                    Some(plain) => match read_table_spec(plain, 0, h.mount_point) {
                        Err(f) => Err(Failure::UnsupportedOrEncrypted(doubt_detail(h.version))),
                        Ok((entries, end)) => Ok((entries, body_start)),
                    },
                }
            } else {
                match read_table_spec(payload, 0, h.mount_point) {
                    Err(f) => Err(f),
                    Ok((entries, end)) => if any_encrypted(entries) && !support.encryption {
                        Err(Failure::Encryption)
                    } else if any_encrypted(entries) && key is None {
                        Err(Failure::Encrypted)
                    } else {
                        Ok((entries, body_start))
                    },
                }
            },
        }
    }
}

/// What opening `data` gives.
pub open spec fn open_spec(
    data: Seq<u8>,
    key: Option<Seq<u8>>,
    used: VersionMajor,
    support: Support,
) -> Result<ArchiveData, Failure> {
    match read_header_spec(data, used) {
        Err(f) => Err(f),
        Ok((header, pos)) => match read_index_spec(data, pos, header, key, support) {
            Err(f) => Err(f),
            Ok((entries, body_start)) => Ok(ArchiveData { header, entries, body_start }),
        },
    }
}

/// Data that does not start with the magic number is never opened: the
/// error carries the number that the leading bytes make.
pub proof fn lemma_wrong_magic(
    data: Seq<u8>,
    key: Option<Seq<u8>>,
    used: VersionMajor,
    support: Support,
)
    requires
        !holds_at(data, 0, u32_field(MAGIC)),
    ensures
        open_spec(data, key, used, support) == Err::<ArchiveData, Failure>(
            Failure::Magic(leading_number(data)),
        ),
{
    if data.len() >= 4 && leading_number(data) == MAGIC {
        let lead = Seq::new(
            4,
            |i: int|
                if i < data.len() {
                    data[i]
                } else {
                    0u8
                },
        );
        lemma_auto_spec_u32_to_from_le_bytes();
        assert(lead =~= data.subrange(0, 4));
        assert(spec_u32_to_le_bytes(spec_u32_from_le_bytes(lead)) == lead);
        assert(false);
    }
}

/// An archive of a later revision than the reader was built for is never
/// opened: the error names the reader's revision and the archive's.
pub proof fn lemma_later_version(
    data: Seq<u8>,
    key: Option<Seq<u8>>,
    used: VersionMajor,
    support: Support,
    version: VersionMajor,
)
    requires
        holds_at(data, 0, u32_field(MAGIC) + seq![version.tag_spec()]),
        version.tag_spec() > used.tag_spec(),
    ensures
        open_spec(data, key, used, support) == Err::<ArchiveData, Failure>(
            Failure::Version { used, version },
        ),
{
    lemma_field_lengths();
    lemma_holds_at_split(data, 0, u32_field(MAGIC), seq![version.tag_spec()]);
    lemma_leading_magic(data);
    lemma_read_u8(data, 4, version.tag_spec());
    VersionMajor::lemma_tag_round_trip(version);
}

/// An encrypted archive is never opened without a key, where the cipher
/// itself may be used: the error is `Encrypted`, and no other.
pub proof fn lemma_encrypted_without_key(data: Seq<u8>, used: VersionMajor, support: Support)
    requires
        support.encryption,
        read_header_spec(data, used) is Ok,
        read_header_spec(data, used)->Ok_0.0.encrypted,
    ensures
        open_spec(data, None, used, support) == Err::<ArchiveData, Failure>(Failure::Encrypted),
{
}

/// Data that begins with the bytes of the magic number has it as its leading
/// number.
pub proof fn lemma_leading_magic(data: Seq<u8>)
    requires
        holds_at(data, 0, u32_field(MAGIC)),
    ensures
        data.len() >= 4,
        leading_number(data) == MAGIC,
{
    lemma_auto_spec_u32_to_from_le_bytes();
    let lead = Seq::new(
        4,
        |i: int|
            if i < data.len() {
                data[i]
            } else {
                0u8
            },
    );
    assert(lead =~= data.subrange(0, 4));
}

/// How long the header is.
pub open spec fn header_len(h: HeaderData) -> int {
    14 + encode_utf8(h.mount_point).len() as int
}

/// A header is read back as it was written, by any reader built for its
/// revision or a later one.
pub proof fn lemma_read_header(data: Seq<u8>, h: HeaderData, used: VersionMajor)
    requires
        holds_at(data, 0, header_bytes(h)),
        h.version.tag_spec() <= used.tag_spec(),
        encode_utf8(h.mount_point).len() <= u64::MAX,
    ensures
        read_header_spec(data, used) == Ok::<(HeaderData, int), Failure>((h, header_len(h))),
        header_bytes(h).len() == header_len(h),
{
    lemma_field_lengths();
    let f0 = u32_field(MAGIC);
    let f1 = seq![h.version.tag_spec()];
    let f2 = bool_field(h.encrypted);
    let f3 = text_field(h.mount_point);
    lemma_holds_at_split(data, 0, f0 + f1 + f2, f3);
    lemma_holds_at_split(data, 0, f0 + f1, f2);
    lemma_holds_at_split(data, 0, f0, f1);
    lemma_leading_magic(data);
    lemma_read_u8(data, 4, h.version.tag_spec());
    VersionMajor::lemma_tag_round_trip(h.version);
    lemma_read_bool(data, 5, h.encrypted);
    lemma_read_text(data, 6, h.mount_point);
    lemma_read_bytes(data, 6, encode_utf8(h.mount_point));
}

/// Whether an archive of these parts can be written and read again: the
/// lengths can be written down, and whatever is encrypted has its key and
/// the cipher.
pub open spec fn writable(
    h: HeaderData,
    key: Option<Seq<u8>>,
    support: Support,
    entries: Seq<EntryData>,
) -> bool {
    &&& encode_utf8(h.mount_point).len() <= u64::MAX
    &&& entries.len() <= u64::MAX
    &&& paths_fit(h.mount_point, entries)
    &&& index_payload(h, key, entries).len() <= u64::MAX
    &&& (h.encrypted || any_encrypted(entries)) ==> key is Some && support.encryption
}

/// An index is read back as the entries it was made of.
pub proof fn lemma_read_index(
    data: Seq<u8>,
    pos: int,
    h: HeaderData,
    key: Option<Seq<u8>>,
    support: Support,
    entries: Seq<EntryData>,
)
    requires
        writable(h, key, support, entries),
        holds_at(data, pos, bytes_field(index_payload(h, key, entries))),
    ensures
        read_index_spec(data, pos, h, key, support) == Ok::<(Seq<EntryData>, int), Failure>(
            (entries, pos + 8 + index_payload(h, key, entries).len()),
        ),
        bytes_field(index_payload(h, key, entries)).len() == 8 + index_payload(
            h,
            key,
            entries,
        ).len(),
{
    let payload = index_payload(h, key, entries);
    let plain = table(h.mount_point, entries);
    lemma_read_bytes(data, pos, payload);
    assert(plain.subrange(0, plain.len() as int) =~= plain);
    lemma_read_table(plain, 0, h.mount_point, entries);
    if h.encrypted {
        lemma_decrypt_encrypt(key->Some_0, plain);
    }
}

/// Round trip of the layout: the bytes of an archive open to the header and
/// the entries that they were made of, and the body is found where the
/// opened archive says that it begins.
pub proof fn lemma_open_archive_bytes(
    h: HeaderData,
    key: Option<Seq<u8>>,
    support: Support,
    entries: Seq<EntryData>,
    body: Seq<u8>,
    used: VersionMajor,
)
    requires
        writable(h, key, support, entries),
        h.version.tag_spec() <= used.tag_spec(),
    ensures
        ({
            let data = archive_bytes(h, key, entries, body);
            let body_start = data.len() - body.len();
            &&& open_spec(data, key, used, support) == Ok::<ArchiveData, Failure>(
                ArchiveData { header: h, entries, body_start },
            )
            &&& 0 <= body_start
            &&& data.subrange(body_start, data.len() as int) == body
        }),
{
    let data = archive_bytes(h, key, entries, body);
    let head = header_bytes(h);
    let field = bytes_field(index_payload(h, key, entries));
    assert(data.subrange(0, (head + field).len() as int) =~= head + field);
    assert(holds_at(data, 0, head + field));
    lemma_holds_at_split(data, 0, head, field);
    lemma_read_header(data, h, used);
    lemma_read_index(data, header_len(h), h, key, support, entries);
    let body_start = header_len(h) + field.len();
    assert(data.len() == head.len() + field.len() + body.len());
    assert(data.subrange(body_start, data.len() as int) =~= body);
}

/// Reads the header at the start of `data`, for a reader built for the
/// revision `used`.
pub fn read_header(data: &[u8], used: VersionMajor) -> (r: Result<(Header, usize), Error>)
    ensures
        read_matches(r, read_header_spec(data@, used)),
{
    let found: u32 = read_leading_number(data);
    if data.len() < 4 || found != MAGIC {
        return Err(Error::Magic(found));
    }
    let (tag, p1) = match read_u8(data, 4) {
        Ok(v) => v,
        Err(e) => {
            return Err(e);
        },
    };
    let version = match VersionMajor::from_tag(tag) {
        Ok(v) => v,
        Err(e) => {
            return Err(Error::Strum(e));
        },
    };
    if version.tag() > used.tag() {
        return Err(Error::Version { used, version });
    }
    let (encrypted, p2) = match read_bool(data, p1) {
        Ok(v) => v,
        Err(e) => {
            return Err(e);
        },
    };
    let (mount_point, p3) = match read_text(data, p2) {
        Ok(v) => v,
        Err(e) => {
            return Err(e);
        },
    };
    Ok((Header { version, encrypted, mount_point }, p3))
}

/// The error for an index that does not read as one.
fn doubt(version: VersionMajor) -> (e: Error)
    ensures
        e@ == Failure::UnsupportedOrEncrypted(doubt_detail(version)),
{
    let mut detail = String::from_str(version.name());
    detail.append(" ");
    Error::UnsupportedOrEncrypted(detail)
}

/// Whether one of `entries` is encrypted.
pub fn has_encrypted(entries: &Vec<Entry>) -> (found: bool)
    ensures
        found == any_encrypted(entries_view(entries@)),
{
    let mut i: usize = 0;
    while i < entries.len()
        invariant
            i <= entries.len(),
            forall|k: int| 0 <= k < i ==> !(#[trigger] entries_view(entries@)[k]).encrypted,
        decreases entries.len() - i,
    {
        if entries[i].encrypted {
            proof {
                assert(entries_view(entries@)[i as int].encrypted);
            }
            return true;
        }
        i += 1;
    }
    false
}

/// Reads the index at `pos`, behind the header `header`.
pub fn read_index(
    data: &[u8],
    pos: usize,
    header: &Header,
    key: &Option<Key>,
    support: &Support,
) -> (r: Result<(Vec<Entry>, usize), Error>)
    ensures
        match read_index_spec(data@, pos as int, header@, key_view(*key), *support) {
            Ok((entries, next)) => r matches Ok((v, n)) && entries_view(v@) == entries && n
                == next,
            Err(f) => r matches Err(e) && e@ == f,
        },
{
    if header.encrypted && !support.encryption {
        return Err(Error::Encryption);
    }
    if header.encrypted && key.is_none() {
        return Err(Error::Encrypted);
    }
    let (payload, body_start) = match read_bytes(data, pos) {
        Ok(v) => v,
        Err(e) => {
            return Err(e);
        },
    };
    if header.encrypted {
        let plain = match key {
            Some(k) => match decrypt(k, payload.as_slice()) {
                Ok(plain) => plain,
                Err(_) => {
                    return Err(doubt(header.version));
                },
            },
            None => {
                return Err(Error::Encrypted);
            },
        };
        match read_table(plain.as_slice(), 0, &header.mount_point) {
            Ok((entries, _)) => Ok((entries, body_start)),
            Err(_) => Err(doubt(header.version)),
        }
    } else {
        match read_table(payload.as_slice(), 0, &header.mount_point) {
            Ok((entries, _)) => {
                let sealed: bool = has_encrypted(&entries);
                if sealed && !support.encryption {
                    Err(Error::Encryption)
                } else if sealed && key.is_none() {
                    Err(Error::Encrypted)
                } else {
                    Ok((entries, body_start))
                }
            },
            Err(e) => Err(e),
        }
    }
}

} // verus!

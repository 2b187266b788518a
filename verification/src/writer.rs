//! Writing an archive: entries are added one at a time, and the archive is
//! made of them in one piece at the end.

use vstd::prelude::*;
use vstd::string::*;
use vstd::utf8::encode_utf8;
use crate::archive::{
    any_encrypted, archive_bytes, header_bytes, index_payload, key_view, lemma_open_archive_bytes,
    open_spec, writable, ArchiveData, HeaderData,
};
use crate::compression::{compress, compress_spec, lemma_decompress_compress, Compression, Support};
use crate::encryption::{encrypt_spec, lemma_decrypt_encrypt, Key};
use crate::entry::{Entry, EntryData};
use crate::error::{Error, Failure};
use crate::hash::{fnv1a, hash};
use crate::index::{
    entries_view, lemma_position, lemma_position_push, paths_unique, position_spec, push_table,
    table, Index,
};
use crate::reader::{
    lemma_content_is_read, lemma_read_entry_extends, read_entry_spec, stored_content,
};
use crate::version::VersionMajor;
use crate::wire::{push_bool, push_bytes, push_raw, push_u32};
use crate::MAGIC;

verus! {

/// The text of the error for a path that was added before.
pub open spec fn duplicate_text(path: Seq<char>) -> Seq<char> {
    "entry already exists: "@ + path
}

/// The packed bytes of an entry as they are stored: encrypted where asked.
pub open spec fn sealed_spec(packed: Seq<u8>, encrypt: bool, key: Option<Seq<u8>>) -> Seq<u8> {
    if encrypt && key is Some {
        encrypt_spec(key->Some_0, packed)
    } else {
        packed
    }
}

/// What adding an entry does: the record that is added and the bytes that
/// are appended to the body, or why nothing is added.
///
/// A path that was added before is rejected; so is encryption without a key.
/// After that the codec decides.
pub open spec fn add_spec(
    entries: Seq<EntryData>,
    body: Seq<u8>,
    key: Option<Seq<u8>>,
    support: Support,
    path: Seq<char>,
    raw: Seq<u8>,
    codec: Compression,
    encrypt: bool,
) -> Result<(EntryData, Seq<u8>), Failure> {
    if position_spec(entries, path) is Some {
        Err(Failure::Other(duplicate_text(path)))
    } else if encrypt && key is None {
        Err(Failure::Encrypted)
    } else {
        match compress_spec(codec, raw, support) {
            Err(f) => Err(f),
            Ok(packed) => {
                let stored = sealed_spec(packed, encrypt, key);
                Ok(
                    (
                        EntryData {
                            path,
                            offset: body.len() as u64,
                            stored_size: stored.len() as u64,
                            size: raw.len() as u64,
                            compression: codec,
                            encrypted: encrypt,
                            hash: Some(fnv1a(raw)),
                        },
                        stored,
                    ),
                )
            },
        }
    }
}

/// Whether the entry reads from the body as some bytes.
#[verifier::opaque]
pub open spec fn entry_reads(
    body: Seq<u8>,
    key: Option<Seq<u8>>,
    support: Support,
    e: EntryData,
) -> bool {
    read_entry_spec(body, key, support, e) matches Ok(Some(_))
}

/// An entry that was just added reads from the new body as the bytes that
/// were added.
pub proof fn lemma_added_entry_reads(
    entries: Seq<EntryData>,
    body: Seq<u8>,
    key: Option<Seq<u8>>,
    support: Support,
    path: Seq<char>,
    raw: Seq<u8>,
    codec: Compression,
    encrypt: bool,
)
    requires
        key is Some ==> support.encryption,
        raw.len() <= usize::MAX,
        add_spec(entries, body, key, support, path, raw, codec, encrypt) is Ok,
        body.len() <= u64::MAX,
        add_spec(entries, body, key, support, path, raw, codec, encrypt)->Ok_0.1.len() <= u64::MAX,
    ensures
        ({
            let (e, stored) = add_spec(entries, body, key, support, path, raw, codec, encrypt)->Ok_0;
            read_entry_spec(body + stored, key, support, e) == Ok::<Option<Seq<u8>>, Failure>(
                Some(raw),
            )
        }),
{
    let (e, stored) = add_spec(entries, body, key, support, path, raw, codec, encrypt)->Ok_0;
    let packed = compress_spec(codec, raw, support)->Ok_0;
    assert((body + stored).subrange(e.offset as int, e.offset + e.stored_size) =~= stored);
    if encrypt {
        lemma_decrypt_encrypt(key->Some_0, packed);
    }
    lemma_decompress_compress(codec, raw, support);
}

/// Adding an entry keeps what the writer relies on: no path is there twice,
/// every entry reads from the new body, the new entry as the bytes that were
/// added and every other as before.
pub proof fn lemma_add_keeps(
    entries: Seq<EntryData>,
    body: Seq<u8>,
    key: Option<Seq<u8>>,
    support: Support,
    path: Seq<char>,
    raw: Seq<u8>,
    codec: Compression,
    encrypt: bool,
)
    requires
        key is Some ==> support.encryption,
        raw.len() <= usize::MAX,
        paths_unique(entries),
        forall|i: int| 0 <= i < entries.len() ==> entry_reads(body, key, support, #[trigger] entries[i]),
        add_spec(entries, body, key, support, path, raw, codec, encrypt) is Ok,
        body.len() <= u64::MAX,
        add_spec(entries, body, key, support, path, raw, codec, encrypt)->Ok_0.1.len() <= u64::MAX,
    ensures
        ({
            let (e, stored) = add_spec(entries, body, key, support, path, raw, codec, encrypt)->Ok_0;
            let longer = entries.push(e);
            &&& paths_unique(longer)
            &&& forall|i: int|
                0 <= i < longer.len() ==> entry_reads(body + stored, key, support, #[trigger] longer[i])
            &&& stored_content(longer, body + stored, key, support, path) == Some(raw)
            &&& forall|other: Seq<char>|
                other != path ==> #[trigger] stored_content(
                    longer,
                    body + stored,
                    key,
                    support,
                    other,
                ) == stored_content(entries, body, key, support, other)
        }),
{
    reveal(entry_reads);
    reveal(stored_content);
    let (e, stored) = add_spec(entries, body, key, support, path, raw, codec, encrypt)->Ok_0;
    let longer = entries.push(e);
    lemma_added_entry_reads(entries, body, key, support, path, raw, codec, encrypt);
    lemma_position(entries, path);
    assert forall|i: int| 0 <= i < longer.len() implies entry_reads(
        body + stored,
        key,
        support,
        #[trigger] longer[i],
    ) by {
        if i < entries.len() {
            assert(entry_reads(body, key, support, entries[i]));
            lemma_read_entry_extends(body, stored, key, support, entries[i]);
        }
    }
    assert(paths_unique(longer));
    lemma_position_push(entries, e, path);
    assert forall|other: Seq<char>| other != path implies #[trigger] stored_content(
        longer,
        body + stored,
        key,
        support,
        other,
    ) == stored_content(entries, body, key, support, other) by {
        lemma_position_push(entries, e, other);
        lemma_position(entries, other);
        match position_spec(entries, other) {
            Some(i) => {
                assert(entry_reads(body, key, support, entries[i]));
                lemma_read_entry_extends(body, stored, key, support, entries[i]);
            },
            None => {},
        }
    }
}

/// A path is taken once: after an entry was added under it, adding under it
/// again is rejected, whatever is added.
pub proof fn lemma_add_twice(
    entries: Seq<EntryData>,
    body: Seq<u8>,
    key: Option<Seq<u8>>,
    support: Support,
    path: Seq<char>,
    raw: Seq<u8>,
    codec: Compression,
    encrypt: bool,
    again: Seq<u8>,
    again_codec: Compression,
    again_encrypt: bool,
)
    requires
        add_spec(entries, body, key, support, path, raw, codec, encrypt) is Ok,
    ensures
        ({
            let (e, stored) = add_spec(entries, body, key, support, path, raw, codec, encrypt)->Ok_0;
            add_spec(
                entries.push(e),
                body + stored,
                key,
                support,
                path,
                again,
                again_codec,
                again_encrypt,
            ) == Err::<(EntryData, Seq<u8>), Failure>(Failure::Other(duplicate_text(path)))
        }),
{
    let (e, stored) = add_spec(entries, body, key, support, path, raw, codec, encrypt)->Ok_0;
    lemma_position_push(entries, e, path);
}

/// Round trip of a whole archive: the bytes made of a header, entries and a
/// body open again, and under every path they hold what the entries and the
/// body held.
pub proof fn lemma_read_after_write(
    h: HeaderData,
    key: Option<Seq<u8>>,
    support: Support,
    entries: Seq<EntryData>,
    body: Seq<u8>,
    used: VersionMajor,
    path: Seq<char>,
)
    requires
        writable(h, key, support, entries),
        h.version.tag_spec() <= used.tag_spec(),
    ensures
        ({
            let data = archive_bytes(h, key, entries, body);
            &&& open_spec(data, key, used, support) matches Ok(archive) && archive.header == h
                && archive.entries == entries && stored_content(
                archive.entries,
                data.subrange(archive.body_start, data.len() as int),
                key,
                support,
                path,
            ) == stored_content(entries, body, key, support, path)
        }),
{
    lemma_open_archive_bytes(h, key, support, entries, body, used);
}

/// What was added is read back: where the parts of an archive hold `raw`
/// under `path`, the archive made of them opens, looking `path` up in it
/// finds an entry, and reading that entry gives `raw`.
pub proof fn lemma_added_is_read_back(
    h: HeaderData,
    key: Option<Seq<u8>>,
    support: Support,
    entries: Seq<EntryData>,
    body: Seq<u8>,
    used: VersionMajor,
    path: Seq<char>,
    raw: Seq<u8>,
)
    requires
        writable(h, key, support, entries),
        h.version.tag_spec() <= used.tag_spec(),
        stored_content(entries, body, key, support, path) == Some(raw),
    ensures
        ({
            let data = archive_bytes(h, key, entries, body);
            open_spec(data, key, used, support) matches Ok(archive) && position_spec(
                archive.entries,
                path,
            ) matches Some(i) && 0 <= i < archive.entries.len() && archive.entries[i].path == path
                && read_entry_spec(
                data.subrange(archive.body_start, data.len() as int),
                key,
                support,
                archive.entries[i],
            ) == Ok::<Option<Seq<u8>>, Failure>(Some(raw))
        }),
{
    lemma_open_archive_bytes(h, key, support, entries, body, used);
    lemma_content_is_read(entries, body, key, support, path, raw);
}

/// An archive that is being written.
pub struct PakWriter {
    version: VersionMajor,
    index: Index,
    key: Option<Key>,
    support: Support,
    body: Vec<u8>,
}

impl PakWriter {
    /// The header that the archive will have. The archive is encrypted where
    /// the writer has a key.
    pub closed spec fn header(&self) -> HeaderData {
        HeaderData {
            version: self.version,
            encrypted: self.key is Some,
            mount_point: self.index.mount_point@,
        }
    }

    /// The entries added so far.
    pub closed spec fn entries(&self) -> Seq<EntryData> {
        entries_view(self.index.entries@)
    }

    /// The stored bytes of the entries added so far.
    pub closed spec fn body(&self) -> Seq<u8> {
        self.body@
    }

    /// The key that the archive is written with.
    pub closed spec fn key(&self) -> Option<Seq<u8>> {
        key_view(self.key)
    }

    /// The capabilities that the archive is written with.
    pub closed spec fn support(&self) -> Support {
        self.support
    }

    /// The bytes that the archive will hold under `path`.
    pub open spec fn content(&self, path: Seq<char>) -> Option<Seq<u8>> {
        stored_content(self.entries(), self.body(), self.key(), self.support(), path)
    }

    #[verifier::type_invariant]
    spec fn sound(&self) -> bool {
        &&& self.key is Some ==> self.support.encryption
        &&& paths_unique(entries_view(self.index.entries@))
        &&& forall|i: int|
            0 <= i < self.index.entries@.len() ==> entry_reads(
                self.body@,
                key_view(self.key),
                self.support,
                #[trigger] entries_view(self.index.entries@)[i],
            )
    }

    /// A writer of an archive of the given revision, mounted at
    /// `mount_point`, without entries. With a key the archive is encrypted,
    /// which needs the cipher: without it this is `Encryption`.
    pub fn new(mount_point: String, version: VersionMajor, key: Option<Key>, support: Support) -> (r:
        Result<PakWriter, Error>)
        ensures
            if key is Some && !support.encryption {
                r matches Err(e) && e@ == Failure::Encryption
            } else {
                r matches Ok(w) && w.header() == (HeaderData {
                    version,
                    encrypted: key is Some,
                    mount_point: mount_point@,
                }) && w.entries() == Seq::<EntryData>::empty() && w.body() == Seq::<u8>::empty()
                    && w.key() == key_view(key) && w.support() == support
            },
    {
        if key.is_some() && !support.encryption {
            return Err(Error::Encryption);
        }
        let index = Index::new(mount_point);
        proof {
            assert(entries_view(index.entries@) =~= Seq::<EntryData>::empty());
        }
        Ok(PakWriter { version, index, key, support, body: Vec::new() })
    }

    /// How many entries were added.
    pub fn len(&self) -> (n: usize)
        ensures
            n == self.entries().len(),
    {
        self.index.entries.len()
    }

    /// Whether an entry was added under `path`.
    pub fn contains(&self, path: &str) -> (b: bool)
        ensures
            b == (position_spec(self.entries(), path@) is Some),
    {
        self.index.position(path).is_some()
    }

    /// Adds the entry `path` with the bytes `raw`, stored with `codec` and
    /// encrypted where `encrypt` is set.
    ///
    /// Succeeds exactly where [`add_spec`] does: then the archive holds
    /// `raw` under `path`, and under every other path what it held before.
    /// Where it fails, with the error of `add_spec`, nothing has changed.
    pub fn add(&mut self, path: &str, raw: &[u8], codec: Compression, encrypt: bool) -> (r: Result<
        (),
        Error,
    >)
        ensures
            final(self).header() == old(self).header(),
            final(self).key() == old(self).key(),
            final(self).support() == old(self).support(),
            match add_spec(
                old(self).entries(),
                old(self).body(),
                old(self).key(),
                old(self).support(),
                path@,
                raw@,
                codec,
                encrypt,
            ) {
                Ok((e, stored)) => r is Ok && final(self).entries() == old(self).entries().push(e)
                    && final(self).body() == old(self).body() + stored && final(self).content(
                    path@,
                ) == Some(raw@) && forall|other: Seq<char>|
                    other != path@ ==> #[trigger] final(self).content(other) == old(self).content(
                        other,
                    ),
                Err(f) => r matches Err(e) && e@ == f && final(self).entries() == old(
                    self,
                ).entries() && final(self).body() == old(self).body(),
            },
    {
        proof {
            use_type_invariant(&*self);
        }
        if self.index.position(path).is_some() {
            let mut text = String::from_str("entry already exists: ");
            text.append(path);
            return Err(Error::Other(text));
        }
        if encrypt && self.key.is_none() {
            return Err(Error::Encrypted);
        }
        let packed = match compress(codec, raw, &self.support) {
            Ok(v) => v,
            Err(e) => {
                return Err(e);
            },
        };
        let stored: Vec<u8> = if encrypt {
            match &self.key {
                Some(k) => crate::encryption::encrypt(k, packed.as_slice()),
                None => {
                    return Err(Error::Encrypted);
                },
            }
        } else {
            packed
        };
        let entry = Entry {
            path: String::from_str(path),
            offset: self.body.len() as u64,
            stored_size: stored.len() as u64,
            size: raw.len() as u64,
            compression: codec,
            encrypted: encrypt,
            hash: Some(hash(raw)),
        };
        let ghost entries = entries_view(self.index.entries@);
        let ghost body_before = self.body@;
        let ghost key = key_view(self.key);
        let ghost support = self.support;
        let nothing = Index::new(String::new());
        proof {
            assert(entries_view(nothing.entries@) =~= Seq::<EntryData>::empty());
        }
        let mut taken = PakWriter {
            version: self.version,
            index: nothing,
            key: None,
            support: self.support,
            body: Vec::new(),
        };
        std::mem::swap(self, &mut taken);
        let PakWriter { version, mut index, key: held_key, support: held_support, mut body } = taken;
        proof {
            assert(add_spec(entries, body_before, key, support, path@, raw@, codec, encrypt) == Ok::<
                (EntryData, Seq<u8>),
                Failure,
            >((entry@, stored@)));
            lemma_add_keeps(entries, body_before, key, support, path@, raw@, codec, encrypt);
            assert(entries_view(index.entries@.push(entry)) =~= entries.push(entry@));
        }
        push_raw(&mut body, stored.as_slice());
        index.entries.push(entry);
        *self = PakWriter { version, index, key: held_key, support: held_support, body };
        Ok(())
    }

    /// The archive: header, index and body. This ends the writing, once.
    ///
    /// Any reader with the writer's key and capabilities, built for the
    /// archive's revision or a later one, opens these bytes to the writer's
    /// header and entries, and finds the writer's body behind the index.
    pub fn finalize(self) -> (out: Vec<u8>)
        ensures
            out@ == archive_bytes(self.header(), self.key(), self.entries(), self.body()),
            writable(self.header(), self.key(), self.support(), self.entries()),
            paths_unique(self.entries()),
            forall|used: VersionMajor|
                self.header().version.tag_spec() <= used.tag_spec() ==> #[trigger] open_spec(
                    out@,
                    self.key(),
                    used,
                    self.support(),
                ) == Ok::<ArchiveData, Failure>(
                    ArchiveData {
                        header: self.header(),
                        entries: self.entries(),
                        body_start: out@.len() - self.body().len(),
                    },
                ),
            self.body().len() <= out@.len(),
            out@.subrange(out@.len() - self.body().len(), out@.len() as int) == self.body(),
    {
        proof {
            use_type_invariant(&self);
        }
        let ghost h = self.header();
        let ghost entries = self.entries();
        let mut out: Vec<u8> = Vec::new();
        push_u32(&mut out, MAGIC);
        out.push(self.version.tag());
        push_bool(&mut out, self.key.is_some());
        let mount_bytes = self.index.mount_point.as_str().as_bytes();
        let mount_len: usize = mount_bytes.len();
        push_bytes(&mut out, mount_bytes);
        proof {
            assert(out@ =~= header_bytes(h));
        }
        let mut plain: Vec<u8> = Vec::new();
        push_table(&mut plain, &self.index.mount_point, &self.index.entries);
        proof {
            assert(plain@ =~= table(h.mount_point, entries));
        }
        let payload: Vec<u8> = match &self.key {
            Some(k) => crate::encryption::encrypt(k, plain.as_slice()),
            None => plain,
        };
        let payload_len: usize = payload.len();
        push_bytes(&mut out, payload.as_slice());
        push_raw(&mut out, self.body.as_slice());
        proof {
            assert(payload@ == index_payload(h, self.key(), entries));
            assert(encode_utf8(h.mount_point).len() == mount_len);
            assert(index_payload(h, self.key(), entries).len() == payload_len);
            assert(out@ =~= archive_bytes(h, self.key(), entries, self.body()));
            reveal(entry_reads);
            if any_encrypted(entries) {
                let i = choose|i: int| 0 <= i < entries.len() && (#[trigger] entries[i]).encrypted;
                assert(entry_reads(self.body(), self.key(), self.support(), entries[i]));
            }
            assert(writable(h, self.key(), self.support(), entries));
            assert forall|used: VersionMajor|
                h.version.tag_spec() <= used.tag_spec() implies #[trigger] open_spec(
                out@,
                self.key(),
                used,
                self.support(),
            ) == Ok::<ArchiveData, Failure>(
                ArchiveData {
                    header: h,
                    entries,
                    body_start: out@.len() - self.body().len(),
                },
            ) by {
                lemma_open_archive_bytes(h, self.key(), self.support(), entries, self.body(), used);
            }
            lemma_open_archive_bytes(h, self.key(), self.support(), entries, self.body(), h.version);
        }
        out
    }
}

} // verus!

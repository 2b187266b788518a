use repak::compression::{Compression, OodleSupport, Support, Unpacked};
use repak::encryption::Key;
use repak::error::Error;
use repak::reader::PakReader;
use repak::version::VersionMajor;
use repak::writer::PakWriter;
use repak::MAGIC;

fn bytes(u: Unpacked) -> Vec<u8> {
    match u {
        Unpacked::Bytes(b) => b,
        Unpacked::Oodle => panic!("left to Oodle"),
    }
}

fn key() -> Key {
    Key::from_bytes(&[42u8; 32]).unwrap()
}

fn small_archive(key: Option<Key>) -> Vec<u8> {
    let mut w =
        PakWriter::new("../".to_string(), VersionMajor::Fnv64BugFix, key, Support::full()).unwrap();
    w.add("a.txt", b"hello", Compression::Stored, false).unwrap();
    w.add("dir/b.txt", &[b'x'; 10 * 1024], Compression::Rle, key.is_some()).unwrap();
    w.finalize()
}

#[test]
fn archive_is_written_and_read_back() {
    let data = small_archive(None);
    let r = PakReader::open(data, None, VersionMajor::Fnv64BugFix, Support::full()).unwrap();
    assert_eq!(r.len(), 2);
    assert_eq!(r.entries().len(), 2);
    assert_eq!(r.mount_point(), "../");
    assert_eq!(r.version(), VersionMajor::Fnv64BugFix);
    assert!(!r.encrypted());
    let a = r.lookup("a.txt").unwrap();
    assert_eq!(a.size, 5);
    assert_eq!(a.stored_size, 5);
    assert_eq!(a.offset, 0);
    assert_eq!(a.compression, Compression::Stored);
    assert!(!a.encrypted);
    assert_eq!(bytes(r.read(a).unwrap()), b"hello".to_vec());
    let b = r.lookup("dir/b.txt").unwrap();
    assert_eq!(b.size, 10 * 1024);
    assert_eq!(b.stored_size, 82);
    assert_eq!(b.offset, 5);
    assert_eq!(b.compression, Compression::Rle);
    assert_eq!(bytes(r.read(b).unwrap()), vec![b'x'; 10 * 1024]);
}

#[test]
fn archive_layout_is_as_documented() {
    let mut w =
        PakWriter::new("m/".to_string(), VersionMajor::Initial, None, Support::full()).unwrap();
    w.add("a", b"hi", Compression::Stored, false).unwrap();
    let data = w.finalize();
    let mut want: Vec<u8> = Vec::new();
    want.extend_from_slice(&MAGIC.to_le_bytes());
    want.push(1);
    want.push(0);
    want.extend_from_slice(&2u64.to_le_bytes());
    want.extend_from_slice(b"m/");
    let mut table: Vec<u8> = Vec::new();
    table.extend_from_slice(&1u64.to_le_bytes());
    table.extend_from_slice(&3u64.to_le_bytes());
    table.extend_from_slice(b"m/a");
    table.extend_from_slice(&0u64.to_le_bytes());
    table.extend_from_slice(&2u64.to_le_bytes());
    table.extend_from_slice(&2u64.to_le_bytes());
    table.push(0);
    table.push(0);
    table.push(1);
    table.extend_from_slice(&repak::hash::hash(b"hi").to_le_bytes());
    want.extend_from_slice(&(table.len() as u64).to_le_bytes());
    want.extend_from_slice(&table);
    want.extend_from_slice(b"hi");
    assert_eq!(data, want);
    assert_eq!(&data[..4], &[0xE1, 0x12, 0x6F, 0x5A]);
}

#[test]
fn encrypted_archive_is_written_and_read_back() {
    let data = small_archive(Some(key()));
    let plain = small_archive(None);
    assert_ne!(data, plain);
    let r = PakReader::open(data, Some(key()), VersionMajor::Fnv64BugFix, Support::full()).unwrap();
    assert!(r.encrypted());
    assert_eq!(r.len(), 2);
    let a = r.lookup("a.txt").unwrap();
    assert!(!a.encrypted);
    assert_eq!(bytes(r.read(a).unwrap()), b"hello".to_vec());
    let b = r.lookup("dir/b.txt").unwrap();
    assert!(b.encrypted);
    assert_eq!(b.stored_size, 96);
    assert_eq!(bytes(r.read(b).unwrap()), vec![b'x'; 10 * 1024]);
}

#[test]
fn open_reports_a_wrong_magic_number() {
    let support = Support::full();
    let cases: Vec<(Vec<u8>, u32)> = vec![
        (vec![], 0),
        (vec![0x01], 1),
        (vec![0xE1, 0x12, 0x6F], 0x006F12E1),
        (vec![0x78, 0x56, 0x34, 0x12, 0xff, 0xff], 0x12345678),
        (b"PK\x03\x04rest of a zip".to_vec(), 0x04034b50),
    ];
    for (data, found) in cases {
        match PakReader::open(data, None, VersionMajor::Fnv64BugFix, support) {
            Err(Error::Magic(n)) => assert_eq!(n, found),
            other => panic!("unexpected {:?}", other.err()),
        }
    }
    let mut data = small_archive(None);
    data[3] ^= 0x80;
    match PakReader::open(data, None, VersionMajor::Fnv64BugFix, support) {
        Err(Error::Magic(n)) => assert_eq!(n, MAGIC ^ 0x8000_0000),
        other => panic!("unexpected {:?}", other.err()),
    }
}

#[test]
fn open_refuses_a_later_revision() {
    let data = small_archive(None);
    match PakReader::open(data.clone(), None, VersionMajor::PathHashIndex, Support::full()) {
        Err(Error::Version { used, version }) => {
            assert_eq!(used, VersionMajor::PathHashIndex);
            assert_eq!(version, VersionMajor::Fnv64BugFix);
        }
        other => panic!("unexpected {:?}", other.err()),
    }
    let mut unknown = data.clone();
    unknown[4] = 12;
    assert!(matches!(
        PakReader::open(unknown, None, VersionMajor::Fnv64BugFix, Support::full()),
        Err(Error::Strum(_))
    ));
    let mut w =
        PakWriter::new("".to_string(), VersionMajor::Initial, None, Support::full()).unwrap();
    w.add("x", b"1", Compression::Stored, false).unwrap();
    let old = w.finalize();
    let r = PakReader::open(old, None, VersionMajor::Fnv64BugFix, Support::full()).unwrap();
    assert_eq!(r.version(), VersionMajor::Initial);
}

#[test]
fn open_needs_the_key_of_an_encrypted_archive() {
    let data = small_archive(Some(key()));
    assert!(matches!(
        PakReader::open(data.clone(), None, VersionMajor::Fnv64BugFix, Support::full()),
        Err(Error::Encrypted)
    ));
    // the revision is looked at first
    assert!(matches!(
        PakReader::open(data.clone(), None, VersionMajor::Initial, Support::full()),
        Err(Error::Version { .. })
    ));
    let no_cipher = Support { compression: true, encryption: false, oodle: OodleSupport::Unsupported };
    assert!(matches!(
        PakReader::open(data.clone(), Some(key()), VersionMajor::Fnv64BugFix, no_cipher),
        Err(Error::Encryption)
    ));
    let wrong = Key::from_bytes(&[43u8; 32]).unwrap();
    match PakReader::open(data, Some(wrong), VersionMajor::Fnv64BugFix, Support::full()) {
        Err(e @ Error::UnsupportedOrEncrypted(_)) => assert_eq!(
            e.message(),
            "Fnv64BugFix version unsupported or is encrypted (possibly missing --aes-key?)"
        ),
        other => panic!("unexpected {:?}", other.err()),
    }
}

#[test]
fn lookup_of_a_missing_path_names_it() {
    let r = PakReader::open(small_archive(None), None, VersionMajor::Fnv64BugFix, Support::full())
        .unwrap();
    for path in ["b.txt", "A.TXT", "", "dir", "dir/", "../a.txt"] {
        match r.lookup(path) {
            Err(Error::MissingEntry(p)) => assert_eq!(p, path),
            other => panic!("unexpected {:?}", other),
        }
    }
}

#[test]
fn add_refuses_a_path_twice() {
    let mut w =
        PakWriter::new("../".to_string(), VersionMajor::Fnv64BugFix, None, Support::full()).unwrap();
    w.add("a.txt", b"one", Compression::Stored, false).unwrap();
    match w.add("a.txt", b"two", Compression::Rle, false) {
        Err(Error::Other(text)) => assert_eq!(text, "entry already exists: a.txt"),
        other => panic!("unexpected {:?}", other),
    }
    assert_eq!(w.len(), 1);
    assert!(w.contains("a.txt"));
    assert!(!w.contains("b.txt"));
    w.add("b.txt", b"two", Compression::Rle, false).unwrap();
    let r = PakReader::open(w.finalize(), None, VersionMajor::Fnv64BugFix, Support::full()).unwrap();
    assert_eq!(r.len(), 2);
    assert_eq!(bytes(r.read(r.lookup("a.txt").unwrap()).unwrap()), b"one".to_vec());
    assert_eq!(bytes(r.read(r.lookup("b.txt").unwrap()).unwrap()), b"two".to_vec());
}

#[test]
fn add_fails_without_changing_the_archive() {
    let support = Support { compression: false, encryption: true, oodle: OodleSupport::Unavailable };
    let mut w = PakWriter::new("".to_string(), VersionMajor::Fnv64BugFix, None, support).unwrap();
    assert!(matches!(w.add("a", b"1", Compression::Stored, true), Err(Error::Encrypted)));
    assert!(matches!(w.add("a", b"1", Compression::Rle, false), Err(Error::Compression)));
    assert!(matches!(w.add("a", b"1", Compression::Oodle, false), Err(Error::OodleFailed)));
    assert_eq!(w.len(), 0);
    w.add("a", b"1", Compression::Stored, false).unwrap();
    assert_eq!(w.len(), 1);
    let no_cipher = Support { compression: true, encryption: false, oodle: OodleSupport::Unsupported };
    assert!(matches!(
        PakWriter::new("".to_string(), VersionMajor::Fnv64BugFix, Some(key()), no_cipher),
        Err(Error::Encryption)
    ));
}

#[test]
fn read_reports_a_damaged_entry() {
    let data = small_archive(None);
    let n = data.len();
    let mut damaged = data.clone();
    damaged[n - 82 - 1] ^= 1; // last byte of "hello"
    let r = PakReader::open(damaged, None, VersionMajor::Fnv64BugFix, Support::full()).unwrap();
    match r.read(r.lookup("a.txt").unwrap()) {
        Err(Error::DecompressionFailed(c)) => assert_eq!(c, Compression::Stored),
        other => panic!("unexpected {:?}", other),
    }
    assert_eq!(bytes(r.read(r.lookup("dir/b.txt").unwrap()).unwrap()), vec![b'x'; 10 * 1024]);
    let mut cut = data.clone();
    cut.truncate(n - 1);
    let r = PakReader::open(cut, None, VersionMajor::Fnv64BugFix, Support::full()).unwrap();
    assert!(matches!(r.read(r.lookup("dir/b.txt").unwrap()), Err(Error::Io(_))));
    assert_eq!(bytes(r.read(r.lookup("a.txt").unwrap()).unwrap()), b"hello".to_vec());
}

#[test]
fn open_reports_a_damaged_index() {
    let data = small_archive(None);
    // header: magic 4, revision 1, flag 1, mount point 8 + 3; index length 8; count 8;
    // first record: path 8 + 8, three numbers 24, codec, flag, hash
    let flag = 4 + 1 + 1 + 11 + 8 + 8 + 16 + 24 + 1;
    let mut bad_flag = data.clone();
    bad_flag[flag] = 2;
    match PakReader::open(bad_flag, None, VersionMajor::Fnv64BugFix, Support::full()) {
        Err(e @ Error::Bool(2)) => assert_eq!(e.message(), "got 2, which is not a boolean"),
        other => panic!("unexpected {:?}", other.err()),
    }
    let mut bad_codec = data.clone();
    bad_codec[flag - 1] = 9;
    assert!(matches!(
        PakReader::open(bad_codec, None, VersionMajor::Fnv64BugFix, Support::full()),
        Err(Error::Strum(_))
    ));
    let path = 4 + 1 + 1 + 11 + 8 + 8 + 8;
    let mut bad_prefix = data.clone();
    bad_prefix[path] = b'x';
    match PakReader::open(bad_prefix, None, VersionMajor::Fnv64BugFix, Support::full()) {
        Err(Error::PrefixMismatch { prefix, path }) => {
            assert_eq!(prefix, "../");
            assert_eq!(path, "x./a.txt");
        }
        other => panic!("unexpected {:?}", other.err()),
    }
    let mut bad_text = data.clone();
    bad_text[path + 3] = 0xff;
    assert!(matches!(
        PakReader::open(bad_text, None, VersionMajor::Fnv64BugFix, Support::full()),
        Err(Error::Utf8(_))
    ));
    let mut bad_header_flag = data.clone();
    bad_header_flag[5] = 7;
    assert!(matches!(
        PakReader::open(bad_header_flag, None, VersionMajor::Fnv64BugFix, Support::full()),
        Err(Error::Bool(7))
    ));
    for cut in [4usize, 5, 6, 10, 20, 30, 60] {
        let mut short = data.clone();
        short.truncate(cut);
        assert!(matches!(
            PakReader::open(short, None, VersionMajor::Fnv64BugFix, Support::full()),
            Err(Error::Io(_))
        ));
    }
}

#[test]
fn oodle_entries_are_handed_to_the_caller() {
    // an archive with one Oodle entry, made by hand: the writer cannot make one
    let raw = b"what oodle would give";
    let stored = b"oodle data";
    let mut data: Vec<u8> = Vec::new();
    data.extend_from_slice(&MAGIC.to_le_bytes());
    data.push(11);
    data.push(0);
    data.extend_from_slice(&0u64.to_le_bytes());
    let mut table: Vec<u8> = Vec::new();
    table.extend_from_slice(&1u64.to_le_bytes());
    table.extend_from_slice(&1u64.to_le_bytes());
    table.extend_from_slice(b"o");
    table.extend_from_slice(&0u64.to_le_bytes());
    table.extend_from_slice(&(stored.len() as u64).to_le_bytes());
    table.extend_from_slice(&(raw.len() as u64).to_le_bytes());
    table.push(2);
    table.push(0);
    table.push(1);
    table.extend_from_slice(&repak::hash::hash(raw).to_le_bytes());
    data.extend_from_slice(&(table.len() as u64).to_le_bytes());
    data.extend_from_slice(&table);
    data.extend_from_slice(stored);

    let mut support = Support::full();
    let r = PakReader::open(data.clone(), None, VersionMajor::Fnv64BugFix, support).unwrap();
    let e = r.lookup("o").unwrap();
    assert!(matches!(r.read(e), Err(Error::Oodle)));
    support.oodle = OodleSupport::Unavailable;
    let r = PakReader::open(data.clone(), None, VersionMajor::Fnv64BugFix, support).unwrap();
    assert!(matches!(r.read(r.lookup("o").unwrap()), Err(Error::OodleFailed)));
    support.oodle = OodleSupport::Loaded;
    let r = PakReader::open(data, None, VersionMajor::Fnv64BugFix, support).unwrap();
    let e = r.lookup("o").unwrap();
    assert!(matches!(r.read(e), Ok(Unpacked::Oodle)));
    assert_eq!(r.packed(e).unwrap(), stored.to_vec());
    // a stub stands for the native routine
    let stub = |packed: &[u8], len: usize| -> Option<Vec<u8>> {
        if packed == stored && len == raw.len() {
            Some(raw.to_vec())
        } else {
            None
        }
    };
    let produced = stub(&r.packed(e).unwrap(), e.size as usize);
    assert_eq!(r.accept(e, produced).unwrap(), raw.to_vec());
    for bad in [None, Some(raw[1..].to_vec()), Some(b"what oodle would givf".to_vec())] {
        match r.accept(e, bad) {
            Err(Error::DecompressionFailed(c)) => assert_eq!(c, Compression::Oodle),
            other => panic!("unexpected {:?}", other),
        }
    }
}

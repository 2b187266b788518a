use repak::archive::{has_encrypted, read_header, read_index, Header};
use repak::compression::{Compression, Support};
use repak::entry::{logical_path, push_record, read_codec, read_hash, read_record, Entry};
use repak::error::Error;
use repak::index::{push_table, read_table, Index};
use repak::version::VersionMajor;
use repak::wire::{
    push_bool, push_bytes, push_raw, push_u32, push_u64, read_bool, read_bytes,
    read_leading_number, read_text, read_u64, read_u8, text_of,
};

fn entry(path: &str, hash: Option<u64>) -> Entry {
    Entry {
        path: path.to_string(),
        offset: 0x0102030405060708,
        stored_size: 3,
        size: 300,
        compression: Compression::Rle,
        encrypted: true,
        hash,
    }
}

fn same(a: &Entry, b: &Entry) -> bool {
    a.path == b.path
        && a.offset == b.offset
        && a.stored_size == b.stored_size
        && a.size == b.size
        && a.compression == b.compression
        && a.encrypted == b.encrypted
        && a.hash == b.hash
}

#[test]
fn numbers_are_stored_least_significant_byte_first() {
    let mut out = vec![0xee];
    push_u32(&mut out, 0x11223344);
    push_u64(&mut out, 0x0102030405060708);
    push_bool(&mut out, true);
    push_bool(&mut out, false);
    push_bytes(&mut out, b"abc");
    push_raw(&mut out, b"xy");
    assert_eq!(
        out,
        vec![
            0xee, 0x44, 0x33, 0x22, 0x11, 8, 7, 6, 5, 4, 3, 2, 1, 1, 0, 3, 0, 0, 0, 0, 0, 0, 0,
            b'a', b'b', b'c', b'x', b'y'
        ]
    );
    assert_eq!(read_u8(&out, 0).unwrap(), (0xee, 1));
    assert_eq!(read_u64(&out, 5).unwrap(), (0x0102030405060708, 13));
    assert_eq!(read_bool(&out, 13).unwrap(), (true, 14));
    assert_eq!(read_bool(&out, 14).unwrap(), (false, 15));
    assert_eq!(read_bytes(&out, 15).unwrap(), (b"abc".to_vec(), 26));
    assert_eq!(read_text(&out, 15).unwrap(), ("abc".to_string(), 26));
    assert_eq!(read_leading_number(&out[1..]), 0x11223344);
    assert_eq!(read_leading_number(&[0x44, 0x33]), 0x3344);
    assert_eq!(read_leading_number(&[]), 0);
}

#[test]
fn reads_past_the_end_fail() {
    let data = [1u8, 2, 3, 4, 5, 6, 7, 8, 9];
    assert!(matches!(read_u8(&data, 9), Err(Error::Io(_))));
    assert!(matches!(read_u8(&data, usize::MAX), Err(Error::Io(_))));
    assert!(matches!(read_u64(&data, 2), Err(Error::Io(_))));
    assert!(matches!(read_u64(&data[..7], 0), Err(Error::Io(_))));
    assert!(matches!(read_u64(&data, usize::MAX), Err(Error::Io(_))));
    assert_eq!(read_u64(&data, 1).unwrap().1, 9);
    assert!(matches!(read_bool(&data, 9), Err(Error::Io(_))));
    assert!(matches!(read_bool(&data, 2), Err(Error::Bool(3))));
    // a length that reaches past the end
    let mut field = Vec::new();
    push_u64(&mut field, 4);
    field.extend_from_slice(b"abc");
    assert!(matches!(read_bytes(&field, 0), Err(Error::Io(_))));
    let mut field = Vec::new();
    push_u64(&mut field, u64::MAX);
    field.extend_from_slice(b"abc");
    assert!(matches!(read_bytes(&field, 0), Err(Error::Io(_))));
    assert!(matches!(read_text(&field, 0), Err(Error::Io(_))));
}

#[test]
fn text_must_be_utf8() {
    assert_eq!(text_of("grüße".as_bytes().to_vec()).unwrap(), "grüße");
    assert_eq!(text_of(vec![]).unwrap(), "");
    for bad in [vec![0xffu8], vec![0xc3], vec![b'a', 0x80], vec![0xed, 0xa0, 0x80], vec![0xc0, 0xaf]] {
        assert!(matches!(text_of(bad), Err(Error::Utf8(_))));
    }
}

#[test]
fn stored_paths_lose_the_mount_point() {
    let mount = "../../Game/".to_string();
    assert_eq!(logical_path(&mount, b"../../Game/a/b.txt".to_vec()).unwrap(), "a/b.txt");
    assert_eq!(logical_path(&mount, b"../../Game/".to_vec()).unwrap(), "");
    assert_eq!(logical_path(&String::new(), b"a".to_vec()).unwrap(), "a");
    for stored in ["../../game/a", "../../Game", "a/b.txt", ""] {
        match logical_path(&mount, stored.as_bytes().to_vec()) {
            Err(Error::PrefixMismatch { prefix, path }) => {
                assert_eq!(prefix, mount);
                assert_eq!(path, stored);
            }
            other => panic!("unexpected {:?}", other),
        }
    }
    assert!(matches!(logical_path(&mount, b"../../Game/\xff".to_vec()), Err(Error::Utf8(_))));
    assert!(matches!(logical_path(&mount, b"..\xff".to_vec()), Err(Error::Utf8(_))));
}

#[test]
fn records_are_read_back() {
    let mount = "m/".to_string();
    for e in [entry("dir/a.txt", Some(0xfeedfacecafebeef)), entry("b", None), entry("", None)] {
        let mut out = vec![9, 9];
        push_record(&mut out, &mount, &e);
        let len = 2 + 8 + 2 + e.path.len() + 26 + if e.hash.is_some() { 9 } else { 1 };
        assert_eq!(out.len(), len);
        let (back, next) = read_record(&out, 2, &mount).unwrap();
        assert!(same(&back, &e));
        assert!(same(&e.duplicate(), &e));
        assert_eq!(next, len);
        for cut in 2..len {
            assert!(matches!(read_record(&out[..cut], 2, &mount), Err(Error::Io(_))));
        }
    }
    assert_eq!(read_codec(&[0, 1, 2], 1).unwrap(), (Compression::Rle, 2));
    assert!(matches!(read_codec(&[0, 1, 3], 2), Err(Error::Strum(_))));
    assert_eq!(read_hash(&[0], 0).unwrap(), (None, 1));
    assert_eq!(read_hash(&[1, 1, 0, 0, 0, 0, 0, 0, 0], 0).unwrap(), (Some(1), 9));
    assert!(matches!(read_hash(&[2], 0), Err(Error::Bool(2))));
    assert!(matches!(read_hash(&[1, 1], 0), Err(Error::Io(_))));
}

#[test]
fn tables_are_read_back() {
    let mount = "m/".to_string();
    let entries = vec![entry("a", None), entry("b/c", Some(5)), entry("a", Some(6))];
    let mut out = Vec::new();
    push_table(&mut out, &mount, &entries);
    assert_eq!(&out[..8], &3u64.to_le_bytes());
    let (back, next) = read_table(&out, 0, &mount).unwrap();
    assert_eq!(next, out.len());
    assert_eq!(back.len(), 3);
    for (a, b) in back.iter().zip(&entries) {
        assert!(same(a, b));
    }
    let mut more = out.clone();
    more[0] = 4;
    assert!(matches!(read_table(&more, 0, &mount), Err(Error::Io(_))));
    let mut fewer = out.clone();
    fewer[0] = 1;
    assert_eq!(read_table(&fewer, 0, &mount).unwrap().0.len(), 1);
    let mut none = Vec::new();
    push_table(&mut none, &mount, &Vec::new());
    assert_eq!(none, 0u64.to_le_bytes().to_vec());
    assert!(has_encrypted(&entries));
    assert!(!has_encrypted(&Vec::new()));
}

#[test]
fn index_finds_the_first_entry_of_a_path() {
    let mut index = Index::new("m/".to_string());
    assert_eq!(index.len(), 0);
    assert_eq!(index.position("a"), None);
    index.entries.push(entry("a", None));
    index.entries.push(entry("b", Some(1)));
    index.entries.push(entry("a", Some(2)));
    assert_eq!(index.len(), 3);
    assert_eq!(index.position("a"), Some(0));
    assert_eq!(index.position("b"), Some(1));
    assert_eq!(index.position("c"), None);
    assert_eq!(index.lookup("a").unwrap().hash, None);
    assert_eq!(index.lookup("b").unwrap().hash, Some(1));
    match index.lookup("c") {
        Err(Error::MissingEntry(path)) => assert_eq!(path, "c"),
        other => panic!("unexpected {:?}", other),
    }
}

#[test]
fn header_and_index_are_read_in_two_steps() {
    let mut data = Vec::new();
    push_u32(&mut data, repak::MAGIC);
    data.push(4);
    push_bool(&mut data, false);
    push_bytes(&mut data, b"m/");
    let (header, pos) = read_header(&data, VersionMajor::IndexEncryption).unwrap();
    assert_eq!(pos, 16);
    assert_eq!(header.version, VersionMajor::IndexEncryption);
    assert!(!header.encrypted);
    assert_eq!(header.mount_point, "m/");
    assert!(matches!(
        read_header(&data, VersionMajor::CompressionEncryption),
        Err(Error::Version { .. })
    ));
    let mut table = Vec::new();
    push_table(&mut table, &header.mount_point, &vec![entry("a", None)]);
    push_bytes(&mut data, &table);
    data.extend_from_slice(b"body");
    // the one entry is encrypted: its index cannot be used without the cipher and a key
    assert!(matches!(
        read_index(&data, pos, &header, &None, &Support::full()),
        Err(Error::Encrypted)
    ));
    let key = repak::encryption::Key::from_bytes(&[0u8; 32]).unwrap();
    let mut support = Support::full();
    let (entries, body) = read_index(&data, pos, &header, &Some(key), &support).unwrap();
    assert_eq!(entries.len(), 1);
    assert_eq!(&data[body..], b"body");
    support.encryption = false;
    assert!(matches!(
        read_index(&data, pos, &header, &Some(key), &support),
        Err(Error::Encryption)
    ));
    let sealed = Header { version: header.version, encrypted: true, mount_point: "m/".to_string() };
    assert!(matches!(
        read_index(&data, pos, &sealed, &Some(key), &Support::full()),
        Err(Error::UnsupportedOrEncrypted(_))
    ));
}

#[test]
fn errors_of_other_libraries_convert() {
    assert!(matches!(Error::from(strum::ParseError::VariantNotFound), Error::Strum(_)));
    assert!(matches!(Error::from(std::io::Error::other("x")), Error::Io(_)));
    assert!(matches!(Error::from(std::fmt::Error), Error::Fmt(_)));
    assert!(matches!(Error::from(String::from_utf8(vec![0xff]).unwrap_err()), Error::Utf8(_)));
    assert!(matches!(Error::from(String::from_utf16(&[0xd800]).unwrap_err()), Error::Utf16(_)));
}

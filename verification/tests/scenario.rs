use repak::compression::{Compression, Support, Unpacked};
use repak::encryption::Key;
use repak::error::Error;
use repak::extract::plan;
use repak::reader::PakReader;
use repak::version::VersionMajor;
use repak::writer::PakWriter;

fn bytes(u: Unpacked) -> Vec<u8> {
    match u {
        Unpacked::Bytes(b) => b,
        Unpacked::Oodle => panic!("left to Oodle"),
    }
}

#[test]
fn end_to_end_with_a_parent_mount_point() {
    let hello = b"hello".to_vec();
    let big: Vec<u8> = vec![0xAB; 10 * 1024];
    let mut w =
        PakWriter::new("../".to_string(), VersionMajor::Fnv64BugFix, None, Support::full()).unwrap();
    w.add("a.txt", &hello, Compression::Stored, false).unwrap();
    w.add("dir/b.txt", &big, Compression::Rle, false).unwrap();
    let data = w.finalize();

    let r = PakReader::open(data, None, VersionMajor::Fnv64BugFix, Support::full()).unwrap();
    assert_eq!(r.len(), 2);
    assert_eq!(r.mount_point(), "../");
    let places = plan(r.entries(), "out", true).unwrap();
    let mut extracted: Vec<(String, Vec<u8>)> = Vec::new();
    for (entry, place) in r.entries().iter().zip(places) {
        extracted.push((place.unwrap(), bytes(r.read(entry).unwrap())));
    }
    assert_eq!(
        extracted,
        vec![("out/a.txt".to_string(), hello), ("out/dir/b.txt".to_string(), big)]
    );
}

#[test]
fn extraction_skips_only_the_entry_that_escapes() {
    let mut w =
        PakWriter::new("../".to_string(), VersionMajor::Fnv64BugFix, None, Support::full()).unwrap();
    w.add("safe/one.txt", b"one", Compression::Stored, false).unwrap();
    w.add("../../escape.txt", b"bad", Compression::Stored, false).unwrap();
    w.add("two.txt", b"two", Compression::Rle, false).unwrap();
    let r = PakReader::open(w.finalize(), None, VersionMajor::Fnv64BugFix, Support::full()).unwrap();
    let places = plan(r.entries(), "dest", true).unwrap();
    let mut written: Vec<(String, Vec<u8>)> = Vec::new();
    let mut refused: Vec<String> = Vec::new();
    for (entry, place) in r.entries().iter().zip(places) {
        match place {
            Ok(place) => written.push((place, bytes(r.read(entry).unwrap()))),
            Err(Error::WriteOutsideOutput(path)) => refused.push(path),
            Err(e) => panic!("unexpected {:?}", e),
        }
    }
    assert_eq!(
        written,
        vec![
            ("dest/safe/one.txt".to_string(), b"one".to_vec()),
            ("dest/two.txt".to_string(), b"two".to_vec())
        ]
    );
    assert_eq!(refused, vec!["../../escape.txt".to_string()]);
    for (place, _) in &written {
        assert!(place.starts_with("dest/"));
        assert!(!place.split('/').any(|part| part == ".."));
    }
}

#[test]
fn every_entry_reads_back_as_it_was_added() {
    let key = Key::from_bytes(&[1u8; 32]).unwrap();
    let payloads: Vec<(String, Vec<u8>, Compression, bool)> = vec![
        ("empty".to_string(), vec![], Compression::Stored, false),
        ("empty.rle".to_string(), vec![], Compression::Rle, true),
        ("one".to_string(), vec![9], Compression::Rle, false),
        ("text/readme.md".to_string(), b"# title\n\nbody\n".to_vec(), Compression::Stored, true),
        ("bin/ramp".to_string(), (0..=255u8).cycle().take(5000).collect(), Compression::Rle, true),
        ("bin/zeros".to_string(), vec![0; 100_000], Compression::Rle, false),
        ("ünï/cödé".to_string(), "grüße".as_bytes().to_vec(), Compression::Stored, false),
    ];
    let mut w = PakWriter::new(
        "../../../Game/".to_string(),
        VersionMajor::IndexEncryption,
        Some(key),
        Support::full(),
    )
    .unwrap();
    for (path, raw, codec, encrypt) in &payloads {
        w.add(path, raw, *codec, *encrypt).unwrap();
    }
    assert_eq!(w.len(), payloads.len());
    let data = w.finalize();
    let r = PakReader::open(data, Some(key), VersionMajor::Fnv64BugFix, Support::full()).unwrap();
    assert_eq!(r.len(), payloads.len());
    assert_eq!(r.version(), VersionMajor::IndexEncryption);
    assert_eq!(r.mount_point(), "../../../Game/");
    for (i, (path, raw, codec, encrypt)) in payloads.iter().enumerate() {
        let e = r.lookup(path).unwrap();
        assert_eq!(&e.path, path);
        assert_eq!(&r.entries()[i].path, path);
        assert_eq!(e.size, raw.len() as u64);
        assert_eq!(e.compression, *codec);
        assert_eq!(e.encrypted, *encrypt);
        assert_eq!(e.hash, Some(repak::hash::hash(raw)));
        assert_eq!(&bytes(r.read(e).unwrap()), raw);
    }
}

#[test]
fn many_archives_read_back_as_they_were_written() {
    let key = Key::from_bytes(&[0x5a; 32]).unwrap();
    let mut state: u64 = 0x9E3779B97F4A7C15;
    let mut next = move || {
        state = state.wrapping_mul(6364136223846793005).wrapping_add(1442695040888963407);
        (state >> 33) as usize
    };
    for round in 0..40 {
        let with_key = round % 2 == 1;
        let mut w = PakWriter::new(
            "../../".to_string(),
            VersionMajor::Fnv64BugFix,
            if with_key { Some(key) } else { None },
            Support::full(),
        )
        .unwrap();
        let mut added: Vec<(String, Vec<u8>)> = Vec::new();
        for i in 0..next() % 8 {
            let len = next() % 700;
            let run = 1 + next() % 40;
            let raw: Vec<u8> = (0..len).map(|k| ((k / run) * 37 + i) as u8).collect();
            let codec = if next() % 2 == 0 { Compression::Stored } else { Compression::Rle };
            let path = format!("dir{}/file{}.bin", i % 3, i);
            w.add(&path, &raw, codec, with_key && next() % 2 == 0).unwrap();
            added.push((path, raw));
        }
        let data = w.finalize();
        let r = PakReader::open(
            data,
            if with_key { Some(key) } else { None },
            VersionMajor::Fnv64BugFix,
            Support::full(),
        )
        .unwrap();
        assert_eq!(r.len(), added.len());
        for (path, raw) in &added {
            assert_eq!(&bytes(r.read(r.lookup(path).unwrap()).unwrap()), raw);
        }
    }
}

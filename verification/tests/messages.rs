use repak::compression::Compression;
use repak::error::Error;
use repak::version::VersionMajor;

#[test]
fn messages_of_the_errors() {
    let cases: Vec<(Error, &str)> = vec![
        (
            Error::Strum(strum::ParseError::VariantNotFound),
            "enum conversion: Matching variant not found",
        ),
        (Error::Aes, "expect 256 bit AES key as base64 or hex string"),
        (Error::Compression, "enable the compression feature to read compressed paks"),
        (Error::Encryption, "enable the encryption feature to read encrypted paks"),
        (Error::Oodle, "Oodle compression only supported on Windows (or WINE)"),
        (Error::Fmt(std::fmt::Error), "fmt error: an error occurred when formatting an argument"),
        (Error::Ureq("host not found".to_string()), "ureq error: host not found"),
        (Error::IntoInner("disk full".to_string()), "bufwriter dereference: disk full"),
        (Error::Bool(0), "got 0, which is not a boolean"),
        (Error::Bool(7), "got 7, which is not a boolean"),
        (Error::Bool(10), "got 10, which is not a boolean"),
        (Error::Bool(255), "got 255, which is not a boolean"),
        (Error::Magic(0), "found magic of 0x0 instead of 0x5a6f12e1"),
        (Error::Magic(0x1234abcd), "found magic of 0x1234abcd instead of 0x5a6f12e1"),
        (Error::Magic(u32::MAX), "found magic of 0xffffffff instead of 0x5a6f12e1"),
        (Error::OodleFailed, "Could not load oo2core_9_win64.dll"),
        (Error::MissingEntry("a/b.txt".to_string()), "No entry found at a/b.txt"),
        (
            Error::PrefixMismatch { prefix: "../".to_string(), path: "x/a".to_string() },
            "Prefix \"../\" does not match path \"x/a\"",
        ),
        (
            Error::WriteOutsideOutput("../x".to_string()),
            "Attempted to write to \"../x\" which outside of output directory",
        ),
        (Error::OutputNotEmpty("out".to_string()), "Output directory is not empty: \"out\""),
        (Error::InputNotADirectory("in".to_string()), "Input is not a directory: \"in\""),
        (Error::DecompressionFailed(Compression::Rle), "Rle decompression failed"),
        (Error::DecompressionFailed(Compression::Oodle), "Oodle decompression failed"),
        (
            Error::Version { used: VersionMajor::Initial, version: VersionMajor::Fnv64BugFix },
            "used version Initial but pak is version Fnv64BugFix",
        ),
        (Error::Encrypted, "pak is encrypted but no key was provided"),
        (Error::OsString("x".to_string()), "error with OsString"),
        (
            Error::UnsupportedOrEncrypted("".to_string()),
            "version unsupported or is encrypted (possibly missing --aes-key?)",
        ),
        (Error::Other("anything".to_string()), "anything"),
    ];
    for (e, text) in cases {
        assert_eq!(e.message(), text);
    }
}

#[test]
fn messages_end_with_the_text_of_the_carried_error() {
    let io = std::io::Error::new(std::io::ErrorKind::NotFound, "no such file");
    assert_eq!(Error::Io(io).message(), "io error: no such file");
    let utf8 = String::from_utf8(vec![0xff]).unwrap_err();
    let text = utf8.to_string();
    assert_eq!(Error::Utf8(utf8).message(), format!("utf8 conversion: {}", text));
    let utf16 = String::from_utf16(&[0xd800]).unwrap_err();
    let text = utf16.to_string();
    assert_eq!(Error::Utf16(utf16).message(), format!("utf16 conversion: {}", text));
}

#[test]
fn numbers_are_rendered_in_decimal_and_hexadecimal() {
    let mut s = String::from("n=");
    repak::text::push_decimal(&mut s, 0);
    s.push(' ');
    repak::text::push_decimal(&mut s, 9);
    s.push(' ');
    repak::text::push_decimal(&mut s, 1234567890);
    s.push(' ');
    repak::text::push_decimal(&mut s, u64::MAX);
    s.push(' ');
    repak::text::push_hex(&mut s, 0);
    s.push(' ');
    repak::text::push_hex(&mut s, 0xdeadbeef);
    s.push(' ');
    repak::text::push_hex(&mut s, u64::MAX);
    assert_eq!(s, "n=0 9 1234567890 18446744073709551615 0x0 0xdeadbeef 0xffffffffffffffff");
}

#[test]
fn revisions_are_found_by_number_and_name() {
    let all = [
        (VersionMajor::Unknown, 0u8, "Unknown"),
        (VersionMajor::Initial, 1, "Initial"),
        (VersionMajor::NoTimestamps, 2, "NoTimestamps"),
        (VersionMajor::CompressionEncryption, 3, "CompressionEncryption"),
        (VersionMajor::IndexEncryption, 4, "IndexEncryption"),
        (VersionMajor::RelativeChunkOffsets, 5, "RelativeChunkOffsets"),
        (VersionMajor::DeleteRecords, 6, "DeleteRecords"),
        (VersionMajor::EncryptionKeyGuid, 7, "EncryptionKeyGuid"),
        (VersionMajor::FNameBasedCompression, 8, "FNameBasedCompression"),
        (VersionMajor::FrozenIndex, 9, "FrozenIndex"),
        (VersionMajor::PathHashIndex, 10, "PathHashIndex"),
        (VersionMajor::Fnv64BugFix, 11, "Fnv64BugFix"),
    ];
    for (v, tag, name) in all {
        assert_eq!(v.tag(), tag);
        assert_eq!(v.name(), name);
        assert_eq!(VersionMajor::from_tag(tag), Ok(v));
        assert_eq!(VersionMajor::from_name(name), Ok(v));
    }
    assert_eq!(VersionMajor::from_tag(12), Err(strum::ParseError::VariantNotFound));
    assert_eq!(VersionMajor::from_tag(255), Err(strum::ParseError::VariantNotFound));
    assert_eq!(VersionMajor::from_name("initial"), Err(strum::ParseError::VariantNotFound));
    assert_eq!(VersionMajor::from_name("V11"), Err(strum::ParseError::VariantNotFound));
    assert!(VersionMajor::Initial < VersionMajor::Fnv64BugFix);
}

#[test]
fn hash_of_known_inputs() {
    assert_eq!(repak::hash::hash(b""), 0xcbf29ce484222325);
    assert_eq!(repak::hash::hash(b"a"), 0xaf63dc4c8601ec8c);
    assert_eq!(repak::hash::hash(b"foobar"), 0x85944171f73967e8);
}

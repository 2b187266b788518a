use repak::compression::{
    accept, compress, decompress, Compression, OodleSupport, Support, Unpacked,
};
use repak::error::Error;
use repak::rle::{rle_decode, rle_encode};

fn bytes(u: Unpacked) -> Vec<u8> {
    match u {
        Unpacked::Bytes(b) => b,
        Unpacked::Oodle => panic!("left to Oodle"),
    }
}

#[test]
fn run_length_coding_of_known_inputs() {
    assert_eq!(rle_encode(&[]), Vec::<u8>::new());
    assert_eq!(rle_encode(&[5]), vec![1, 5]);
    assert_eq!(rle_encode(&[5, 5, 5, 6, 7, 7]), vec![3, 5, 1, 6, 2, 7]);
    assert_eq!(rle_encode(&[9u8; 255]), vec![255, 9]);
    assert_eq!(rle_encode(&[9u8; 256]), vec![255, 9, 1, 9]);
    assert_eq!(rle_encode(&[9u8; 600]), vec![255, 9, 255, 9, 90, 9]);
}

#[test]
fn run_length_decoding_of_known_inputs() {
    assert_eq!(rle_decode(&[], 0), Some(vec![]));
    assert_eq!(rle_decode(&[3, 5, 1, 6, 2, 7], 6), Some(vec![5, 5, 5, 6, 7, 7]));
    assert_eq!(rle_decode(&[3, 5, 1, 6, 2, 7], 100), Some(vec![5, 5, 5, 6, 7, 7]));
    assert_eq!(rle_decode(&[3, 5, 1, 6, 2, 7], 5), None);
    assert_eq!(rle_decode(&[3, 5, 1], 100), None);
    assert_eq!(rle_decode(&[0, 5], 100), None);
    assert_eq!(rle_decode(&[2, 5, 0, 6], 100), None);
}

#[test]
fn compress_then_decompress_gives_the_payload() {
    let support = Support::full();
    let payloads: Vec<Vec<u8>> = vec![
        vec![],
        vec![1],
        b"hello world".to_vec(),
        vec![0u8; 10 * 1024],
        (0..2000).map(|i| (i / 300) as u8).collect(),
        (0..=255u8).collect(),
    ];
    for codec in [Compression::Stored, Compression::Rle] {
        for raw in &payloads {
            let stored = compress(codec, raw, &support).unwrap();
            let back = bytes(decompress(codec, &stored, raw.len(), &support).unwrap());
            assert_eq!(&back, raw);
        }
    }
}

#[test]
fn compress_stores_what_the_codec_makes() {
    let support = Support::full();
    assert_eq!(compress(Compression::Stored, b"aaab", &support).unwrap(), b"aaab".to_vec());
    assert_eq!(compress(Compression::Rle, b"aaab", &support).unwrap(), vec![3, b'a', 1, b'b']);
    assert_eq!(compress(Compression::Rle, &[7u8; 10240], &support).unwrap().len(), 82);
}

#[test]
fn decompress_fails_on_a_wrong_length_or_broken_data() {
    let support = Support::full();
    for (codec, stored, expected) in [
        (Compression::Stored, vec![1u8, 2, 3], 2usize),
        (Compression::Stored, vec![1u8, 2, 3], 4),
        (Compression::Rle, vec![3u8, 5], 2),
        (Compression::Rle, vec![3u8, 5], 4),
        (Compression::Rle, vec![3u8], 3),
        (Compression::Rle, vec![0u8, 5], 0),
    ] {
        match decompress(codec, &stored, expected, &support) {
            Err(Error::DecompressionFailed(c)) => assert_eq!(c, codec),
            other => panic!("unexpected {:?}", other),
        }
    }
    assert_eq!(bytes(decompress(Compression::Rle, &[3, 5], 3, &support).unwrap()), vec![5, 5, 5]);
}

#[test]
fn general_codecs_can_be_switched_off() {
    let support = Support { compression: false, encryption: true, oodle: OodleSupport::Unsupported };
    assert!(matches!(compress(Compression::Rle, b"abc", &support), Err(Error::Compression)));
    assert!(matches!(decompress(Compression::Rle, &[1, 2], 1, &support), Err(Error::Compression)));
    assert_eq!(compress(Compression::Stored, b"abc", &support).unwrap(), b"abc".to_vec());
    assert_eq!(bytes(decompress(Compression::Stored, b"abc", 3, &support).unwrap()), b"abc".to_vec());
}

#[test]
fn oodle_follows_the_state_of_the_routine() {
    let mut support = Support::full();
    assert!(matches!(decompress(Compression::Oodle, &[1], 1, &support), Err(Error::Oodle)));
    assert!(matches!(compress(Compression::Oodle, &[1], &support), Err(Error::Oodle)));
    support.oodle = OodleSupport::Unavailable;
    assert!(matches!(decompress(Compression::Oodle, &[1], 1, &support), Err(Error::OodleFailed)));
    assert!(matches!(compress(Compression::Oodle, &[1], &support), Err(Error::OodleFailed)));
    support.oodle = OodleSupport::Loaded;
    assert!(matches!(decompress(Compression::Oodle, &[1], 1, &support), Ok(Unpacked::Oodle)));
    match compress(Compression::Oodle, &[1], &support) {
        Err(Error::Other(text)) => assert_eq!(text, "writing Oodle compression is not supported"),
        other => panic!("unexpected {:?}", other),
    }
}

#[test]
fn accept_holds_the_output_to_the_expected_length() {
    assert_eq!(accept(Compression::Oodle, Some(vec![1, 2, 3]), 3).unwrap(), vec![1, 2, 3]);
    for (produced, expected) in [(Some(vec![1u8, 2, 3]), 2usize), (Some(vec![1u8, 2, 3]), 4), (None, 0)] {
        match accept(Compression::Oodle, produced, expected) {
            Err(Error::DecompressionFailed(c)) => assert_eq!(c, Compression::Oodle),
            other => panic!("unexpected {:?}", other),
        }
    }
}

#[test]
fn codecs_are_found_by_number_and_name() {
    for codec in [Compression::Stored, Compression::Rle, Compression::Oodle] {
        assert_eq!(Compression::from_tag(codec.tag()).unwrap(), codec);
        assert_eq!(Compression::from_name(codec.name()).unwrap(), codec);
    }
    assert_eq!(Compression::Stored.tag(), 0);
    assert_eq!(Compression::Rle.tag(), 1);
    assert_eq!(Compression::Oodle.tag(), 2);
    assert_eq!(Compression::Oodle.name(), "Oodle");
    assert_eq!(Compression::from_tag(3), Err(strum::ParseError::VariantNotFound));
    assert_eq!(Compression::from_name("oodle"), Err(strum::ParseError::VariantNotFound));
    assert_eq!(Compression::from_name(""), Err(strum::ParseError::VariantNotFound));
}

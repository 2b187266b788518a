use repak::aes::Aes256;
use repak::encryption::{decrypt, encrypt, Key};
use repak::error::Error;
use repak::keytext::{key_from_base64, key_from_hex, key_from_text};

fn counting_key() -> [u8; 32] {
    let mut key = [0u8; 32];
    for (i, b) in key.iter_mut().enumerate() {
        *b = i as u8;
    }
    key
}

#[test]
fn block_cipher_matches_the_published_vector() {
    let cipher = Aes256::new(&counting_key());
    let plain: [u8; 16] = [
        0x00, 0x11, 0x22, 0x33, 0x44, 0x55, 0x66, 0x77, 0x88, 0x99, 0xaa, 0xbb, 0xcc, 0xdd, 0xee,
        0xff,
    ];
    let sealed: [u8; 16] = [
        0x8e, 0xa2, 0xb7, 0xca, 0x51, 0x67, 0x45, 0xbf, 0xea, 0xfc, 0x49, 0x90, 0x4b, 0x49, 0x60,
        0x89,
    ];
    assert_eq!(cipher.encrypt_block(&plain), sealed);
    assert_eq!(cipher.decrypt_block(&sealed), plain);
}

#[test]
fn block_cipher_changes_the_block() {
    let cipher = Aes256::new(&[7u8; 32]);
    let plain = [0u8; 16];
    let sealed = cipher.encrypt_block(&plain);
    assert_ne!(sealed, plain);
    assert_eq!(cipher.decrypt_block(&sealed), plain);
}

#[test]
fn encrypt_then_decrypt_gives_the_payload() {
    let key = Key::from_bytes(&counting_key()).unwrap();
    for len in [0usize, 1, 15, 16, 17, 31, 32, 33, 100, 1000] {
        let plain: Vec<u8> = (0..len).map(|i| (i * 7 + 3) as u8).collect();
        let sealed = encrypt(&key, &plain);
        assert_eq!(sealed.len(), (len / 16 + 1) * 16);
        assert_eq!(decrypt(&key, &sealed).unwrap(), plain);
    }
}

#[test]
fn encrypt_pads_to_whole_blocks() {
    let key = Key::from_bytes(&counting_key()).unwrap();
    let cipher = Aes256::new(&counting_key());
    let sealed = encrypt(&key, b"hello");
    let mut block = [11u8; 16];
    block[..5].copy_from_slice(b"hello");
    assert_eq!(sealed, cipher.encrypt_block(&block).to_vec());
    let sealed = encrypt(&key, &[]);
    assert_eq!(sealed, cipher.encrypt_block(&[16u8; 16]).to_vec());
}

#[test]
fn decrypt_refuses_what_was_not_encrypted() {
    let key = Key::from_bytes(&counting_key()).unwrap();
    for bad in [vec![], vec![1u8; 15], vec![1u8; 17]] {
        match decrypt(&key, &bad) {
            Err(Error::Other(text)) => assert_eq!(text, "encrypted data is malformed"),
            other => panic!("unexpected {:?}", other),
        }
    }
    let cipher = Aes256::new(&counting_key());
    let mut block = [3u8; 16];
    block[15] = 0;
    assert!(matches!(decrypt(&key, &cipher.encrypt_block(&block)), Err(Error::Other(_))));
    block[15] = 17;
    assert!(matches!(decrypt(&key, &cipher.encrypt_block(&block)), Err(Error::Other(_))));
    block[15] = 3;
    block[13] = 4;
    assert!(matches!(decrypt(&key, &cipher.encrypt_block(&block)), Err(Error::Other(_))));
    block[13] = 3;
    assert_eq!(decrypt(&key, &cipher.encrypt_block(&block)).unwrap(), vec![3u8; 13]);
}

#[test]
fn decrypt_with_another_key_does_not_give_the_payload() {
    let key = Key::from_bytes(&counting_key()).unwrap();
    let other = Key::from_bytes(&[9u8; 32]).unwrap();
    let plain = b"sixteen byte msg and a little more".to_vec();
    let sealed = encrypt(&key, &plain);
    match decrypt(&other, &sealed) {
        Ok(found) => assert_ne!(found, plain),
        Err(Error::Other(_)) => {}
        Err(e) => panic!("unexpected {:?}", e),
    }
}

#[test]
fn key_must_be_32_bytes() {
    assert!(matches!(Key::from_bytes(&[0u8; 31]), Err(Error::Aes)));
    assert!(matches!(Key::from_bytes(&[0u8; 33]), Err(Error::Aes)));
    assert!(matches!(Key::from_bytes(&[]), Err(Error::Aes)));
    let key = Key::from_bytes(&counting_key()).unwrap();
    assert_eq!(key.bytes, counting_key());
}

#[test]
fn key_is_read_from_hexadecimal_and_base64() {
    let hex = "000102030405060708090a0b0c0d0e0f101112131415161718191a1b1c1d1e1f";
    let base64 = "AAECAwQFBgcICQoLDA0ODxAREhMUFRYXGBkaGxwdHh8=";
    for text in [
        hex.to_string(),
        hex.to_uppercase(),
        format!("0x{}", hex),
        base64.to_string(),
        base64.trim_end_matches('=').to_string(),
    ] {
        assert_eq!(key_from_text(&text).unwrap().bytes, counting_key(), "{}", text);
    }
    assert_eq!(
        key_from_text("/////////////////////////////////////////38=").unwrap().bytes,
        {
            let mut k = [0xffu8; 32];
            k[31] = 0x7f;
            k
        }
    );
    assert_eq!(
        key_from_text("+/+/+/+/+/+/+/+/+/+/+/+/+/+/+/+/+/+/+/+/+/8").unwrap().bytes[..3],
        [0xfb, 0xff, 0xbf]
    );
    assert_eq!(key_from_hex(hex.as_bytes()).unwrap().bytes, counting_key());
    assert!(key_from_hex(base64.as_bytes()).is_none());
    assert_eq!(key_from_base64(base64.as_bytes()).unwrap().bytes, counting_key());
    assert!(key_from_base64(hex.as_bytes()).is_none());
    for bad in [
        "",
        "0x",
        "00",
        &hex[..63],
        &format!("{}0", hex),
        &format!("0X{}", hex),
        &hex.replace('a', "g"),
        &base64[..42],
        &base64.replace('=', "A"),
        &base64.replace("8=", "9="),
        &base64.replace('A', "-"),
        &format!("{}=", base64),
        &format!(" {}", base64),
        "not a key",
    ] {
        assert!(matches!(key_from_text(bad), Err(Error::Aes)), "{}", bad);
    }
}

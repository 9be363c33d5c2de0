use tunnel::cipher::{password_to_cipher_key, Method, NonceSequenceGenerator};
use tunnel::shadowsocks::{map_crypto_error, ReadProgress, ShadowsocksDatagram,
    ShadowsocksStream, SsError};

#[test]
fn stream_test() {
    let x = Method::AES_192_GCM;
    println!("{}", x.to_display_string());
}

#[test]
fn master_key_derivation() {
    // the classic EVP_BytesToKey construction: one MD5 round for a 16-byte key
    let key = password_to_cipher_key("test", 16);
    assert_eq!(
        key,
        vec![
            0x09, 0x8f, 0x6b, 0xcd, 0x46, 0x21, 0xd3, 0x73, 0xca, 0xde, 0x4e, 0x83, 0x26, 0x27,
            0xb4, 0xf6,
        ]
    );
    // a 32-byte key chains a second round
    let key32 = password_to_cipher_key("test", 32);
    assert_eq!(&key32[..16], &key[..]);
    assert_eq!(key32.len(), 32);
}

#[test]
fn nonce_counter_steps() {
    let mut gen = NonceSequenceGenerator::new(2);
    assert_eq!(gen.increase(), vec![0x00, 0x00]);
    assert_eq!(gen.increase(), vec![0x01, 0x00]);
    assert_eq!(gen.increase(), vec![0x02, 0x00]);
    let mut carry = NonceSequenceGenerator::new(1);
    assert_eq!(carry.increase(), vec![0x00]);
    for step in 1..=255u16 {
        assert_eq!(carry.increase(), vec![step as u8]);
    }
    // after 256 steps the one-byte counter wraps back to zero
    assert_eq!(carry.increase(), vec![0x00]);
}

#[test]
fn stream_round_trip() {
    let mut writer = ShadowsocksStream::new("aes-128-gcm", "test").unwrap();
    let wire = writer.encrypt_chunk(b"hello");
    // salt(16) + length frame(2+16) + payload frame(5+16)
    assert_eq!(wire.len(), 16 + 18 + 21);

    let mut reader = ShadowsocksStream::new("aes-128-gcm", "test").unwrap();
    reader.feed(&wire);
    let mut plain = Vec::new();
    loop {
        match reader.read_step().unwrap() {
            ReadProgress::NeedMoreData => break,
            ReadProgress::Progressed => {},
            ReadProgress::Decrypted(p) => plain.extend_from_slice(&p),
        }
    }
    assert_eq!(plain, b"hello".to_vec());
    assert!(reader.eof_check().is_ok());

    // a second chunk travels without a fresh salt
    let wire2 = writer.encrypt_chunk(b"world");
    assert_eq!(wire2.len(), 18 + 21);
    reader.feed(&wire2);
    let mut plain2 = Vec::new();
    loop {
        match reader.read_step().unwrap() {
            ReadProgress::NeedMoreData => break,
            ReadProgress::Progressed => {},
            ReadProgress::Decrypted(p) => plain2.extend_from_slice(&p),
        }
    }
    assert_eq!(plain2, b"world".to_vec());
}

#[test]
fn stream_rejects_tampering() {
    let mut writer = ShadowsocksStream::new("aes-128-gcm", "test").unwrap();
    let mut wire = writer.encrypt_chunk(b"hello");
    // flip one bit past the salt
    wire[20] ^= 0x01;
    let mut reader = ShadowsocksStream::new("aes-128-gcm", "test").unwrap();
    reader.feed(&wire);
    let mut failed = false;
    loop {
        match reader.read_step() {
            Ok(ReadProgress::NeedMoreData) => break,
            Ok(_) => {},
            Err(e) => {
                assert_eq!(e, SsError::Crypto);
                failed = true;
                break;
            },
        }
    }
    assert!(failed);
    assert_eq!(map_crypto_error(), SsError::Crypto);
}

#[test]
fn stream_wrong_password_fails() {
    let mut writer = ShadowsocksStream::new("aes-256-gcm", "test").unwrap();
    let wire = writer.encrypt_chunk(b"hello");
    assert_eq!(wire.len(), 32 + 18 + 21);
    let mut reader = ShadowsocksStream::new("aes-256-gcm", "other").unwrap();
    reader.feed(&wire);
    let mut failed = false;
    loop {
        match reader.read_step() {
            Ok(ReadProgress::NeedMoreData) => break,
            Ok(_) => {},
            Err(_) => {
                failed = true;
                break;
            },
        }
    }
    assert!(failed);
}

#[test]
fn unknown_method_is_refused() {
    assert!(ShadowsocksStream::new("aes-192-gcm", "pw").is_err());
    assert!(ShadowsocksDatagram::new("chacha", "pw").is_err());
}

#[test]
fn datagram_round_trip() {
    let codec = ShadowsocksDatagram::new("aes-128-gcm", "test").unwrap();
    let wire = codec.encrypt(b"ping".to_vec());
    assert_eq!(wire.len(), 16 + 4 + 16);
    let back = codec.decrypt(wire.clone()).unwrap();
    assert_eq!(back, b"ping".to_vec());
    // tampering past the salt is refused
    let mut bad = wire;
    bad[18] ^= 0x80;
    assert!(codec.decrypt(bad).is_err());
}

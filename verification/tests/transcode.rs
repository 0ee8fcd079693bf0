use lnpbp::transcode::{Decrypt, DecryptionError, Encrypt, NoEncryption, Transcode};

#[test]
fn no_encryption_passes_frames_through() {
    let mut codec = NoEncryption;
    let frame = vec![0x01, 0x02, 0x03];
    assert_eq!(codec.encrypt(&frame), frame);
    assert_eq!(codec.decrypt(&frame), Ok(frame.clone()));
    assert_eq!(codec.encrypt(&[]), Vec::<u8>::new());
    assert_eq!(codec.decrypt(&[]), Ok(Vec::new()));
}

#[test]
fn no_encryption_round_trip() {
    let mut codec = NoEncryption;
    let frame = vec![0xde, 0xad, 0xbe, 0xef];
    let wire = codec.encrypt(&frame);
    assert_eq!(codec.decrypt(&wire), Ok(frame));
}

#[test]
fn no_encryption_splits_and_rejoins() {
    let codec = NoEncryption;
    let (encryptor, decryptor) = codec.split();
    assert_eq!(encryptor, NoEncryption);
    assert_eq!(decryptor, NoEncryption);
    assert_eq!(NoEncryption::join(encryptor, decryptor), NoEncryption);
}

#[test]
fn decryption_error_is_a_value() {
    assert_eq!(DecryptionError, DecryptionError);
    let copied = DecryptionError;
    assert_eq!(copied.clone(), DecryptionError);
}

use lnpbp::error::Error;
use lnpbp::strict::{
    decode_byte_seq, encode_byte_seq,
    decode_bytes, decode_u16, decode_u32, decode_u8, encode_bytes, encode_u16, encode_u32,
    encode_u8, STRICT_COLLECTION_MAX,
};

#[test]
fn fixed_width_encodings_are_little_endian() {
    let mut sink = Vec::new();
    encode_u8(&mut sink, 0xab);
    assert_eq!(sink, vec![0xab]);

    let mut sink = Vec::new();
    encode_u16(&mut sink, 0x1234);
    assert_eq!(sink, vec![0x34, 0x12]);

    let mut sink = Vec::new();
    encode_u32(&mut sink, 0xdead_beef);
    assert_eq!(sink, vec![0xef, 0xbe, 0xad, 0xde]);

    let mut sink = vec![0x01];
    encode_bytes(&mut sink, &vec![0x02, 0x03]);
    assert_eq!(sink, vec![0x01, 0x02, 0x03]);
}

#[test]
fn fixed_width_round_trips() {
    let mut sink = Vec::new();
    encode_u16(&mut sink, 65535);
    encode_u32(&mut sink, 1);
    let (v16, pos) = decode_u16(&sink, 0).unwrap();
    assert_eq!(v16, 65535);
    let (v32, pos) = decode_u32(&sink, pos).unwrap();
    assert_eq!(v32, 1);
    assert_eq!(pos, 6);
}

#[test]
fn short_streams_never_zero_padded() {
    assert_eq!(decode_u8(&vec![], 0), Err(Error::DataIncomplete));
    assert_eq!(decode_u16(&vec![0x01], 0), Err(Error::DataIncomplete));
    assert_eq!(decode_u32(&vec![0x01, 0x02, 0x03], 0), Err(Error::DataIncomplete));
    assert!(matches!(
        decode_bytes(&vec![0x01, 0x02], 1, 2),
        Err(Error::DataIncomplete)
    ));
}

#[test]
fn byte_runs_decode_exactly() {
    let data = vec![0x10, 0x20, 0x30, 0x40];
    let (run, pos) = decode_bytes(&data, 1, 2).unwrap();
    assert_eq!(run, vec![0x20, 0x30]);
    assert_eq!(pos, 3);
    assert_eq!(decode_u8(&data, 3), Ok((0x40, 4)));
}

#[test]
fn collection_cap_matches_count_width() {
    assert_eq!(STRICT_COLLECTION_MAX, 65535);
}

#[test]
fn byte_seq_round_trip() {
    let mut sink = Vec::new();
    encode_byte_seq(&mut sink, &vec![0xaa, 0xbb, 0xcc]).unwrap();
    assert_eq!(sink, vec![0x03, 0x00, 0xaa, 0xbb, 0xcc]);
    assert_eq!(
        decode_byte_seq(&sink, 0),
        Ok((vec![0xaa, 0xbb, 0xcc], 5))
    );

    let mut sink = Vec::new();
    encode_byte_seq(&mut sink, &vec![]).unwrap();
    assert_eq!(sink, vec![0x00, 0x00]);
    assert_eq!(decode_byte_seq(&sink, 0), Ok((vec![], 2)));
}

#[test]
fn byte_seq_cap_enforced() {
    let mut sink = vec![0x99];
    assert_eq!(
        encode_byte_seq(&mut sink, &vec![0x00; 65_536]),
        Err(Error::ValueOutOfRange)
    );
    // a refused sequence leaves the sink untouched
    assert_eq!(sink, vec![0x99]);
    let mut sink = Vec::new();
    encode_byte_seq(&mut sink, &vec![0x00; 65_535]).unwrap();
    assert_eq!(sink.len(), 65_537);
}

#[test]
fn byte_seq_declared_count_is_binding() {
    // the count says three bytes, the stream carries two
    assert_eq!(
        decode_byte_seq(&vec![0x03, 0x00, 0xaa, 0xbb], 0),
        Err(Error::DataIncomplete)
    );
    assert_eq!(decode_byte_seq(&vec![0x03], 0), Err(Error::DataIncomplete));
}

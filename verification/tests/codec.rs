use smt_commit::codec::{
    decode_value, encode_key, encode_value, CodecError, LeafValue, SmtKeyEncode, SmtValueEncode,
};

const ACCOUNT: [u8; 20] = [
    0x74, 0x3a, 0x7e, 0x3b, 0x0b, 0x45, 0xff, 0xf5, 0xaf, 0x48, 0x57, 0xd6, 0x19, 0xe2, 0x32,
    0xfc, 0x9f, 0x86, 0xaf, 0x1c,
];

#[test]
fn encode_key_places_account_bytes_then_zeros() {
    let key = encode_key(&ACCOUNT);
    let mut expected = [0u8; 32];
    expected[..20].copy_from_slice(&ACCOUNT);
    assert_eq!(key.0, expected);
}

#[test]
fn encode_value_is_little_endian_then_zeros() {
    let value = encode_value(100);
    let mut expected = [0u8; 32];
    expected[0] = 100;
    assert_eq!(value.0, expected);

    let value = encode_value(0x0102_0304);
    let mut expected = [0u8; 32];
    expected[0] = 0x04;
    expected[1] = 0x03;
    expected[2] = 0x02;
    expected[3] = 0x01;
    assert_eq!(value.0, expected);
}

#[test]
fn value_encoding_round_trips() {
    for v in [0u128, 1, 100, 255, 256, 0x0102_0304, u64::MAX as u128, u128::MAX] {
        assert_eq!(decode_value(&encode_value(v)), Ok(v));
    }
}

#[test]
fn decode_rejects_nonzero_upper_bytes() {
    let mut bytes = encode_value(100).0;
    bytes[16] = 1;
    assert_eq!(
        decode_value(&LeafValue(bytes)),
        Err(CodecError::InvalidLeafEncoding)
    );
    let mut bytes = [0u8; 32];
    bytes[31] = 7;
    assert_eq!(
        decode_value(&LeafValue(bytes)),
        Err(CodecError::InvalidLeafEncoding)
    );
}

#[test]
fn distinct_accounts_get_distinct_keys() {
    let mut other = ACCOUNT;
    other[19] ^= 0xff;
    assert_ne!(encode_key(&ACCOUNT).0, encode_key(&other).0);

    let mut first_byte = ACCOUNT;
    first_byte[0] ^= 0x01;
    assert_ne!(encode_key(&ACCOUNT).0, encode_key(&first_byte).0);
}

#[test]
fn tagged_encoders_match_plain_encoders() {
    let key = SmtKeyEncode::Address(ACCOUNT).to_h256();
    assert_eq!(key.0, encode_key(&ACCOUNT).0);
    let value = SmtValueEncode::Amount(100).to_leaf_value();
    assert_eq!(value.0, encode_value(100).0);
}

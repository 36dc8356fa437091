use dbpage::error::DecodeError;
use dbpage::varint::consume_varint;
use dbpage::varint::decode;
use dbpage::varint::encode;
use dbpage::varint::parse_varint;
use dbpage::varint::varint_size;

#[test]
fn test_varint_single() {
    let bytes = [15];
    assert_eq!(parse_varint(&bytes), (1, 15));
}

#[test]
fn test_varint_single_with_padding() {
    let bytes = [15, 0, 0, 0, 0, 0];
    assert_eq!(parse_varint(&bytes), (1, 15));
}

#[test]
fn test_varint_two_bytes() {
    let bytes = [143, 15];
    assert_eq!(parse_varint(&bytes), (2, 1935));
}

#[test]
fn test_varint_large() {
    let bytes = [0x8f, 0x8f, 0x8f, 0x8f, 0x8f, 0x8f, 0x8f, 0x8f, 0x0f];
    assert_eq!(parse_varint(&bytes), (9, 2178749300044435215));
}

#[test]
fn test_decode_boundary_one_byte() {
    assert_eq!(decode(&[0x0f]), Ok((15, 1)));
}

#[test]
fn test_decode_boundary_two_bytes() {
    assert_eq!(decode(&[0x8f, 0x0f]), Ok((1935, 2)));
}

#[test]
fn test_decode_boundary_nine_bytes() {
    let bytes = [0x8f, 0x8f, 0x8f, 0x8f, 0x8f, 0x8f, 0x8f, 0x8f, 0x0f];
    assert_eq!(decode(&bytes), Ok((2178749300044435215, 9)));
}

#[test]
fn test_decode_ignores_padding() {
    assert_eq!(decode(&[0x0f, 0xff, 0xff]), Ok((15, 1)));
}

#[test]
fn test_decode_truncated() {
    assert_eq!(decode(&[0x8f]), Err(DecodeError::TruncatedInput));
}

#[test]
fn test_decode_truncated_long() {
    assert_eq!(
        decode(&[0x8f, 0x8f, 0x8f, 0x8f, 0x8f, 0x8f, 0x8f, 0x8f]),
        Err(DecodeError::TruncatedInput)
    );
}

#[test]
fn test_decode_empty() {
    assert_eq!(decode(&[]), Err(DecodeError::TruncatedInput));
}

#[test]
fn test_encode_exact_bytes() {
    assert_eq!(encode(0), vec![0x00]);
    assert_eq!(encode(15), vec![0x0f]);
    assert_eq!(encode(1935), vec![0x8f, 0x0f]);
    assert_eq!(encode(2178749300044435215), vec![0x8f, 0x8f, 0x8f, 0x8f, 0x8f, 0x8f, 0x8f, 0x8f, 0x0f]);
}

#[test]
fn test_varint_size_thresholds() {
    assert_eq!(varint_size(0), 1);
    assert_eq!(varint_size(127), 1);
    assert_eq!(varint_size(128), 2);
    assert_eq!(varint_size(16383), 2);
    assert_eq!(varint_size(16384), 3);
    assert_eq!(varint_size((1 << 56) - 1), 8);
    assert_eq!(varint_size(1 << 56), 9);
    assert_eq!(varint_size(u64::MAX), 9);
}

#[test]
fn test_round_trip() {
    let values = [
        0u64,
        1,
        15,
        127,
        128,
        1935,
        16383,
        16384,
        (1 << 56) - 1,
        1 << 56,
        2178749300044435215,
        u64::MAX,
    ];
    for &v in values.iter() {
        let enc = encode(v);
        assert_eq!(decode(&enc), Ok((v, enc.len())));
        assert_eq!(enc.len(), varint_size(v));
    }
}

#[test]
fn test_consume_varint_leaves_buffer() {
    let mut bytes = [0x8f, 0x0f, 3];
    consume_varint(&mut bytes);
    assert_eq!(bytes, [0x8f, 0x0f, 3]);
}

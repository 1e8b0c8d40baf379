use deoxys_core::codec::{
    decode_bool, decode_bytes, decode_felt, decode_felts, decode_u64, encode_bool, encode_bytes,
    encode_felt, encode_felts, encode_u64,
};
use deoxys_core::felt::Felt;
use parity_scale_codec::{Compact, Encode};

fn word(hi: u128, lo: u128) -> Felt {
    Felt { hi, lo }
}

#[test]
fn u64_round_trip_and_layout() {
    for x in [0u64, 1, 255, 256, 0x0102_0304_0506_0708, u64::MAX] {
        let b = encode_u64(x);
        assert_eq!(b, x.encode());
        assert_eq!(decode_u64(&b), Some(x));
    }
    assert_eq!(encode_u64(0x0102_0304_0506_0708), vec![8, 7, 6, 5, 4, 3, 2, 1]);
}

#[test]
fn u64_rejects_wrong_length() {
    assert_eq!(decode_u64(&[1, 2, 3]), None);
    assert_eq!(decode_u64(&[0; 9]), None);
}

#[test]
fn bool_round_trip_and_rejects() {
    assert_eq!(encode_bool(true), vec![1]);
    assert_eq!(encode_bool(false), vec![0]);
    assert_eq!(encode_bool(true), true.encode());
    assert_eq!(decode_bool(&[1]), Some(true));
    assert_eq!(decode_bool(&[0]), Some(false));
    assert_eq!(decode_bool(&[2]), None);
    assert_eq!(decode_bool(&[]), None);
    assert_eq!(decode_bool(&[1, 0]), None);
}

#[test]
fn felt_round_trip_is_big_endian() {
    let f = word(0x1122_3344_5566_7788_99aa_bbcc_ddee_ff00, 0x0f0e_0d0c_0b0a_0908_0706_0504_0302_0100);
    let b = encode_felt(f);
    assert_eq!(b.len(), 32);
    let mut be = [0u8; 32];
    be[..16].copy_from_slice(&f.hi.to_be_bytes());
    be[16..].copy_from_slice(&f.lo.to_be_bytes());
    assert_eq!(b, be.encode());
    assert_eq!(b[0], 0x11);
    assert_eq!(b[31], 0x00);
    assert_eq!(decode_felt(&b), Some(f));
    assert_eq!(decode_felt(&b[..31]), None);
}

#[test]
fn felt_list_round_trip_matches_scale() {
    for n in [0usize, 1, 63, 64, 70] {
        let v: Vec<Felt> = (0..n).map(|i| word(i as u128, (i * 7) as u128)).collect();
        let b = encode_felts(&v);
        let arrays: Vec<[u8; 32]> = v
            .iter()
            .map(|f| {
                let mut a = [0u8; 32];
                a[..16].copy_from_slice(&f.hi.to_be_bytes());
                a[16..].copy_from_slice(&f.lo.to_be_bytes());
                a
            })
            .collect();
        assert_eq!(b, arrays.encode());
        assert_eq!(decode_felts(&b), Some(v));
    }
}

#[test]
fn compact_lengths_match_scale() {
    for n in [0usize, 1, 63, 64, 16383, 16384, 100_000] {
        let v = vec![7u8; n];
        let b = encode_bytes(&v);
        let mut expected = Compact(n as u32).encode();
        expected.extend_from_slice(&v);
        assert_eq!(b, expected);
        assert_eq!(decode_bytes(&b), Some(v));
    }
}

#[test]
fn list_rejects_bad_framing() {
    let v = vec![word(1, 2), word(3, 4)];
    let mut b = encode_felts(&v);
    b.pop();
    assert_eq!(decode_felts(&b), None);
    // a length of 1 written in the two-byte form is not canonical
    assert_eq!(decode_bytes(&[0x05, 0x00, 0xaa]), None);
    assert_eq!(decode_bytes(&[0x04, 0xaa]), Some(vec![0xaa]));
    assert_eq!(decode_bytes(&[]), None);
}

#[test]
fn compact_four_byte_and_marker_forms() {
    // 2^30 - 1 takes the four-byte form
    let n: u32 = (1 << 30) - 1;
    let mut b = Compact(n).encode();
    assert_eq!(b.len(), 4);
    b.truncate(4);
    // a marker-form length below 2^30 is not canonical
    let short = [3u8, 5, 0, 0, 0, 0xaa, 0xbb, 0xcc, 0xdd, 0xee];
    assert_eq!(decode_bytes(&short), None);
    // a marker-form length of 2^30 is canonical, but the bytes are missing
    let mut big = vec![3u8];
    big.extend_from_slice(&(1u32 << 30).to_le_bytes());
    assert_eq!(big, Compact(1u32 << 30).encode());
    assert_eq!(decode_bytes(&big), None);
    // a marker byte with other high bits is refused
    assert_eq!(decode_bytes(&[7u8, 0, 0, 0, 0x40]), None);
}

use bdk_testenv::encode::{duplicate_bytes, encode_hex};
use bdk_testenv::errors::HarnessError;
use bdk_testenv::miner::parse_bits;

#[test]
fn parse_bits_reads_regtest_difficulty() {
    let bits = parse_bits(&b"207fffff".to_vec()).unwrap();
    assert_eq!(bits, 0x207fffff);
}

#[test]
fn parse_bits_reads_mainnet_genesis_difficulty() {
    let bits = parse_bits(&b"1d00ffff".to_vec()).unwrap();
    assert_eq!(bits, 0x1d00ffff);
}

#[test]
fn parse_bits_accepts_upper_case() {
    let bits = parse_bits(&b"1D00FFFF".to_vec()).unwrap();
    assert_eq!(bits, 0x1d00ffff);
}

#[test]
fn parse_bits_rejects_short_input() {
    let r = parse_bits(&b"207fff".to_vec());
    assert!(matches!(r, Err(HarnessError::ConsensusDecode)));
}

#[test]
fn parse_bits_rejects_stray_characters() {
    let r = parse_bits(&b"207ffffg".to_vec());
    assert!(matches!(r, Err(HarnessError::ConsensusDecode)));
    let r = parse_bits(&b"0x207fff".to_vec());
    assert!(matches!(r, Err(HarnessError::ConsensusDecode)));
}

#[test]
fn encode_hex_spells_bytes_in_lower_case() {
    let bytes = vec![0x00u8, 0x01, 0x9a, 0xff];
    let hex = encode_hex(&bytes);
    assert_eq!(hex, b"00019aff".to_vec());
}

#[test]
fn encode_hex_of_empty_is_empty() {
    assert_eq!(encode_hex(&Vec::new()), Vec::<u8>::new());
}

#[test]
fn duplicate_bytes_copies_exactly() {
    let v = vec![1u8, 2, 3, 255];
    assert_eq!(duplicate_bytes(&v), v);
}

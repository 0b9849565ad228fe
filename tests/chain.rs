use headers_chain::{
    double_sha256, header_from_hex, validate_chain, BlockHeader, ChainError, ChainState,
    ChainValidator, RunPhase,
};

const GENESIS_HEX: &str = "0100000000000000000000000000000000000000000000000000000000000000000000003ba3edfd7a7b12b27ac72c3e67768f617fc81bc3888a51323a9fb8aa4b1e5e4a29ab5f49ffff001d1dac2b7c";
const BLOCK1_HEX: &str = "010000006fe28c0ab6f1b372c1a6a246ae63f74f931e8365e15a089c68d6190000000000982051fd1e4ba744bbbe680e1fee14677ba1a3c3540bf7b1cdb606e857233e0e61bc6649ffff001d01e36299";
const GENESIS_BASELINE: [u8; 4] = [0x40, 0x53, 0x5f, 0x49];

/// The double hash of the genesis header, as stored (least significant byte first).
const GENESIS_HASH: [u8; 32] = [
    111, 226, 140, 10, 182, 241, 179, 114, 193, 166, 162, 70, 174, 99, 247, 79, 147, 30, 131, 101,
    225, 90, 8, 156, 104, 214, 25, 0, 0, 0, 0, 0,
];
const BLOCK1_HASH: [u8; 32] = [
    72, 96, 235, 24, 191, 27, 22, 32, 227, 126, 148, 144, 252, 138, 66, 117, 20, 65, 111, 215, 81,
    89, 171, 134, 104, 142, 154, 131, 0, 0, 0, 0,
];

fn genesis() -> Vec<u8> {
    header_from_hex(GENESIS_HEX).unwrap()
}

fn block1() -> Vec<u8> {
    header_from_hex(BLOCK1_HEX).unwrap()
}

/// A header with an easy target (almost any hash meets it) at the given time,
/// linked to `prev`.
fn easy_header(prev: &[u8; 32], time: u32, nonce: u32) -> Vec<u8> {
    let mut h = vec![0u8; 80];
    h[0] = 1;
    h[4..36].copy_from_slice(prev);
    h[68..72].copy_from_slice(&time.to_le_bytes());
    h[72..76].copy_from_slice(&[0xff, 0xff, 0xff, 0x20]);
    h[76..80].copy_from_slice(&nonce.to_le_bytes());
    h
}

/// A chain of easy headers at the given times, each linked to the one before.
fn easy_chain(times: &[u32]) -> Vec<Vec<u8>> {
    let mut prev = [0u8; 32];
    let mut out = Vec::new();
    for (i, t) in times.iter().enumerate() {
        let h = easy_header(&prev, *t, i as u32);
        prev = double_sha256(&h);
        out.push(h);
    }
    out
}

#[test]
fn hex_text_decodes_to_header_bytes() {
    let g = genesis();
    assert_eq!(g.len(), 80);
    assert_eq!(&g[0..4], &[1, 0, 0, 0]);
    assert_eq!(&g[68..72], &[0x29, 0xab, 0x5f, 0x49]);
    assert_eq!(&g[72..76], &[0xff, 0xff, 0x00, 0x1d]);
    assert_eq!(header_from_hex(&GENESIS_HEX.to_uppercase()).unwrap(), g);
}

#[test]
fn hex_text_of_wrong_length_or_digits_is_malformed() {
    assert_eq!(header_from_hex(&GENESIS_HEX[..158]), Err(ChainError::MalformedHeader));
    assert_eq!(header_from_hex(&GENESIS_HEX[..159]), Err(ChainError::MalformedHeader));
    let bad = format!("zz{}", &GENESIS_HEX[2..]);
    assert_eq!(header_from_hex(&bad), Err(ChainError::MalformedHeader));
    assert_eq!(header_from_hex(""), Err(ChainError::MalformedHeader));
}

#[test]
fn double_hash_of_genesis_header() {
    assert_eq!(double_sha256(&genesis()), GENESIS_HASH);
    assert_eq!(double_sha256(&block1()), BLOCK1_HASH);
}

#[test]
fn parse_cuts_header_into_fields() {
    let h = BlockHeader::parse(&block1()).unwrap();
    assert_eq!(h.version, [1, 0, 0, 0]);
    assert_eq!(h.prev_hash, GENESIS_HASH);
    assert_eq!(h.merkle_root[0], 0x98);
    assert_eq!(h.time, [0x61, 0xbc, 0x66, 0x49]);
    assert_eq!(h.bits, [0xff, 0xff, 0x00, 0x1d]);
    assert_eq!(h.nonce, [0x01, 0xe3, 0x62, 0x99]);
    assert_eq!(BlockHeader::parse(&block1()[..79]), Err(ChainError::MalformedHeader));
}

#[test]
fn single_genesis_header_commits_to_its_hash() {
    let r = validate_chain(&vec![genesis()], GENESIS_BASELINE);
    assert_eq!(r, Ok(Some(GENESIS_HASH)));
}

#[test]
fn zero_version_is_unsupported() {
    let mut g = genesis();
    g[0] = 0;
    let mut state = ChainState::genesis();
    assert_eq!(state.process_header(&g), Err(ChainError::UnsupportedVersion));
    assert_eq!(validate_chain(&vec![g], GENESIS_BASELINE), Err(ChainError::UnsupportedVersion));
}

#[test]
fn two_linked_headers_commit_to_second_hash() {
    let r = validate_chain(&vec![genesis(), block1()], GENESIS_BASELINE);
    assert_eq!(r, Ok(Some(BLOCK1_HASH)));
}

#[test]
fn second_header_linking_to_zero_breaks_chain() {
    let mut b1 = block1();
    for b in &mut b1[4..36] {
        *b = 0;
    }
    let mut state = ChainState::genesis();
    assert_eq!(state.process_header(&genesis()), Ok(GENESIS_HASH));
    assert_eq!(state.process_header(&b1), Err(ChainError::BrokenChain));
    assert_eq!(validate_chain(&vec![genesis(), b1], GENESIS_BASELINE), Err(ChainError::BrokenChain));
}

#[test]
fn first_header_with_nonzero_link_breaks_chain() {
    assert_eq!(validate_chain(&vec![block1()], GENESIS_BASELINE), Err(ChainError::BrokenChain));
    assert_eq!(
        validate_chain(&vec![block1(), genesis()], GENESIS_BASELINE),
        Err(ChainError::BrokenChain)
    );
}

#[test]
fn short_record_is_malformed_and_changes_nothing() {
    let g = genesis();
    let mut state = ChainState::genesis();
    assert_eq!(state.process_header(&g[..79]), Err(ChainError::MalformedHeader));
    // The state is still that of a fresh run: the genesis header is accepted.
    assert_eq!(state.process_header(&g), Ok(GENESIS_HASH));
}

#[test]
fn empty_sequence_commits_nothing() {
    assert_eq!(validate_chain(&Vec::new(), GENESIS_BASELINE), Ok(None));
}

#[test]
fn bad_difficulty_exponent_is_rejected() {
    let mut g = genesis();
    g[75] = 2;
    assert_eq!(
        validate_chain(&vec![g], GENESIS_BASELINE),
        Err(ChainError::InvalidDifficultyEncoding)
    );
}

#[test]
fn hash_above_target_is_insufficient_work() {
    let mut g = genesis();
    g[72..76].copy_from_slice(&[0x01, 0x00, 0x00, 0x03]);
    assert_eq!(validate_chain(&vec![g], GENESIS_BASELINE), Err(ChainError::InsufficientWork));
}

#[test]
fn time_before_baseline_is_not_monotonic() {
    let late = [0x00, 0x00, 0x00, 0x4a];
    assert_eq!(validate_chain(&vec![genesis()], late), Err(ChainError::TimeNotMonotonic));
}

#[test]
fn time_going_back_is_not_monotonic() {
    let chain = easy_chain(&[100, 99]);
    assert_eq!(validate_chain(&chain, [0, 0, 0, 0]), Err(ChainError::TimeNotMonotonic));
}

#[test]
fn time_beyond_twice_the_median_drifts() {
    let times: Vec<u32> = (100..111).collect();
    let mut ok = times.clone();
    ok.push(210);
    assert!(matches!(validate_chain(&easy_chain(&ok), [0, 0, 0, 0]), Ok(Some(_))));
    let mut bad = times.clone();
    bad.push(211);
    assert_eq!(validate_chain(&easy_chain(&bad), [0, 0, 0, 0]), Err(ChainError::ExcessiveTimeDrift));
}

#[test]
fn drift_is_not_checked_below_eleven_times() {
    let times: Vec<u32> = vec![1, 2, 3, 4, 5, 6, 7, 8, 9, 10, 1000];
    assert!(matches!(validate_chain(&easy_chain(&times), [0, 0, 0, 0]), Ok(Some(_))));
}

#[test]
fn validator_commits_after_the_expected_count() {
    let mut v = ChainValidator::new(2, GENESIS_BASELINE);
    assert!(matches!(v.phase(), RunPhase::Awaiting(2)));
    v.feed(&genesis());
    assert!(matches!(v.phase(), RunPhase::Awaiting(1)));
    v.feed(&block1());
    assert!(matches!(v.phase(), RunPhase::Committed(h) if h == BLOCK1_HASH));
}

#[test]
fn validator_fails_on_first_broken_rule() {
    let mut v = ChainValidator::new(3, GENESIS_BASELINE);
    v.feed(&genesis());
    v.feed(&genesis());
    assert!(matches!(v.phase(), RunPhase::Failed(ChainError::BrokenChain)));
}

#[test]
fn header_fields_read_as_numbers() {
    let h = BlockHeader::parse(&genesis()).unwrap();
    assert_eq!(h.version_number(), 1);
    assert_eq!(h.timestamp(), 1231006505);
    assert_eq!(h.difficulty_bits(), 0x1d00ffff);
    assert_eq!(h.nonce_number(), 2083236893);
}

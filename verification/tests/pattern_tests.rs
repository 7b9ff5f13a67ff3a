use flash_test::pattern::{PatternGenerator, ReadVerifier, BLOCK_SIZE, MISMATCH_LIMIT};

const FIRST_CHUNK: [u8; 64] = [
    0x5B, 0x05, 0x6A, 0x04, 0x4D, 0xB2, 0x2D, 0x72, 0x40, 0xDA, 0xE1, 0x6A, 0x34, 0x1C, 0x8B, 0x91,
    0x8D, 0xAC, 0x68, 0x2F, 0xBD, 0x67, 0xF6, 0xBD, 0x6D, 0x4B, 0xEC, 0x26, 0xFE, 0x3C, 0xBE, 0xB0,
    0xE6, 0x26, 0xE8, 0x12, 0xD5, 0x2F, 0x30, 0x6C, 0x50, 0x5F, 0x15, 0x83, 0x64, 0x39, 0x3A, 0xC3,
    0xB1, 0xAC, 0x7E, 0x33, 0xC4, 0xF1, 0x4B, 0xE7, 0x5E, 0xE0, 0x8B, 0xBF, 0xA6, 0xAC, 0x68, 0x50,
];

fn sum(bytes: &[u8]) -> u64 {
    bytes.iter().map(|&b| b as u64).sum()
}

#[test]
fn first_chunk_of_the_stream() {
    let mut g = PatternGenerator::new();
    let block = g.fill_block();
    assert_eq!(block.len(), BLOCK_SIZE);
    assert_eq!(&block[..64], &FIRST_CHUNK[..]);
}

#[test]
fn first_two_blocks_of_the_stream() {
    let mut g = PatternGenerator::new();
    let b0 = g.fill_block();
    let b1 = g.fill_block();
    assert_eq!(sum(&b0), 520800);
    assert_eq!(sum(&b1), 521174);
    assert_eq!(&b0[4080..], &[126, 97, 109, 28, 127, 225, 35, 20, 72, 190, 15, 141, 15, 247, 181, 164]);
    assert_eq!(&b1[..16], &[101, 168, 188, 250, 50, 90, 184, 250, 10, 127, 208, 124, 185, 206, 147, 18]);
}

#[test]
fn written_blocks_read_back_clean() {
    let mut g = PatternGenerator::new();
    let mut v = ReadVerifier::new();
    for _ in 0..4 {
        let block = g.fill_block();
        let report = v.verify_block(&block);
        assert!(report.mismatches.is_empty());
        assert!(!report.abort);
    }
    assert_eq!(v.reported_count(), 0);
}

#[test]
fn lane_with_every_byte_wrong_is_reported() {
    let mut g = PatternGenerator::new();
    let mut v = ReadVerifier::new();
    let good0 = g.fill_block();
    assert!(v.verify_block(&good0).mismatches.is_empty());
    let good1 = g.fill_block();
    let mut bad = good1.clone();
    for k in 0..16 {
        bad[16 * 5 + k] ^= 0xff;
    }
    let report = v.verify_block(&bad);
    assert!(!report.abort);
    assert_eq!(report.mismatches.len(), 1);
    let m = report.mismatches[0];
    assert_eq!(m.address, 4096 + 80);
    assert_eq!(&m.actual[..], &bad[80..96]);
    assert_eq!(&m.expected[..], &good1[80..96]);
    assert_eq!(v.reported_count(), 1);
}

#[test]
fn one_flipped_bit_is_reported() {
    let mut g = PatternGenerator::new();
    let mut v = ReadVerifier::new();
    let good0 = g.fill_block();
    assert!(v.verify_block(&good0).mismatches.is_empty());
    let good1 = g.fill_block();
    let mut bad = good1.clone();
    bad[1] ^= 0x01;
    let report = v.verify_block(&bad);
    assert!(!report.abort);
    assert_eq!(report.mismatches.len(), 1);
    let m = report.mismatches[0];
    assert_eq!(m.address, 0x1000);
    assert_eq!(&m.actual[..], &bad[0..16]);
    assert_eq!(&m.expected[..], &good1[0..16]);
    assert_eq!(m.actual[1] ^ m.expected[1], 0x01);
    assert_eq!(&m.actual[2..], &m.expected[2..]);
    assert!(m.describe().starts_with("[0x000000000000001000] ["));
}

#[test]
fn lanes_with_one_wrong_byte_each_reach_the_limit() {
    let mut g = PatternGenerator::new();
    let mut v = ReadVerifier::new();
    let mut total = 0usize;
    let mut aborted = false;
    let mut blocks = 0;
    while !aborted {
        let mut block = g.fill_block();
        for l in 0..256 {
            block[16 * l + 7] = block[16 * l + 7].wrapping_add(1);
        }
        let r = v.verify_block(&block);
        total += r.mismatches.len();
        aborted = r.abort;
        blocks += 1;
        assert!(blocks <= 2);
    }
    assert_eq!(blocks, 2);
    assert_eq!(total, 512);
}

#[test]
fn zeroed_drive_reports_lanes_in_order_and_gives_up_at_the_limit() {
    let mut v = ReadVerifier::new();
    let zeros = vec![0u8; BLOCK_SIZE];
    let mut g = PatternGenerator::new();
    let expected = g.fill_block();
    let first = v.verify_block(&zeros);
    let differing: Vec<usize> = (0..256).filter(|&l| (0..16).any(|k| expected[16 * l + k] != 0)).collect();
    assert_eq!(first.mismatches.len(), differing.len());
    for (m, &l) in first.mismatches.iter().zip(differing.iter()) {
        assert_eq!(m.address, 16 * l as u64);
    }
    let mut total = first.mismatches.len() as u32;
    let mut aborted = first.abort;
    let mut blocks = 1;
    while !aborted {
        let r = v.verify_block(&zeros);
        total += r.mismatches.len() as u32;
        aborted = r.abort;
        blocks += 1;
        assert!(blocks < 100);
    }
    assert_eq!(total, MISMATCH_LIMIT);
    assert_eq!(v.reported_count(), MISMATCH_LIMIT);
}

#[test]
fn inverted_blocks_hit_the_limit_in_the_second_block() {
    let mut g = PatternGenerator::new();
    let mut v = ReadVerifier::new();
    let b0: Vec<u8> = g.fill_block().iter().map(|b| !b).collect();
    let r0 = v.verify_block(&b0);
    assert_eq!(r0.mismatches.len(), 256);
    assert!(!r0.abort);
    let b1: Vec<u8> = g.fill_block().iter().map(|b| !b).collect();
    let r1 = v.verify_block(&b1);
    assert_eq!(r1.mismatches.len(), 256);
    assert!(r1.abort);
    assert_eq!(r1.mismatches[255].address, 4096 + 16 * 255);
}

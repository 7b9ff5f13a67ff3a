use flash_test::block::Block;

#[test]
fn bytes_are_little_endian_lanes() {
    let b = Block { lo: 0x0807060504030201, hi: 0x100f0e0d0c0b0a09 };
    assert_eq!(b.to_bytes(), [1, 2, 3, 4, 5, 6, 7, 8, 9, 10, 11, 12, 13, 14, 15, 16]);
    assert_eq!(Block::from_bytes(&b.to_bytes()), b);
}

#[test]
fn lanes_add_without_carry_between_them() {
    let a = Block { lo: u64::MAX, hi: 5 };
    let b = Block { lo: 1, hi: 7 };
    assert_eq!(a.add_lanes(b), Block { lo: 0, hi: 12 });
    let c = Block { lo: 3, hi: u64::MAX };
    assert_eq!(c.add_lanes(Block { lo: 4, hi: 2 }), Block { lo: 7, hi: 1 });
}

use flash_test::aes::{aes_decrypt_round, aes_encrypt_round};
use flash_test::block::Block;
use flash_test::gf::AesTables;

fn block(bytes: [u8; 16]) -> Block {
    Block::from_bytes(&bytes)
}

#[test]
fn encryption_round_of_the_standard_example() {
    let t = AesTables::new();
    let state = block([
        0x19, 0x3d, 0xe3, 0xbe, 0xa0, 0xf4, 0xe2, 0x2b, 0x9a, 0xc6, 0x8d, 0x2a, 0xe9, 0xf8, 0x48, 0x08,
    ]);
    let key = block([
        0xa0, 0xfa, 0xfe, 0x17, 0x88, 0x54, 0x2c, 0xb1, 0x23, 0xa3, 0x39, 0x39, 0x2a, 0x6c, 0x76, 0x05,
    ]);
    let r = aes_encrypt_round(&t, state, key);
    assert_eq!(
        r.to_bytes(),
        [0xa4, 0x9c, 0x7f, 0xf2, 0x68, 0x9f, 0x35, 0x2b, 0x6b, 0x5b, 0xea, 0x43, 0x02, 0x6a, 0x50, 0x49]
    );
}

#[test]
fn aesenc_register_example() {
    let t = AesTables::new();
    let state = Block { lo: 0x63746f725d53475d, hi: 0x7b5b546573745665 };
    let key = Block { lo: 0x5b477565726f6e5d, hi: 0x4869285368617929 };
    let r = aes_encrypt_round(&t, state, key);
    assert_eq!(r, Block { lo: 0x8b104b58ded7e595, hi: 0xa8311c2f9fdba3c5 });
}

#[test]
fn aesdec_register_example() {
    let t = AesTables::new();
    let state = Block { lo: 0x63746f725d53475d, hi: 0x7b5b546573745665 };
    let key = Block { lo: 0x5b477565726f6e5d, hi: 0x4869285368617929 };
    let r = aes_decrypt_round(&t, state, key);
    assert_eq!(r, Block { lo: 0xb58eb95eb730392a, hi: 0x138ac342faea2787 });
}

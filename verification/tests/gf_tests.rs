use flash_test::gf::{gf_mul_exec, gf_pow_exec, inv_sbox_exec, sbox_exec, xtime_exec, AesTables};

#[test]
fn xtime_repeated_doubling() {
    assert_eq!(xtime_exec(0x57), 0xae);
    assert_eq!(xtime_exec(0xae), 0x47);
    assert_eq!(xtime_exec(0x47), 0x8e);
    assert_eq!(xtime_exec(0x8e), 0x07);
}

#[test]
fn gf_mul_standard_examples() {
    assert_eq!(gf_mul_exec(0x57, 0x83), 0xc1);
    assert_eq!(gf_mul_exec(0x57, 0x13), 0xfe);
    assert_eq!(gf_mul_exec(0x57, 0x00), 0x00);
    assert_eq!(gf_mul_exec(0x57, 0x01), 0x57);
}

#[test]
fn gf_inverse_of_53() {
    assert_eq!(gf_pow_exec(0x53, 254), 0xca);
    assert_eq!(gf_mul_exec(0x53, 0xca), 0x01);
    assert_eq!(gf_pow_exec(0x00, 254), 0x00);
}

#[test]
fn sbox_known_entries() {
    assert_eq!(sbox_exec(0x00), 0x63);
    assert_eq!(sbox_exec(0x01), 0x7c);
    assert_eq!(sbox_exec(0x53), 0xed);
    assert_eq!(sbox_exec(0xff), 0x16);
}

#[test]
fn inv_sbox_known_entries() {
    assert_eq!(inv_sbox_exec(0x63), 0x00);
    assert_eq!(inv_sbox_exec(0x7c), 0x01);
    assert_eq!(inv_sbox_exec(0xed), 0x53);
    assert_eq!(inv_sbox_exec(0x16), 0xff);
}

#[test]
fn inv_sbox_undoes_sbox() {
    for x in 0..=255u8 {
        assert_eq!(inv_sbox_exec(sbox_exec(x)), x);
    }
}

#[test]
fn tables_agree_with_field_arithmetic() {
    let t = AesTables::new();
    for x in 0..=255u8 {
        assert_eq!(t.sub(x), sbox_exec(x));
        assert_eq!(t.inv_sub(x), inv_sbox_exec(x));
        for k in [2u8, 3, 9, 11, 13, 14] {
            assert_eq!(t.mul(x, k), gf_mul_exec(x, k));
        }
    }
}

use rust_shims::binary::{
    time_ticks, uuid_clear, uuid_compare, uuid_copy, uuid_generate, uuid_generate_random,
    uuid_generate_time, uuid_is_null, GREGORIAN_OFFSET,
};

#[test]
fn clear_gives_null() {
    let mut b = [0x5au8; 16];
    assert!(!uuid_is_null(&b));
    uuid_clear(&mut b);
    assert_eq!(b, [0u8; 16]);
    assert!(uuid_is_null(&b));
}

#[test]
fn is_null_sees_last_byte() {
    let mut b = [0u8; 16];
    b[15] = 1;
    assert!(!uuid_is_null(&b));
}

#[test]
fn compare_orders_by_first_differing_byte() {
    let a = [0u8; 16];
    let mut b = [0u8; 16];
    b[3] = 0x80;
    let mut c = b;
    c[15] = 1;
    assert_eq!(uuid_compare(&a, &a), 0);
    assert_eq!(uuid_compare(&a, &b), -1);
    assert_eq!(uuid_compare(&b, &a), 1);
    assert_eq!(uuid_compare(&b, &c), -1);
    assert_eq!(uuid_compare(&c, &b), 1);
    let mut d = [0xffu8; 16];
    d[0] = 0x7f;
    assert_eq!(uuid_compare(&d, &b), 1);
}

#[test]
fn copy_duplicates_bytes() {
    let src: [u8; 16] = core::array::from_fn(|i| i as u8 * 3);
    let mut dst = [0u8; 16];
    uuid_copy(&mut dst, &src);
    assert_eq!(dst, src);
}

#[test]
fn random_layout_sets_version_and_variant() {
    let mut out = [0u8; 16];
    uuid_generate_random(&mut out, &[0xffu8; 16]);
    let mut want = [0xffu8; 16];
    want[6] = 0x4f;
    want[8] = 0xbf;
    assert_eq!(out, want);
    uuid_generate_random(&mut out, &[0u8; 16]);
    let mut want = [0u8; 16];
    want[6] = 0x40;
    want[8] = 0x80;
    assert_eq!(out, want);
    assert_eq!(out[6] & 0xf0, 0x40);
    assert_eq!(out[8] & 0xc0, 0x80);
}

#[test]
fn generate_is_random_layout() {
    let random: [u8; 16] = core::array::from_fn(|i| (i as u8).wrapping_mul(29));
    let mut a = [0u8; 16];
    let mut b = [0u8; 16];
    uuid_generate(&mut a, &random);
    uuid_generate_random(&mut b, &random);
    assert_eq!(a, b);
}

#[test]
fn distinct_random_inputs_give_distinct_outputs() {
    let mut a = [0u8; 16];
    let mut b = [0u8; 16];
    let r1: [u8; 16] = core::array::from_fn(|i| i as u8);
    let mut r2 = r1;
    r2[15] ^= 0x01;
    uuid_generate_random(&mut a, &r1);
    uuid_generate_random(&mut b, &r2);
    assert_ne!(a, b);
}

#[test]
fn time_layout_spreads_ticks() {
    let mut out = [0u8; 16];
    let node = [0x10u8, 0x20, 0x30, 0x40, 0x50, 0x60];
    let seq = [0xffu8, 0x12];
    uuid_generate_time(&mut out, &node, &seq, 0x0123_4567_89ab_cdef);
    assert_eq!(
        out,
        [0x89, 0xab, 0xcd, 0xef, 0x45, 0x67, 0x11, 0x23, 0xbf, 0x12, 0x11, 0x20, 0x30, 0x40, 0x50, 0x60]
    );
    assert_eq!(out[6] & 0xf0, 0x10);
    assert_eq!(out[8] & 0xc0, 0x80);
    assert_eq!(out[10] & 0x01, 0x01);
}

#[test]
fn time_layout_keeps_set_node_bit() {
    let mut out = [0u8; 16];
    uuid_generate_time(&mut out, &[0xffu8; 6], &[0u8; 2], u64::MAX);
    assert_eq!(out, [0xff, 0xff, 0xff, 0xff, 0xff, 0xff, 0x1f, 0xff, 0x80, 0, 0xff, 0xff, 0xff, 0xff, 0xff, 0xff]);
}

#[test]
fn ticks_from_clock_reading() {
    assert_eq!(time_ticks(0, 0), Some(0x01B2_1DD2_1381_4000));
    assert_eq!(time_ticks(1, 250), Some(GREGORIAN_OFFSET + 10_000_002));
    assert_eq!(time_ticks(1_000, 999_999_999), Some(GREGORIAN_OFFSET + 10_000_000_000 + 9_999_999));
}

#[test]
fn ticks_overflow_is_none() {
    assert_eq!(time_ticks(u64::MAX, 0), None);
    let limit = (u64::MAX - GREGORIAN_OFFSET) / 10_000_000;
    assert!(time_ticks(limit, 0).is_some());
    assert_eq!(time_ticks(limit + 1, 0), None);
}

use vstd::prelude::*;

verus! {

/// The all-zero identifier, used as the "unset" sentinel.
pub open spec fn null_uuid() -> Seq<u8> {
    Seq::new(16, |i: int| 0u8)
}

/// Whether every byte of `b` is zero.
pub open spec fn is_null_spec(b: Seq<u8>) -> bool {
    forall|i: int| 0 <= i < b.len() ==> b[i] == 0
}

/// Sets all 16 bytes of `uu` to zero.
pub fn uuid_clear(uu: &mut [u8; 16])
    ensures
        final(uu)@ == null_uuid(),
{
    let mut i: usize = 0;
    while i < 16
        invariant
            0 <= i <= 16,
            forall|j: int| 0 <= j < i ==> uu@[j] == 0,
        decreases 16 - i,
    {
        uu[i] = 0;
        i = i + 1;
    }
    assert(uu@ =~= null_uuid());
}

/// Whether `uu` is the null identifier.
pub fn uuid_is_null(uu: &[u8; 16]) -> (r: bool)
    ensures
        r == is_null_spec(uu@),
{
    let mut i: usize = 0;
    let mut acc: u8 = 0;
    while i < 16
        invariant
            0 <= i <= 16,
            (acc == 0) == (forall|j: int| 0 <= j < i ==> uu@[j] == 0),
        decreases 16 - i,
    {
        let b = uu[i];
        assert((acc | b) == 0 <==> (acc == 0 && b == 0)) by (bit_vector);
        acc = acc | b;
        i = i + 1;
    }
    acc == 0
}

/// Sign of the lexicographic comparison of `a` and `b` from index `i` on:
/// that of the first differing byte, or 0 when none differs.
pub open spec fn compare_from(a: Seq<u8>, b: Seq<u8>, i: int) -> int
    decreases a.len() - i,
{
    if i < 0 || i >= a.len() || i >= b.len() {
        0
    } else if a[i] < b[i] {
        -1
    } else if a[i] > b[i] {
        1
    } else {
        compare_from(a, b, i + 1)
    }
}

/// Unsigned byte-wise lexicographic order of two identifiers.
pub open spec fn compare_spec(a: Seq<u8>, b: Seq<u8>) -> int {
    compare_from(a, b, 0)
}

/// Orders two identifiers byte by byte: -1, 0 or 1 as `uu1` is below,
/// equal to or above `uu2`.
pub fn uuid_compare(uu1: &[u8; 16], uu2: &[u8; 16]) -> (r: i32)
    ensures
        r as int == compare_spec(uu1@, uu2@),
{
    let mut i: usize = 0;
    while i < 16
        invariant
            0 <= i <= 16,
            compare_spec(uu1@, uu2@) == compare_from(uu1@, uu2@, i as int),
        decreases 16 - i,
    {
        let x = uu1[i];
        let y = uu2[i];
        if x < y {
            return -1;
        } else if x > y {
            return 1;
        }
        i = i + 1;
    }
    0
}

/// Copies the 16 bytes of `src` into `dst`.
pub fn uuid_copy(dst: &mut [u8; 16], src: &[u8; 16])
    ensures
        final(dst)@ == src@,
{
    *dst = *src;
}

/// Byte 6 with its high nibble set to the version `v`.
pub open spec fn with_version(byte6: u8, v: u8) -> u8 {
    (byte6 & 0x0F) | (v << 4u8)
}

/// Byte 8 with its top two bits set to the `10` variant.
pub open spec fn with_variant(byte8: u8) -> u8 {
    (byte8 & 0x3F) | 0x80
}

/// A random (version 4) identifier made from 16 random bytes.
pub open spec fn random_layout(random: Seq<u8>) -> Seq<u8> {
    random.update(6, with_version(random[6], 4)).update(8, with_variant(random[8]))
}

/// A time-based (version 1) identifier: the tick count spread over bytes
/// 0 to 7, the clock sequence in bytes 8 and 9, and the node, with its low
/// bit set, in bytes 10 to 15.
pub open spec fn time_layout(node: Seq<u8>, clock_seq: Seq<u8>, ticks: u64) -> Seq<u8> {
    seq![
        (ticks >> 24u64) as u8,
        (ticks >> 16u64) as u8,
        (ticks >> 8u64) as u8,
        ticks as u8,
        (ticks >> 40u64) as u8,
        (ticks >> 32u64) as u8,
        with_version((ticks >> 56u64) as u8, 1),
        (ticks >> 48u64) as u8,
        with_variant(clock_seq[0]),
        clock_seq[1],
        node[0] | 0x01,
        node[1],
        node[2],
        node[3],
        node[4],
        node[5],
    ]
}

/// Fills `out` with a random (version 4) identifier drawn from the 16
/// bytes `random`.
pub fn uuid_generate_random(out: &mut [u8; 16], random: &[u8; 16])
    ensures
        final(out)@ == random_layout(random@),
        final(out)[6] & 0xF0 == 0x40,
        final(out)[8] & 0xC0 == 0x80,
{
    *out = *random;
    let b6 = out[6];
    let b8 = out[8];
    out[6] = (b6 & 0x0F) | 0x40;
    out[8] = (b8 & 0x3F) | 0x80;
    assert((b6 & 0x0F) | 0x40 == (b6 & 0x0F) | (4u8 << 4u8)) by (bit_vector);
    assert(((b6 & 0x0F) | 0x40) & 0xF0 == 0x40) by (bit_vector);
    assert(((b8 & 0x3F) | 0x80) & 0xC0 == 0x80) by (bit_vector);
    assert(out@ =~= random_layout(random@));
}

/// The default generator: a random (version 4) identifier.
pub fn uuid_generate(out: &mut [u8; 16], random: &[u8; 16])
    ensures
        final(out)@ == random_layout(random@),
        final(out)[6] & 0xF0 == 0x40,
        final(out)[8] & 0xC0 == 0x80,
{
    uuid_generate_random(out, random);
}

/// Fills `out` with a time-based (version 1) identifier from a 6-byte
/// random node, a 2-byte random clock sequence and a tick count.
pub fn uuid_generate_time(out: &mut [u8; 16], node: &[u8; 6], clock_seq: &[u8; 2], ticks: u64)
    ensures
        final(out)@ == time_layout(node@, clock_seq@, ticks),
        final(out)[6] & 0xF0 == 0x10,
        final(out)[8] & 0xC0 == 0x80,
        final(out)[10] & 0x01 == 0x01,
{
    let mut i: usize = 0;
    while i < 6
        invariant
            0 <= i <= 6,
            forall|k: int| 0 <= k < i ==> out@[10 + k] == node@[k],
        decreases 6 - i,
    {
        out[10 + i] = node[i];
        i = i + 1;
    }
    out[10] = out[10] | 0x01;
    out[8] = clock_seq[0];
    out[9] = clock_seq[1];
    out[0] = (ticks >> 24) as u8;
    out[1] = (ticks >> 16) as u8;
    out[2] = (ticks >> 8) as u8;
    out[3] = ticks as u8;
    out[4] = (ticks >> 40) as u8;
    out[5] = (ticks >> 32) as u8;
    out[6] = (ticks >> 56) as u8;
    out[7] = (ticks >> 48) as u8;
    let b6 = out[6];
    let b8 = out[8];
    let b10 = out[10];
    out[6] = (b6 & 0x0F) | 0x10;
    out[8] = (b8 & 0x3F) | 0x80;
    assert((b6 & 0x0F) | 0x10 == (b6 & 0x0F) | (1u8 << 4u8)) by (bit_vector);
    assert(((b6 & 0x0F) | 0x10) & 0xF0 == 0x10) by (bit_vector);
    assert(((b8 & 0x3F) | 0x80) & 0xC0 == 0x80) by (bit_vector);
    let n0 = node[0];
    assert(b10 == n0 | 0x01);
    assert((n0 | 0x01) & 0x01 == 0x01) by (bit_vector);
    assert(out@ =~= time_layout(node@, clock_seq@, ticks));
}

/// 100-nanosecond intervals from the Gregorian epoch (1582-10-15) to the
/// Unix epoch.
pub const GREGORIAN_OFFSET: u64 = 0x01B21DD213814000;

/// The tick count of a clock reading: 100-nanosecond intervals since the
/// Gregorian epoch.
pub open spec fn ticks_spec(seconds: u64, nanoseconds: u64) -> int {
    seconds * 10_000_000 + nanoseconds / 100 + GREGORIAN_OFFSET
}

/// Converts a clock reading of `seconds` and `nanoseconds` to a tick
/// count; `None` when it does not fit in 64 bits.
pub fn time_ticks(seconds: u64, nanoseconds: u64) -> (r: Option<u64>)
    ensures
        r matches Some(t) ==> t as int == ticks_spec(seconds, nanoseconds),
        r is None <==> ticks_spec(seconds, nanoseconds) > u64::MAX,
{
    let scaled = seconds.checked_mul(10_000_000);
    match scaled {
        None => None,
        Some(s) => match s.checked_add(nanoseconds / 100) {
            None => None,
            Some(t) => t.checked_add(GREGORIAN_OFFSET),
        },
    }
}

/// A cleared identifier is the null identifier.
pub proof fn lemma_cleared_is_null()
    ensures
        is_null_spec(null_uuid()),
{
}

proof fn lemma_compare_from_reflexive(a: Seq<u8>, i: int)
    requires
        0 <= i <= a.len(),
    ensures
        compare_from(a, a, i) == 0,
    decreases a.len() - i,
{
    if i < a.len() {
        lemma_compare_from_reflexive(a, i + 1);
    }
}

proof fn lemma_compare_from_antisymmetric(a: Seq<u8>, b: Seq<u8>, i: int)
    requires
        0 <= i,
    ensures
        compare_from(a, b, i) == -compare_from(b, a, i),
    decreases a.len() - i,
{
    if i < a.len() && i < b.len() && a[i] == b[i] {
        lemma_compare_from_antisymmetric(a, b, i + 1);
    }
}

/// Every identifier compares equal to itself.
pub proof fn lemma_compare_reflexive(x: Seq<u8>)
    ensures
        compare_spec(x, x) == 0,
{
    lemma_compare_from_reflexive(x, 0);
}

/// Swapping the operands of a comparison negates its result.
pub proof fn lemma_compare_antisymmetric(a: Seq<u8>, b: Seq<u8>)
    ensures
        compare_spec(a, b) == -compare_spec(b, a),
{
    lemma_compare_from_antisymmetric(a, b, 0);
}

} // verus!

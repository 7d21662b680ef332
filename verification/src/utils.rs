//! Fixed-width big-endian byte conversions and small arithmetic helpers.

use vstd::prelude::*;

verus! {

use vstd::arithmetic::power2::pow2;

/// The big-endian bytes of a `u32`, as a specification-level sequence.
pub open spec fn spec_u32_be_bytes(n: u32) -> Seq<u8> {
    seq![
        ((n >> 24) & 0xFF) as u8,
        ((n >> 16) & 0xFF) as u8,
        ((n >> 8) & 0xFF) as u8,
        (n & 0xFF) as u8,
    ]
}

/// The big-endian bytes of a `u64`, as a specification-level sequence.
pub open spec fn spec_u64_be_bytes(n: u64) -> Seq<u8> {
    seq![
        ((n >> 56) & 0xFF) as u8,
        ((n >> 48) & 0xFF) as u8,
        ((n >> 40) & 0xFF) as u8,
        ((n >> 32) & 0xFF) as u8,
        ((n >> 24) & 0xFF) as u8,
        ((n >> 16) & 0xFF) as u8,
        ((n >> 8) & 0xFF) as u8,
        (n & 0xFF) as u8,
    ]
}

/// The unsigned integer denoted by a big-endian byte sequence.
pub open spec fn be_bytes_to_nat(s: Seq<u8>) -> nat
    decreases s.len(),
{
    if s.len() == 0 {
        0
    } else {
        (be_bytes_to_nat(s.drop_last()) * 256 + s.last()) as nat
    }
}

/// I convert a u32 into a 4 bytes array (bigendian)
pub fn u32_to_bigendian_u8array(n: u32) -> (r: [u8; 4])
    ensures
        r@ == spec_u32_be_bytes(n),
{
    let r: [u8; 4] = [
        ((n >> 24) & 0xFF) as u8,
        ((n >> 16) & 0xFF) as u8,
        ((n >> 8) & 0xFF) as u8,
        (n & 0xFF) as u8,
    ];
    assert(r@ =~= spec_u32_be_bytes(n));
    r
}

/// I convert a u64 into a 8 bytes array (bigendian)
pub fn u64_to_bigendian_u8array(n: u64) -> (r: [u8; 8])
    ensures
        r@ == spec_u64_be_bytes(n),
{
    let r: [u8; 8] = [
        ((n >> 56) & 0xFF) as u8,
        ((n >> 48) & 0xFF) as u8,
        ((n >> 40) & 0xFF) as u8,
        ((n >> 32) & 0xFF) as u8,
        ((n >> 24) & 0xFF) as u8,
        ((n >> 16) & 0xFF) as u8,
        ((n >> 8) & 0xFF) as u8,
        (n & 0xFF) as u8,
    ];
    assert(r@ =~= spec_u64_be_bytes(n));
    r
}

/// I convert a 16 byte array into a u128 (bigendian)
pub fn u8_bigendian_slice_to_u128(array: &[u8]) -> (n: u128)
    requires
        array@.len() >= 16,
    ensures
        n == (array@[0] as u128) << 120 | (array@[1] as u128) << 112
            | (array@[2] as u128) << 104 | (array@[3] as u128) << 96
            | (array@[4] as u128) << 88 | (array@[5] as u128) << 80
            | (array@[6] as u128) << 72 | (array@[7] as u128) << 64
            | (array@[8] as u128) << 56 | (array@[9] as u128) << 48
            | (array@[10] as u128) << 40 | (array@[11] as u128) << 32
            | (array@[12] as u128) << 24 | (array@[13] as u128) << 16
            | (array@[14] as u128) << 8 | (array@[15] as u128),
{
    (array[0] as u128) << 120
        | (array[1] as u128) << 112
        | (array[2] as u128) << 104
        | (array[3] as u128) << 96
        | (array[4] as u128) << 88
        | (array[5] as u128) << 80
        | (array[6] as u128) << 72
        | (array[7] as u128) << 64
        | (array[8] as u128) << 56
        | (array[9] as u128) << 48
        | (array[10] as u128) << 40
        | (array[11] as u128) << 32
        | (array[12] as u128) << 24
        | (array[13] as u128) << 16
        | (array[14] as u128) << 8
        | (array[15] as u128)
}

/// I convert a 8 byte array into a u64 (bigendian)
pub fn u8_bigendian_slice_to_u64(array: &[u8]) -> (n: u64)
    requires
        array@.len() >= 8,
    ensures
        n == (array@[0] as u64) << 56 | (array@[1] as u64) << 48 | (array@[2] as u64) << 40
            | (array@[3] as u64) << 32 | (array@[4] as u64) << 24 | (array@[5] as u64) << 16
            | (array@[6] as u64) << 8 | (array@[7] as u64),
{
    (array[0] as u64) << 56
        | (array[1] as u64) << 48
        | (array[2] as u64) << 40
        | (array[3] as u64) << 32
        | (array[4] as u64) << 24
        | (array[5] as u64) << 16
        | (array[6] as u64) << 8
        | (array[7] as u64)
}

/// I convert a 4 byte array into a u32 (bigendian)
pub fn u8_bigendian_slice_to_u32(array: &[u8]) -> (n: u32)
    requires
        array@.len() >= 4,
    ensures
        n == (array@[0] as u32) << 24 | (array@[1] as u32) << 16 | (array@[2] as u32) << 8
            | (array@[3] as u32),
{
    (array[0] as u32) << 24 | (array[1] as u32) << 16 | (array[2] as u32) << 8
        | (array[3] as u32)
}

/// I compute the minimum power of two that is greater or equal to the input;
/// zero is mapped to zero.
pub fn min_greater_equal_power_of_two(n: u32) -> (r: u32)
    requires
        n <= 0x8000_0000,
    ensures
        n == 0 ==> r == 0,
        n > 0 ==> n <= r < 2 * n,
        n > 0 ==> exists|k: nat| r == pow2(k),
{
    if n == 0 {
        return 0;
    }
    let mut r: u32 = 1;
    let ghost mut k: nat = 0;
    proof {
        vstd::arithmetic::power2::lemma2_to64();
    }
    while r < n
        invariant
            1 <= r,
            r == pow2(k),
            r < 2 * n,
            n <= 0x8000_0000,
        decreases 2 * n - r,
    {
        proof {
            vstd::arithmetic::power2::lemma_pow2_unfold((k + 1) as nat);
        }
        r = r * 2;
        proof {
            k = k + 1;
        }
    }
    r
}

/// Appends the bytes of `src` to `dst`.
pub fn vec_extend(dst: &mut Vec<u8>, src: &[u8])
    ensures
        final(dst)@ == old(dst)@ + src@,
{
    proof {
        assert(old(dst)@ + src@.take(0) =~= old(dst)@);
    }
    let mut i: usize = 0;
    while i < src.len()
        invariant
            i <= src@.len(),
            dst@ == old(dst)@ + src@.take(i as int),
        decreases src@.len() - i,
    {
        dst.push(src[i]);
        proof {
            assert(old(dst)@ + src@.take(i + 1) =~= (old(dst)@ + src@.take(i as int)).push(
                src@[i as int],
            ));
        }
        i = i + 1;
    }
    proof {
        assert(src@.take(src@.len() as int) =~= src@);
    }
}

/// 256 raised to the power `k`: the weight of the `k`-th byte position.
pub open spec fn pow256(k: nat) -> nat {
    vstd::arithmetic::power::pow(256, k) as nat
}

/// The `i`-th base-256 digit of `n`, counting from the least significant.
pub open spec fn byte_of(n: nat, i: nat) -> u8 {
    ((n / pow256(i)) % 256) as u8
}

/// The `k` least significant base-256 digits of `n`, least significant
/// first.
pub open spec fn le_bytes_of(n: nat, k: nat) -> Seq<u8> {
    Seq::new(k, |i: int| byte_of(n, i as nat))
}

/// The `k` least significant base-256 digits of `n`, most significant
/// first.
pub open spec fn be_bytes_of(n: nat, k: nat) -> Seq<u8> {
    Seq::new(k, |i: int| byte_of(n, (k - 1 - i) as nat))
}

/// The unsigned integer denoted by a little-endian byte sequence.
pub open spec fn le_bytes_to_nat(s: Seq<u8>) -> nat
    decreases s.len(),
{
    if s.len() == 0 {
        0
    } else {
        (s[0] + 256 * le_bytes_to_nat(s.subrange(1, s.len() as int))) as nat
    }
}

proof fn lemma_pow256_unfold(k: nat)
    requires
        k > 0,
    ensures
        pow256(k) == 256 * pow256((k - 1) as nat),
        pow256(k) > 0,
{
    reveal(vstd::arithmetic::power::pow);
    vstd::arithmetic::power::lemma_pow_positive(256, (k - 1) as nat);
}

/// Evaluates the weight of the 32nd byte position: 2^256.
pub proof fn lemma_pow256_32()
    ensures
        pow256(32)
            == 0x10000000000000000000000000000000000000000000000000000000000000000,
{
    vstd::arithmetic::power::lemma_pow_adds(256, 1, 1);
    vstd::arithmetic::power::lemma_pow1(256);
    assert(pow256(2) == 0x10000);
    vstd::arithmetic::power::lemma_pow_adds(256, 2, 2);
    assert(pow256(4) == 0x100000000);
    vstd::arithmetic::power::lemma_pow_adds(256, 4, 4);
    assert(pow256(8) == 0x10000000000000000);
    vstd::arithmetic::power::lemma_pow_adds(256, 8, 8);
    assert(pow256(16) == 0x100000000000000000000000000000000);
    vstd::arithmetic::power::lemma_pow_adds(256, 16, 16);
}

/// Shifting a value right by one digit shifts each digit's index down.
proof fn lemma_byte_of_shift(n: nat, i: nat)
    ensures
        byte_of(n, i + 1) == byte_of((n / 256) as nat, i),
{
    lemma_pow256_unfold(i + 1);
    vstd::arithmetic::power::lemma_pow_positive(256, i);
    vstd::arithmetic::div_mod::lemma_div_denominator(n as int, 256, pow256(i) as int);
}

/// The least significant digit is the remainder modulo 256.
proof fn lemma_byte_of_0(n: nat)
    ensures
        byte_of(n, 0) == n % 256,
{
    vstd::arithmetic::power::lemma_pow0(256);
    vstd::arithmetic::div_mod::lemma_div_basics(n as int);
}

/// Every value below the weight of position `k` is denoted by its own
/// `k` little-endian digits.
pub proof fn lemma_le_bytes_of_to_nat(n: nat, k: nat)
    requires
        n < pow256(k),
    ensures
        le_bytes_to_nat(le_bytes_of(n, k)) == n,
    decreases k,
{
    if k == 0 {
        vstd::arithmetic::power::lemma_pow0(256);
        assert(le_bytes_of(n, 0) =~= Seq::<u8>::empty());
    } else {
        lemma_pow256_unfold(k);
        let q = (n / 256) as nat;
        vstd::arithmetic::div_mod::lemma_multiply_divide_lt(n as int, 256, pow256((k - 1) as nat) as int);
        lemma_le_bytes_of_to_nat(q, (k - 1) as nat);
        let s = le_bytes_of(n, k);
        let t = s.subrange(1, k as int);
        assert forall|i: int| 0 <= i < k - 1 implies t[i] == le_bytes_of(q, (k - 1) as nat)[i] by {
            assert(t[i] == s[i + 1]);
            assert(s[i + 1] == byte_of(n, (i + 1) as nat));
            lemma_byte_of_shift(n, i as nat);
            assert((i + 1) as nat == i as nat + 1);
            assert(le_bytes_of(q, (k - 1) as nat)[i] == byte_of(q, i as nat));
        }
        assert(t =~= le_bytes_of(q, (k - 1) as nat));
        assert(le_bytes_to_nat(t) == q);
        lemma_byte_of_0(n);
        assert(s[0] == n % 256);
        assert(s.len() == k && k > 0);
        assert(le_bytes_to_nat(s) == (s[0] + 256 * le_bytes_to_nat(s.subrange(
            1,
            s.len() as int,
        ))) as nat);
        vstd::arithmetic::div_mod::lemma_fundamental_div_mod(n as int, 256);
        assert(le_bytes_to_nat(s) == n);
    }
}

/// Every byte sequence is the little-endian digit string of its own value.
pub proof fn lemma_le_bytes_to_nat_of(s: Seq<u8>)
    ensures
        le_bytes_to_nat(s) < pow256(s.len()),
        le_bytes_of(le_bytes_to_nat(s), s.len()) == s,
    decreases s.len(),
{
    let k = s.len();
    if k == 0 {
        vstd::arithmetic::power::lemma_pow0(256);
        assert(le_bytes_of(0, 0) =~= s);
    } else {
        let tail = s.subrange(1, k as int);
        lemma_le_bytes_to_nat_of(tail);
        let vt = le_bytes_to_nat(tail);
        let v = le_bytes_to_nat(s);
        lemma_pow256_unfold(k);
        assert(v == s[0] + 256 * vt);
        assert(v < pow256(k));
        vstd::arithmetic::div_mod::lemma_fundamental_div_mod_converse(
            v as int,
            256,
            vt as int,
            s[0] as int,
        );
        assert(v % 256 == s[0]);
        assert(v / 256 == vt);
        assert forall|i: int| 0 <= i < k implies le_bytes_of(v, k)[i] == s[i] by {
            if i == 0 {
                lemma_byte_of_0(v);
                assert(byte_of(v, 0) == s[0]);
            } else {
                lemma_byte_of_shift(v, (i - 1) as nat);
                assert(byte_of(vt, (i - 1) as nat) == tail[i - 1]);
            }
        }
        assert(le_bytes_of(v, k) =~= s);
    }
}

/// Every value below the weight of position `k` is denoted by its own
/// `k` big-endian digits.
pub proof fn lemma_be_bytes_of_to_nat(n: nat, k: nat)
    requires
        n < pow256(k),
    ensures
        be_bytes_to_nat(be_bytes_of(n, k)) == n,
    decreases k,
{
    if k == 0 {
        vstd::arithmetic::power::lemma_pow0(256);
        assert(be_bytes_of(n, 0) =~= Seq::<u8>::empty());
    } else {
        lemma_pow256_unfold(k);
        let q = (n / 256) as nat;
        vstd::arithmetic::div_mod::lemma_multiply_divide_lt(n as int, 256, pow256((k - 1) as nat) as int);
        lemma_be_bytes_of_to_nat(q, (k - 1) as nat);
        let s = be_bytes_of(n, k);
        let t = s.drop_last();
        assert forall|i: int| 0 <= i < k - 1 implies t[i] == be_bytes_of(q, (k - 1) as nat)[i] by {
            assert(t[i] == s[i]);
            assert(s[i] == byte_of(n, (k - 1 - i) as nat));
            lemma_byte_of_shift(n, (k - 2 - i) as nat);
            assert((k - 1 - i) as nat == (k - 2 - i) as nat + 1);
            assert(be_bytes_of(q, (k - 1) as nat)[i] == byte_of(q, (k - 2 - i) as nat));
        }
        assert(t =~= be_bytes_of(q, (k - 1) as nat));
        assert(be_bytes_to_nat(t) == q);
        lemma_byte_of_0(n);
        assert(s.last() == n % 256);
        assert(s.len() == k && k > 0);
        assert(be_bytes_to_nat(s) == (be_bytes_to_nat(s.drop_last()) * 256 + s.last()) as nat);
        vstd::arithmetic::div_mod::lemma_fundamental_div_mod(n as int, 256);
        assert(be_bytes_to_nat(s) == q * 256 + n % 256);
        assert(be_bytes_to_nat(s) == n);
    }
}

/// Every byte sequence is the big-endian digit string of its own value.
pub proof fn lemma_be_bytes_to_nat_of(s: Seq<u8>)
    ensures
        be_bytes_to_nat(s) < pow256(s.len()),
        be_bytes_of(be_bytes_to_nat(s), s.len()) == s,
    decreases s.len(),
{
    let k = s.len();
    if k == 0 {
        vstd::arithmetic::power::lemma_pow0(256);
        assert(be_bytes_of(0, 0) =~= s);
    } else {
        let head = s.drop_last();
        lemma_be_bytes_to_nat_of(head);
        let vh = be_bytes_to_nat(head);
        let v = be_bytes_to_nat(s);
        lemma_pow256_unfold(k);
        assert(v == vh * 256 + s.last());
        assert(v < pow256(k)) by {
            assert(vh * 256 + 256 <= pow256((k - 1) as nat) * 256) by (nonlinear_arith)
                requires
                    vh + 1 <= pow256((k - 1) as nat),
            ;
        }
        vstd::arithmetic::div_mod::lemma_fundamental_div_mod_converse(
            v as int,
            256,
            vh as int,
            s.last() as int,
        );
        assert(v % 256 == s.last());
        assert(v / 256 == vh);
        assert forall|i: int| 0 <= i < k implies be_bytes_of(v, k)[i] == s[i] by {
            if i == k - 1 {
                lemma_byte_of_0(v);
                assert(byte_of(v, 0) == s.last());
            } else {
                lemma_byte_of_shift(v, (k - 2 - i) as nat);
                assert(byte_of(vh, (k - 2 - i) as nat) == head[i]);
            }
        }
        assert(be_bytes_of(v, k) =~= s);
    }
}

/// I split a u64 into its low and high u32 halves.
pub fn u64_to_u32_pair(x: u64) -> (r: (u32, u32))
    ensures
        r.0 == x & 0xFFFF_FFFF,
        r.1 == x >> 32,
{
    assert(x & 0xFFFF_FFFF <= 0xFFFF_FFFF) by (bit_vector);
    assert(x >> 32 <= 0xFFFF_FFFF) by (bit_vector);
    ((x & 0xFFFF_FFFF) as u32, (x >> 32) as u32)
}

} // verus!

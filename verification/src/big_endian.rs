//! Byte strings read as numbers, most significant byte first.
//!
//! Stored values and call arguments are plain byte strings. A number is written with its
//! most significant byte first, unsigned or in two's complement. This module holds the
//! mathematical reading of such strings, the facts about it that the rest of the crate
//! relies on, and the few executable routines that work on raw bytes.
use vstd::prelude::*;

verus! {

/// 256 to the power of `n`.
pub open spec fn pow256(n: nat) -> nat
    decreases n,
{
    if n == 0 {
        1
    } else {
        256 * pow256((n - 1) as nat)
    }
}

/// The unsigned number that `bytes` spells, most significant byte first. The empty string
/// is zero.
pub open spec fn be_nat(bytes: Seq<u8>) -> nat
    decreases bytes.len(),
{
    if bytes.len() == 0 {
        0
    } else {
        be_nat(bytes.drop_last()) * 256 + bytes.last() as nat
    }
}

/// The signed number that `bytes` spells in two's complement, most significant byte
/// first. The empty string is zero.
pub open spec fn be_int(bytes: Seq<u8>) -> int {
    if bytes.len() > 0 && bytes[0] >= 128 {
        be_nat(bytes) - pow256(bytes.len())
    } else {
        be_nat(bytes) as int
    }
}

/// The last eight bytes of `bytes`, or all of it where it is shorter.
pub open spec fn low_eight(bytes: Seq<u8>) -> Seq<u8> {
    if bytes.len() <= 8 {
        bytes
    } else {
        bytes.subrange(bytes.len() - 8, bytes.len() as int)
    }
}

/// An unsigned byte string is minimal when it does not start with a zero byte.
pub open spec fn is_min_be(bytes: Seq<u8>) -> bool {
    bytes.len() == 0 || bytes[0] != 0
}

/// The minimal unsigned byte string for `n`: empty for zero.
pub open spec fn min_be(n: nat) -> Seq<u8>
    decreases n,
{
    if n == 0 {
        Seq::empty()
    } else {
        min_be(n / 256).push((n % 256) as u8)
    }
}

/// The number of zero bytes that `bytes` starts with.
pub open spec fn leading_zeros(bytes: Seq<u8>) -> nat
    decreases bytes.len(),
{
    if bytes.len() == 0 || bytes[0] != 0 {
        0
    } else {
        1 + leading_zeros(bytes.skip(1))
    }
}

/// `bytes` without its leading zero bytes.
pub open spec fn strip_zeros(bytes: Seq<u8>) -> Seq<u8> {
    bytes.skip(leading_zeros(bytes) as int)
}

/// The first byte of a two's complement string is redundant when dropping it leaves the
/// sign and the value as they were.
pub open spec fn has_redundant_sign_byte(bytes: Seq<u8>) -> bool {
    ||| bytes.len() >= 1 && bytes[0] == 0 && (bytes.len() == 1 || bytes[1] < 128)
    ||| bytes.len() >= 2 && bytes[0] == 255 && bytes[1] >= 128
}

/// A two's complement byte string is minimal when its first byte is not redundant.
pub open spec fn is_min_signed_be(bytes: Seq<u8>) -> bool {
    !has_redundant_sign_byte(bytes)
}

/// The number of redundant sign bytes that `bytes` starts with.
pub open spec fn redundant_sign_bytes(bytes: Seq<u8>) -> nat
    decreases bytes.len(),
{
    if has_redundant_sign_byte(bytes) {
        1 + redundant_sign_bytes(bytes.skip(1))
    } else {
        0
    }
}

/// `bytes` without its redundant sign bytes.
pub open spec fn strip_sign_bytes(bytes: Seq<u8>) -> Seq<u8> {
    bytes.skip(redundant_sign_bytes(bytes) as int)
}

/// `n` written on exactly `width` bytes, most significant byte first; what does not fit is
/// cut off at the top.
pub open spec fn be_fixed(n: nat, width: nat) -> Seq<u8>
    decreases width,
{
    if width == 0 {
        Seq::empty()
    } else {
        be_fixed(n / 256, (width - 1) as nat).push((n % 256) as u8)
    }
}

/// The two's complement byte string for `i` that has one byte at least and no redundant
/// sign byte before a second byte.
pub open spec fn signed_be(i: int) -> Seq<u8>
    decreases (if i >= 0 {
        i
    } else {
        -i
    }),
{
    if -128 <= i < 128 {
        seq![(i % 256) as u8]
    } else {
        signed_be(i / 256).push((i % 256) as u8)
    }
}

/// The minimal two's complement byte string for `i`: empty for zero.
pub open spec fn min_signed_be(i: int) -> Seq<u8> {
    if i == 0 {
        Seq::empty()
    } else {
        signed_be(i)
    }
}

pub proof fn lemma_pow256_positive(n: nat)
    ensures
        pow256(n) > 0,
    decreases n,
{
    if n > 0 {
        lemma_pow256_positive((n - 1) as nat);
    }
}

pub proof fn lemma_pow256_monotonic(a: nat, b: nat)
    requires
        a <= b,
    ensures
        pow256(a) <= pow256(b),
    decreases b,
{
    if a < b {
        lemma_pow256_monotonic(a, (b - 1) as nat);
        lemma_pow256_positive((b - 1) as nat);
    }
}

/// The powers of 256 that bound the machine integers.
pub proof fn lemma_pow256_values()
    ensures
        pow256(0) == 1,
        pow256(1) == 0x100,
        pow256(2) == 0x1_0000,
        pow256(3) == 0x100_0000,
        pow256(4) == 0x1_0000_0000,
        pow256(5) == 0x100_0000_0000,
        pow256(6) == 0x1_0000_0000_0000,
        pow256(7) == 0x100_0000_0000_0000,
        pow256(8) == 0x1_0000_0000_0000_0000,
{
    reveal_with_fuel(pow256, 10);
}

/// A string of `n` bytes spells a number below 256 to the `n`.
pub proof fn lemma_be_nat_bound(bytes: Seq<u8>)
    ensures
        be_nat(bytes) < pow256(bytes.len()),
    decreases bytes.len(),
{
    if bytes.len() > 0 {
        lemma_be_nat_bound(bytes.drop_last());
        let p = pow256((bytes.len() - 1) as nat);
        let hi = be_nat(bytes.drop_last());
        assert(hi * 256 + 255 < 256 * p) by (nonlinear_arith)
            requires
                hi < p,
        ;
    }
}

/// Reading two strings one after the other: the first is shifted by the length of the
/// second.
pub proof fn lemma_be_nat_concat(a: Seq<u8>, b: Seq<u8>)
    ensures
        be_nat(a + b) == be_nat(a) * pow256(b.len()) + be_nat(b),
    decreases b.len(),
{
    if b.len() == 0 {
        assert(a + b =~= a);
        assert(be_nat(a) * 1 == be_nat(a)) by (nonlinear_arith);
    } else {
        assert((a + b).drop_last() =~= a + b.drop_last());
        assert((a + b).last() == b.last());
        lemma_be_nat_concat(a, b.drop_last());
        let p = pow256((b.len() - 1) as nat);
        let x = be_nat(a);
        let y = be_nat(b.drop_last());
        assert((x * p + y) * 256 == x * (256 * p) + y * 256) by (nonlinear_arith);
    }
}

/// A single byte spells itself.
pub proof fn lemma_be_nat_single(b: u8)
    ensures
        be_nat(seq![b]) == b as nat,
{
    let s = seq![b];
    assert(s.drop_last() =~= Seq::<u8>::empty());
    assert(be_nat(s.drop_last()) == 0);
}

/// Splitting off the first byte.
pub proof fn lemma_be_nat_first(bytes: Seq<u8>)
    requires
        bytes.len() > 0,
    ensures
        be_nat(bytes) == bytes[0] as nat * pow256((bytes.len() - 1) as nat) + be_nat(
            bytes.skip(1),
        ),
{
    let head = seq![bytes[0]];
    assert(bytes =~= head + bytes.skip(1));
    lemma_be_nat_concat(head, bytes.skip(1));
    lemma_be_nat_single(bytes[0]);
}

/// Zero bytes in front change nothing.
pub proof fn lemma_strip_zeros(bytes: Seq<u8>)
    ensures
        be_nat(strip_zeros(bytes)) == be_nat(bytes),
        is_min_be(strip_zeros(bytes)),
        leading_zeros(bytes) <= bytes.len(),
    decreases bytes.len(),
{
    if bytes.len() == 0 || bytes[0] != 0 {
        assert(strip_zeros(bytes) =~= bytes);
    } else {
        let rest = bytes.skip(1);
        lemma_strip_zeros(rest);
        assert(strip_zeros(bytes) =~= strip_zeros(rest));
        lemma_be_nat_first(bytes);
        assert(0 * pow256((bytes.len() - 1) as nat) == 0) by (nonlinear_arith);
    }
}

/// A minimal string that is not empty spells a number of its full length.
pub proof fn lemma_min_be_lower_bound(bytes: Seq<u8>)
    requires
        is_min_be(bytes),
        bytes.len() > 0,
    ensures
        be_nat(bytes) >= pow256((bytes.len() - 1) as nat),
{
    lemma_be_nat_first(bytes);
    let p = pow256((bytes.len() - 1) as nat);
    let f = bytes[0] as nat;
    assert(f * p >= p) by (nonlinear_arith)
        requires
            f >= 1,
    ;
}

/// `min_be` writes the number it is given, without a zero byte in front.
pub proof fn lemma_min_be(n: nat)
    ensures
        be_nat(min_be(n)) == n,
        is_min_be(min_be(n)),
        n > 0 ==> min_be(n).len() > 0,
    decreases n,
{
    if n > 0 {
        lemma_min_be(n / 256);
        let hi = min_be(n / 256);
        let s = min_be(n);
        assert(s.drop_last() =~= hi);
        assert(s.last() == (n % 256) as u8);
        if n / 256 > 0 {
            assert(s[0] == hi[0]);
        } else {
            assert(hi.len() == 0);
            assert(s[0] == (n % 256) as u8);
        }
    }
}

/// A number has one minimal byte string only.
pub proof fn lemma_min_be_unique(bytes: Seq<u8>)
    requires
        is_min_be(bytes),
    ensures
        min_be(be_nat(bytes)) == bytes,
    decreases bytes.len(),
{
    if bytes.len() == 0 {
        assert(min_be(0) =~= bytes);
    } else {
        let hi = bytes.drop_last();
        let n = be_nat(bytes);
        assert(n == be_nat(hi) * 256 + bytes.last() as nat);
        assert(n / 256 == be_nat(hi) && n % 256 == bytes.last() as nat) by (nonlinear_arith)
            requires
                n == be_nat(hi) * 256 + bytes.last() as nat,
                (bytes.last() as nat) < 256,
        ;
        if hi.len() == 0 {
            assert(bytes[0] != 0);
            assert(be_nat(hi) == 0);
            assert(n == bytes[0] as nat);
            assert(min_be(0) =~= hi);
        } else {
            assert(hi[0] == bytes[0]);
            lemma_min_be_unique(hi);
            lemma_min_be_lower_bound(hi);
            lemma_pow256_positive((hi.len() - 1) as nat);
        }
        assert(n > 0);
        assert(min_be(n) =~= min_be(n / 256).push((n % 256) as u8));
        assert(min_be(n) =~= bytes);
    }
}

/// `be_fixed` has the width it is asked for, and spells its number as far as that fits.
pub proof fn lemma_be_fixed(n: nat, width: nat)
    ensures
        be_fixed(n, width).len() == width,
        be_nat(be_fixed(n, width)) == n % pow256(width),
    decreases width,
{
    if width == 0 {
        assert(n % 1 == 0);
    } else {
        let w = (width - 1) as nat;
        lemma_be_fixed(n / 256, w);
        let s = be_fixed(n, width);
        assert(s.drop_last() =~= be_fixed(n / 256, w));
        lemma_pow256_positive(w);
        let p = pow256(w);
        vstd::arithmetic::div_mod::lemma_breakdown(n as int, 256, p as int);
        assert(256 * ((n / 256) % p) == ((n / 256) % p) * 256) by (nonlinear_arith);
    }
}

/// Dropping a redundant sign byte leaves the signed value as it was.
pub proof fn lemma_redundant_sign_byte(bytes: Seq<u8>)
    requires
        has_redundant_sign_byte(bytes),
    ensures
        be_int(bytes.skip(1)) == be_int(bytes),
{
    lemma_be_nat_first(bytes);
    let rest = bytes.skip(1);
    let p = pow256((bytes.len() - 1) as nat);
    assert(pow256(bytes.len()) == 256 * p);
    if bytes[0] == 0 {
        assert(0 * p == 0) by (nonlinear_arith);
        if rest.len() > 0 {
            assert(rest[0] == bytes[1]);
        }
    } else {
        assert(rest[0] == bytes[1]);
        assert(255 * p - 256 * p == -p) by (nonlinear_arith);
    }
}

/// Redundant sign bytes in front change nothing.
pub proof fn lemma_strip_sign_bytes(bytes: Seq<u8>)
    ensures
        be_int(strip_sign_bytes(bytes)) == be_int(bytes),
        is_min_signed_be(strip_sign_bytes(bytes)),
        redundant_sign_bytes(bytes) <= bytes.len(),
    decreases bytes.len(),
{
    if has_redundant_sign_byte(bytes) {
        let rest = bytes.skip(1);
        lemma_strip_sign_bytes(rest);
        lemma_redundant_sign_byte(bytes);
        assert(strip_sign_bytes(bytes) =~= strip_sign_bytes(rest));
    } else {
        assert(strip_sign_bytes(bytes) =~= bytes);
    }
}

/// The range of a two's complement string of `n` bytes.
pub proof fn lemma_be_int_bound(bytes: Seq<u8>)
    requires
        bytes.len() > 0,
    ensures
        -(pow256(bytes.len()) / 2) <= be_int(bytes) < pow256(bytes.len()) / 2,
        pow256(bytes.len()) == 256 * pow256((bytes.len() - 1) as nat),
{
    lemma_be_nat_first(bytes);
    lemma_be_nat_bound(bytes.skip(1));
    let p = pow256((bytes.len() - 1) as nat);
    let f = bytes[0] as nat;
    let r = be_nat(bytes.skip(1));
    lemma_pow256_positive((bytes.len() - 1) as nat);
    assert((256 * p) / 2 == 128 * p) by (nonlinear_arith);
    if f >= 128 {
        assert(f * p + r - 256 * p >= -(128 * p) && f * p + r - 256 * p < 0) by (nonlinear_arith)
            requires
                128 <= f < 256,
                0 <= r < p,
        ;
    } else {
        assert(0 <= f * p + r < 128 * p) by (nonlinear_arith)
            requires
                0 <= f < 128,
                0 <= r < p,
        ;
    }
}

/// A minimal two's complement string of two bytes or more spells a number that needs
/// all of them: it lies outside the range of a string one byte shorter.
pub proof fn lemma_min_signed_needs_length(bytes: Seq<u8>)
    requires
        is_min_signed_be(bytes),
        bytes.len() >= 2,
    ensures
        be_int(bytes) >= pow256((bytes.len() - 1) as nat) / 2 || be_int(bytes) < -(pow256(
            (bytes.len() - 1) as nat,
        ) / 2),
{
    let n = bytes.len();
    let rest = bytes.skip(1);
    lemma_be_nat_first(bytes);
    lemma_be_nat_first(rest);
    assert(rest.skip(1) =~= bytes.skip(2));
    lemma_be_nat_bound(bytes.skip(2));
    let q = pow256((n - 2) as nat);
    let p = pow256((n - 1) as nat);
    assert(p == 256 * q);
    assert(pow256(n) == 256 * p);
    lemma_pow256_positive((n - 2) as nat);
    let f = bytes[0] as nat;
    let g = bytes[1] as nat;
    assert(rest[0] == bytes[1]);
    let r = be_nat(bytes.skip(2));
    assert(be_nat(bytes) == f * p + (g * q + r));
    assert((256 * q) / 2 == 128 * q) by (nonlinear_arith);
    if f >= 128 {
        // negative: either the first byte is not 255, or the second has no sign bit
        assert(f * (256 * q) + (g * q + r) - 256 * (256 * q) < -(128 * q)) by (nonlinear_arith)
            requires
                128 <= f < 256,
                0 <= g < 256,
                0 <= r < q,
                f < 255 || g < 128,
        ;
    } else {
        assert(f * (256 * q) + (g * q + r) >= 128 * q) by (nonlinear_arith)
            requires
                0 <= f < 128,
                0 <= g < 256,
                0 <= r < q,
                f > 0 || g >= 128,
        ;
    }
}

/// Splitting off the last byte of a two's complement string of two bytes or more.
pub proof fn lemma_be_int_last(bytes: Seq<u8>)
    requires
        bytes.len() >= 2,
    ensures
        be_int(bytes) == be_int(bytes.drop_last()) * 256 + bytes.last() as int,
{
    let d = bytes.drop_last();
    assert(d[0] == bytes[0]);
    let p = pow256(d.len());
    assert(pow256(bytes.len()) == 256 * p);
    assert((be_nat(d) - p) * 256 == be_nat(d) * 256 - 256 * p) by (nonlinear_arith);
}

/// `signed_be` writes the number it is given, on one byte at least and with no redundant
/// byte before a second one.
pub proof fn lemma_signed_be(i: int)
    ensures
        signed_be(i).len() >= 1,
        be_int(signed_be(i)) == i,
        signed_be(i).len() == 1 || !has_redundant_sign_byte(signed_be(i)),
    decreases (if i >= 0 {
        i
    } else {
        -i
    }),
{
    let s = signed_be(i);
    if -128 <= i < 128 {
        let b = (i % 256) as u8;
        assert(s =~= seq![b]);
        lemma_be_nat_single(b);
        reveal_with_fuel(pow256, 2);
    } else {
        let q = i / 256;
        let d = signed_be(q);
        lemma_signed_be(q);
        assert(s =~= d.push((i % 256) as u8));
        assert(s.drop_last() =~= d);
        assert(s.last() == (i % 256) as u8);
        lemma_be_int_last(s);
        assert(s[0] == d[0]);
        if d.len() >= 2 {
            assert(s[1] == d[1]);
        } else {
            assert(d =~= seq![d[0]]);
            lemma_be_nat_single(d[0]);
            reveal_with_fuel(pow256, 2);
            assert(s[1] == (i % 256) as u8);
        }
    }
}

/// `min_signed_be` writes the number it is given, with no redundant sign byte.
pub proof fn lemma_min_signed_be(i: int)
    ensures
        be_int(min_signed_be(i)) == i,
        is_min_signed_be(min_signed_be(i)),
{
    if i != 0 {
        lemma_signed_be(i);
        let s = signed_be(i);
        if s.len() == 1 {
            assert(s =~= seq![s[0]]);
            lemma_be_nat_single(s[0]);
            reveal_with_fuel(pow256, 2);
        }
    }
}

/// A number has one such byte string only.
pub proof fn lemma_signed_be_unique(bytes: Seq<u8>)
    requires
        bytes.len() >= 1,
        bytes.len() == 1 || !has_redundant_sign_byte(bytes),
    ensures
        signed_be(be_int(bytes)) == bytes,
    decreases bytes.len(),
{
    let v = be_int(bytes);
    if bytes.len() == 1 {
        assert(bytes =~= seq![bytes[0]]);
        lemma_be_nat_single(bytes[0]);
        reveal_with_fuel(pow256, 2);
        assert(signed_be(v) =~= bytes);
    } else {
        let d = bytes.drop_last();
        lemma_min_signed_needs_length(bytes);
        lemma_pow256_monotonic(1, (bytes.len() - 1) as nat);
        reveal_with_fuel(pow256, 2);
        assert(v >= 128 || v < -128);
        lemma_be_int_last(bytes);
        assert(d[0] == bytes[0]);
        if d.len() >= 2 {
            assert(d[1] == bytes[1]);
        }
        lemma_signed_be_unique(d);
        assert(v / 256 == be_int(d) && v % 256 == bytes.last() as int) by (nonlinear_arith)
            requires
                v == be_int(d) * 256 + bytes.last() as int,
                0 <= bytes.last() as int,
                (bytes.last() as int) < 256,
        ;
        assert(signed_be(v) =~= bytes);
    }
}

/// A signed number has one minimal byte string only.
pub proof fn lemma_min_signed_be_unique(bytes: Seq<u8>)
    requires
        is_min_signed_be(bytes),
    ensures
        min_signed_be(be_int(bytes)) == bytes,
{
    if bytes.len() == 0 {
        assert(bytes =~= Seq::<u8>::empty());
    } else {
        lemma_signed_be_unique(bytes);
        if bytes.len() == 1 {
            assert(bytes =~= seq![bytes[0]]);
            lemma_be_nat_single(bytes[0]);
            reveal_with_fuel(pow256, 2);
        } else {
            lemma_min_signed_needs_length(bytes);
            lemma_pow256_monotonic(1, (bytes.len() - 1) as nat);
            reveal_with_fuel(pow256, 2);
        }
    }
}

/// A number below 256 to the `width` has a minimal string of `width` bytes at most.
pub proof fn lemma_min_be_length(n: nat, width: nat)
    requires
        n < pow256(width),
    ensures
        min_be(n).len() <= width,
{
    lemma_min_be(n);
    if min_be(n).len() > 0 {
        lemma_min_be_lower_bound(min_be(n));
        if min_be(n).len() > width {
            lemma_pow256_monotonic(width, (min_be(n).len() - 1) as nat);
        }
    }
}

/// A number within the two's complement range of `width` bytes has a minimal string of
/// `width` bytes at most.
pub proof fn lemma_min_signed_be_length(i: int, width: nat)
    requires
        width >= 1,
        -(pow256(width) / 2) <= i < pow256(width) / 2,
    ensures
        min_signed_be(i).len() <= width,
{
    lemma_min_signed_be(i);
    let s = min_signed_be(i);
    if s.len() > width {
        lemma_min_signed_needs_length(s);
        lemma_pow256_monotonic(width, (s.len() - 1) as nat);
        lemma_pow256_positive(width);
        let small = pow256(width);
        let large = pow256((s.len() - 1) as nat);
        assert(small / 2 <= large / 2) by (nonlinear_arith)
            requires
                small <= large,
        ;
    }
}

/// The unsigned number that `bytes` spells, where it fits a `u64`.
pub open spec fn be_u64(bytes: Seq<u8>) -> Option<u64> {
    if be_nat(bytes) <= u64::MAX {
        Some(be_nat(bytes) as u64)
    } else {
        None
    }
}

/// The signed number that `bytes` spells, where it fits an `i64`.
pub open spec fn be_i64(bytes: Seq<u8>) -> Option<i64> {
    if i64::MIN <= be_int(bytes) <= i64::MAX {
        Some(be_int(bytes) as i64)
    } else {
        None
    }
}

/// Copies a slice into a vector of its own.
pub fn bytes_to_vec(bytes: &[u8]) -> (copy: Vec<u8>)
    ensures
        copy@ == bytes@,
{
    let mut copy: Vec<u8> = Vec::new();
    let mut i: usize = 0;
    while i < bytes.len()
        invariant
            i <= bytes.len(),
            copy@ == bytes@.subrange(0, i as int),
        decreases bytes.len() - i,
    {
        copy.push(bytes[i]);
        i += 1;
    }
    assert(bytes@.subrange(0, bytes@.len() as int) =~= bytes@);
    copy
}

/// Copies the part of a slice from `start` up to `end`.
pub fn copy_range(bytes: &[u8], start: usize, end: usize) -> (copy: Vec<u8>)
    requires
        start <= end <= bytes@.len(),
    ensures
        copy@ == bytes@.subrange(start as int, end as int),
{
    let mut copy: Vec<u8> = Vec::new();
    let mut i: usize = start;
    while i < end
        invariant
            start <= i <= end <= bytes@.len(),
            copy@ == bytes@.subrange(start as int, i as int),
        decreases end - i,
    {
        copy.push(bytes[i]);
        i += 1;
    }
    copy
}

/// The number of zero bytes in front of `bytes`.
pub fn count_leading_zeros(bytes: &[u8]) -> (count: usize)
    ensures
        count == leading_zeros(bytes@),
        count <= bytes@.len(),
{
    let mut i: usize = 0;
    assert(bytes@.skip(0) =~= bytes@);
    while i < bytes.len() && bytes[i] == 0
        invariant
            i <= bytes.len(),
            leading_zeros(bytes@) == i + leading_zeros(bytes@.skip(i as int)),
        decreases bytes.len() - i,
    {
        assert(bytes@.skip(i as int).skip(1) =~= bytes@.skip(i + 1));
        i += 1;
    }
    i
}

/// The number of redundant sign bytes in front of `bytes`.
pub fn count_redundant_sign_bytes(bytes: &[u8]) -> (count: usize)
    ensures
        count == redundant_sign_bytes(bytes@),
        count <= bytes@.len(),
{
    let mut i: usize = 0;
    assert(bytes@.skip(0) =~= bytes@);
    loop
        invariant
            i <= bytes.len(),
            redundant_sign_bytes(bytes@) == i + redundant_sign_bytes(bytes@.skip(i as int)),
        ensures
            i <= bytes.len(),
            redundant_sign_bytes(bytes@) == i,
        decreases bytes.len() - i,
    {
        let ghost rest = bytes@.skip(i as int);
        let redundant = if i >= bytes.len() {
            false
        } else if bytes[i] == 0 {
            i + 1 == bytes.len() || bytes[i + 1] < 128
        } else if bytes[i] == 255 {
            i + 1 < bytes.len() && bytes[i + 1] >= 128
        } else {
            false
        };
        assert(redundant == has_redundant_sign_byte(rest));
        if !redundant {
            break;
        }
        assert(rest.skip(1) =~= bytes@.skip(i + 1));
        i += 1;
    }
    i
}

/// Reads at most eight bytes as an unsigned number.
pub fn read_be_u64(bytes: &[u8]) -> (value: u64)
    requires
        bytes@.len() <= 8,
    ensures
        value == be_nat(bytes@),
{
    let mut value: u64 = 0;
    let mut i: usize = 0;
    while i < bytes.len()
        invariant
            i <= bytes.len() <= 8,
            value == be_nat(bytes@.subrange(0, i as int)),
        decreases bytes.len() - i,
    {
        let ghost done = bytes@.subrange(0, i as int);
        let ghost next = bytes@.subrange(0, i + 1);
        proof {
            assert(next.drop_last() =~= done);
            assert(next.last() == bytes@[i as int]);
            lemma_be_nat_bound(next);
            lemma_pow256_monotonic(next.len(), 8);
            lemma_pow256_values();
        }
        value = value * 256 + bytes[i] as u64;
        i += 1;
    }
    assert(bytes@.subrange(0, bytes@.len() as int) =~= bytes@);
    value
}

/// Reads between one and eight bytes as a two's complement number.
pub fn read_be_i64(bytes: &[u8]) -> (value: i64)
    requires
        1 <= bytes@.len() <= 8,
    ensures
        value == be_int(bytes@),
{
    let unsigned = read_be_u64(bytes);
    let len = bytes.len();
    proof {
        lemma_be_int_bound(bytes@);
        lemma_be_nat_bound(bytes@);
        lemma_pow256_monotonic(bytes@.len(), 8);
        lemma_pow256_values();
        reveal_with_fuel(pow256, 10);
    }
    if bytes[0] >= 128 {
        // subtract 256^len without leaving the range of i128
        let modulus: i128 = if len == 1 {
            0x100
        } else if len == 2 {
            0x1_0000
        } else if len == 3 {
            0x100_0000
        } else if len == 4 {
            0x1_0000_0000
        } else if len == 5 {
            0x100_0000_0000
        } else if len == 6 {
            0x1_0000_0000_0000
        } else if len == 7 {
            0x100_0000_0000_0000
        } else {
            0x1_0000_0000_0000_0000
        };
        assert(modulus == pow256(len as nat));
        let wide: i128 = unsigned as i128 - modulus;
        wide as i64
    } else {
        unsigned as i64
    }
}

/// Reads a byte string of any length as an unsigned machine integer, where the number
/// fits.
pub fn bytes_as_u64(bytes: &[u8]) -> (value: Option<u64>)
    ensures
        value == be_u64(bytes@),
{
    let zeros = count_leading_zeros(bytes);
    let significant = copy_range(bytes, zeros, bytes.len());
    proof {
        lemma_strip_zeros(bytes@);
        assert(significant@ =~= strip_zeros(bytes@));
        lemma_pow256_values();
    }
    if significant.len() <= 8 {
        proof {
            lemma_be_nat_bound(significant@);
            lemma_pow256_monotonic(significant@.len(), 8);
        }
        Some(read_be_u64(significant.as_slice()))
    } else {
        proof {
            lemma_min_be_lower_bound(significant@);
            lemma_pow256_monotonic(8, (significant@.len() - 1) as nat);
        }
        None
    }
}

/// Reads a byte string of any length as a signed machine integer, where the number fits.
pub fn bytes_as_i64(bytes: &[u8]) -> (value: Option<i64>)
    ensures
        value == be_i64(bytes@),
{
    let redundant = count_redundant_sign_bytes(bytes);
    let significant = copy_range(bytes, redundant, bytes.len());
    proof {
        lemma_strip_sign_bytes(bytes@);
        assert(significant@ =~= strip_sign_bytes(bytes@));
        lemma_pow256_values();
    }
    if significant.len() == 0 {
        Some(0)
    } else if significant.len() <= 8 {
        proof {
            lemma_be_int_bound(significant@);
            lemma_pow256_monotonic(significant@.len(), 8);
        }
        Some(read_be_i64(significant.as_slice()))
    } else {
        proof {
            lemma_min_signed_needs_length(significant@);
            lemma_pow256_monotonic(8, (significant@.len() - 1) as nat);
        }
        None
    }
}

} // verus!

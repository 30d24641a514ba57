//! Big-endian integer encoding and lexicographic byte order.
//!
//! The durable trees of the engine are keyed by byte strings: the queue
//! by `big-endian timestamp (8 bytes) || block id (32 bytes)` and the
//! error tree by the block id, with values that hold big-endian 64-bit
//! integers. This module gives the encoding an exact meaning and proves
//! the two facts the engine rests on: encoding round-trips, and the
//! lexicographic order of encoded keys is the numeric order.

use vstd::prelude::*;
use vstd::arithmetic::div_mod::{
    lemma_div_denominator, lemma_fundamental_div_mod, lemma_div_pos_is_pos,
    lemma_multiply_divide_lt, lemma_div_is_ordered,
};
use vstd::arithmetic::mul::lemma_mul_inequality;

verus! {

/// 256 to the power `k` (1 for `k <= 0`).
pub open spec fn pow256(k: int) -> int
    decreases k,
{
    if k <= 0 {
        1
    } else {
        256 * pow256(k - 1)
    }
}

pub proof fn lemma_pow256_pos(k: int)
    ensures
        pow256(k) >= 1,
    decreases k,
{
    if k > 0 {
        lemma_pow256_pos(k - 1);
    }
}

/// The `n`-byte big-endian encoding of `v` (most significant byte first).
pub open spec fn be_seq(v: int, n: nat) -> Seq<u8> {
    Seq::new(n, |i: int| ((v / pow256(n - 1 - i)) % 256) as u8)
}

/// The 8-byte big-endian encoding of a 64-bit integer.
pub open spec fn u64_be(x: u64) -> Seq<u8> {
    be_seq(x as int, 8)
}

/// The integer a big-endian byte string denotes.
pub open spec fn be_val(s: Seq<u8>) -> int
    decreases s.len(),
{
    if s.len() == 0 {
        0
    } else {
        be_val(s.drop_last()) * 256 + s.last()
    }
}

/// Strict lexicographic order on byte strings: a proper prefix comes first.
pub open spec fn lex_lt(a: Seq<u8>, b: Seq<u8>) -> bool
    decreases a.len(),
{
    if b.len() == 0 {
        false
    } else if a.len() == 0 {
        true
    } else {
        a[0] < b[0] || (a[0] == b[0] && lex_lt(a.skip(1), b.skip(1)))
    }
}

/// A big-endian encoding splits as its high part followed by its low byte.
pub proof fn lemma_be_seq_snoc(v: int, n: nat)
    requires
        v >= 0,
        n >= 1,
    ensures
        be_seq(v, n) == be_seq(v / 256, (n - 1) as nat).push((v % 256) as u8),
{
    let lhs = be_seq(v, n);
    let rhs = be_seq(v / 256, (n - 1) as nat).push((v % 256) as u8);
    assert forall|i: int| 0 <= i < n implies lhs[i] == rhs[i] by {
        lemma_pow256_pos(n - 2 - i);
        if i < n - 1 {
            lemma_div_denominator(v, 256, pow256(n - 2 - i));
            assert(pow256(n - 1 - i) == 256 * pow256(n - 2 - i));
        } else {
            assert(pow256(n - 1 - i) == 1);
        }
    }
    assert(lhs =~= rhs);
}

/// Decoding inverts encoding for any value the width can hold.
pub proof fn lemma_be_val_of_be_seq(v: int, n: nat)
    requires
        0 <= v < pow256(n as int),
    ensures
        be_val(be_seq(v, n)) == v,
    decreases n,
{
    if n == 0 {
        assert(be_seq(v, n) =~= Seq::<u8>::empty());
    } else {
        lemma_be_seq_snoc(v, n);
        let hi = be_seq(v / 256, (n - 1) as nat);
        assert(hi.push((v % 256) as u8).drop_last() =~= hi);
        lemma_pow256_pos(n - 1);
        lemma_div_pos_is_pos(v, 256);
        lemma_multiply_divide_lt(v, pow256(n - 1), 256);
        assert(pow256(n as int) == 256 * pow256(n - 1));
        lemma_be_val_of_be_seq(v / 256, (n - 1) as nat);
        lemma_fundamental_div_mod(v, 256);
    }
}

/// Two distinct values never share an encoding of the same width.
pub proof fn lemma_be_seq_injective(v1: int, v2: int, n: nat)
    requires
        0 <= v1 < pow256(n as int),
        0 <= v2 < pow256(n as int),
        be_seq(v1, n) == be_seq(v2, n),
    ensures
        v1 == v2,
{
    lemma_be_val_of_be_seq(v1, n);
    lemma_be_val_of_be_seq(v2, n);
}

/// Appending one byte to equal-length strings compares last.
pub proof fn lemma_lex_push(a: Seq<u8>, b: Seq<u8>, x: u8, y: u8)
    requires
        a.len() == b.len(),
    ensures
        lex_lt(a.push(x), b.push(y)) <==> (lex_lt(a, b) || (a == b && x < y)),
    decreases a.len(),
{
    if a.len() == 0 {
        reveal_with_fuel(lex_lt, 2);
        assert(a =~= b);
        assert(a.push(x)[0] == x);
        assert(b.push(y)[0] == y);
        assert(a.push(x).skip(1) =~= Seq::<u8>::empty());
        assert(b.push(y).skip(1) =~= Seq::<u8>::empty());
    } else {
        assert(a.push(x).skip(1) =~= a.skip(1).push(x));
        assert(b.push(y).skip(1) =~= b.skip(1).push(y));
        lemma_lex_push(a.skip(1), b.skip(1), x, y);
        if a[0] == b[0] && a.skip(1) == b.skip(1) {
            lemma_heads_tails_eq(a, b);
        }
        if a == b {
            assert(a.skip(1) =~= b.skip(1));
        }
    }
}

/// Concatenation after equal-length prefixes compares the prefixes first.
pub proof fn lemma_lex_concat(a1: Seq<u8>, a2: Seq<u8>, c1: Seq<u8>, c2: Seq<u8>)
    requires
        a1.len() == a2.len(),
    ensures
        lex_lt(a1 + c1, a2 + c2) <==> (lex_lt(a1, a2) || (a1 == a2 && lex_lt(c1, c2))),
    decreases a1.len(),
{
    if a1.len() == 0 {
        assert(a1 =~= a2);
        assert(a1 + c1 =~= c1);
        assert(a2 + c2 =~= c2);
    } else {
        assert((a1 + c1).skip(1) =~= a1.skip(1) + c1);
        assert((a2 + c2).skip(1) =~= a2.skip(1) + c2);
        assert((a1 + c1)[0] == a1[0]);
        assert((a2 + c2)[0] == a2[0]);
        lemma_lex_concat(a1.skip(1), a2.skip(1), c1, c2);
        if a1[0] == a2[0] && a1.skip(1) == a2.skip(1) {
            lemma_heads_tails_eq(a1, a2);
        }
        if a1 == a2 {
            assert(a1.skip(1) =~= a2.skip(1));
        }
    }
}

/// Strings of one length with equal heads and equal tails are equal.
pub proof fn lemma_heads_tails_eq(a: Seq<u8>, b: Seq<u8>)
    requires
        a.len() == b.len(),
        a.len() > 0,
        a[0] == b[0],
        a.skip(1) == b.skip(1),
    ensures
        a == b,
{
    assert forall|i: int| 0 <= i < a.len() implies a[i] == b[i] by {
        if i > 0 {
            assert(a.skip(1)[i - 1] == a[i]);
            assert(b.skip(1)[i - 1] == b[i]);
        }
    }
    assert(a =~= b);
}

/// Nothing is lexicographically below itself.
pub proof fn lemma_lex_irrefl(a: Seq<u8>)
    ensures
        !lex_lt(a, a),
    decreases a.len(),
{
    if a.len() > 0 {
        lemma_lex_irrefl(a.skip(1));
    }
}

/// Equal-length strings are totally ordered.
pub proof fn lemma_lex_total(a: Seq<u8>, b: Seq<u8>)
    requires
        a.len() == b.len(),
    ensures
        lex_lt(a, b) || lex_lt(b, a) || a == b,
    decreases a.len(),
{
    if a.len() == 0 {
        assert(a =~= b);
    } else {
        lemma_lex_total(a.skip(1), b.skip(1));
        if a[0] == b[0] && !lex_lt(a.skip(1), b.skip(1)) && !lex_lt(b.skip(1), a.skip(1)) {
            lemma_heads_tails_eq(a, b);
        }
    }
}

/// The lexicographic order is transitive on equal-length strings.
pub proof fn lemma_lex_trans(a: Seq<u8>, b: Seq<u8>, c: Seq<u8>)
    requires
        a.len() == b.len(),
        b.len() == c.len(),
        lex_lt(a, b),
        lex_lt(b, c),
    ensures
        lex_lt(a, c),
    decreases a.len(),
{
    if a.len() > 0 {
        if a[0] == b[0] && b[0] == c[0] {
            lemma_lex_trans(a.skip(1), b.skip(1), c.skip(1));
        }
    }
}

/// Byte order of equal-width big-endian encodings is numeric order.
pub proof fn lemma_be_seq_order(v1: int, v2: int, n: nat)
    requires
        0 <= v1 < pow256(n as int),
        0 <= v2 < pow256(n as int),
    ensures
        lex_lt(be_seq(v1, n), be_seq(v2, n)) <==> v1 < v2,
    decreases n,
{
    if n == 0 {
        assert(be_seq(v1, n) =~= Seq::<u8>::empty());
        assert(be_seq(v2, n) =~= Seq::<u8>::empty());
    } else {
        lemma_be_seq_snoc(v1, n);
        lemma_be_seq_snoc(v2, n);
        lemma_pow256_pos(n - 1);
        lemma_div_pos_is_pos(v1, 256);
        lemma_div_pos_is_pos(v2, 256);
        lemma_multiply_divide_lt(v1, pow256(n - 1), 256);
        lemma_multiply_divide_lt(v2, pow256(n - 1), 256);
        assert(pow256(n as int) == 256 * pow256(n - 1));
        lemma_lex_push(
            be_seq(v1 / 256, (n - 1) as nat),
            be_seq(v2 / 256, (n - 1) as nat),
            (v1 % 256) as u8,
            (v2 % 256) as u8,
        );
        lemma_be_seq_order(v1 / 256, v2 / 256, (n - 1) as nat);
        lemma_fundamental_div_mod(v1, 256);
        lemma_fundamental_div_mod(v2, 256);
        if be_seq(v1 / 256, (n - 1) as nat) == be_seq(v2 / 256, (n - 1) as nat) {
            lemma_be_seq_injective(v1 / 256, v2 / 256, (n - 1) as nat);
        }
        if v1 < v2 {
            lemma_div_is_ordered(v1, v2, 256);
        }
        if v2 < v1 {
            lemma_div_is_ordered(v2, v1, 256);
        }
    }
}

/// The concrete powers of 256 up to the width of a 64-bit value.
pub proof fn lemma_pow256_values()
    ensures
        pow256(0) == 1,
        pow256(1) == 256,
        pow256(2) == 0x1_0000,
        pow256(3) == 0x100_0000,
        pow256(4) == 0x1_0000_0000,
        pow256(5) == 0x100_0000_0000,
        pow256(6) == 0x1_0000_0000_0000,
        pow256(7) == 0x100_0000_0000_0000,
        pow256(8) == 0x1_0000_0000_0000_0000,
{
    assert(pow256(0) == 1);
    assert(pow256(1) == 256);
    assert(pow256(2) == 0x1_0000);
    assert(pow256(3) == 0x100_0000);
    assert(pow256(4) == 0x1_0000_0000);
    assert(pow256(5) == 0x100_0000_0000);
    assert(pow256(6) == 0x1_0000_0000_0000);
    assert(pow256(7) == 0x100_0000_0000_0000);
    assert(pow256(8) == 0x1_0000_0000_0000_0000);
}

/// Byte order of two 8-byte timestamps is their numeric order.
pub proof fn lemma_u64_be_order(x: u64, y: u64)
    ensures
        lex_lt(u64_be(x), u64_be(y)) <==> x < y,
        u64_be(x) == u64_be(y) ==> x == y,
        u64_be(x).len() == 8,
{
    lemma_pow256_values();
    lemma_be_seq_order(x as int, y as int, 8);
    if u64_be(x) == u64_be(y) {
        lemma_be_seq_injective(x as int, y as int, 8);
    }
}

/// Writes `x` as 8 big-endian bytes.
pub fn u64_to_be_bytes(x: u64) -> (r: Vec<u8>)
    ensures
        r@ == u64_be(x),
        r@.len() == 8,
{
    let mut r: Vec<u8> = Vec::new();
    r.push(((x / 0x100_0000_0000_0000u64) % 256) as u8);
    r.push(((x / 0x1_0000_0000_0000u64) % 256) as u8);
    r.push(((x / 0x100_0000_0000u64) % 256) as u8);
    r.push(((x / 0x1_0000_0000u64) % 256) as u8);
    r.push(((x / 0x100_0000u64) % 256) as u8);
    r.push(((x / 0x1_0000u64) % 256) as u8);
    r.push(((x / 256u64) % 256) as u8);
    r.push((x % 256) as u8);
    proof {
        lemma_pow256_values();
        assert forall|i: int| 0 <= i < 8 implies r@[i] == u64_be(x)[i] by {
            assert(u64_be(x)[i] == ((x as int / pow256(7 - i)) % 256) as u8);
        }
        assert(r@ =~= u64_be(x));
    }
    r
}

/// Reads the 8 big-endian bytes at `off` back into a 64-bit value.
pub fn u64_from_be_bytes(data: &Vec<u8>, off: usize) -> (r: u64)
    requires
        off + 8 <= data@.len(),
    ensures
        r as int == be_val(data@.subrange(off as int, off as int + 8)),
{
    let n = data.len();
    let mut v: u64 = 0;
    let mut i: usize = 0;
    proof {
        lemma_pow256_values();
        assert(data@.subrange(off as int, off as int) =~= Seq::<u8>::empty());
    }
    while i < 8
        invariant
            0 <= i <= 8,
            off + 8 <= n == data@.len(),
            v as int == be_val(data@.subrange(off as int, off as int + i)),
            v < pow256(i as int),
            pow256(8) == 0x1_0000_0000_0000_0000,
        decreases 8 - i,
    {
        let b = data[off + i];
        proof {
            lemma_pow256_pos(i as int);
            lemma_mul_inequality(v as int + 1, pow256(i as int), 256);
            assert(pow256(i as int + 1) == 256 * pow256(i as int));
            assert(pow256(i as int + 1) <= pow256(8)) by {
                lemma_pow256_mono(i as int + 1, 8);
            }
            let s1 = data@.subrange(off as int, off as int + i + 1);
            assert(s1.drop_last() =~= data@.subrange(off as int, off as int + i));
            assert(s1.last() == data@[off + i]);
        }
        v = v * 256 + (b as u64);
        i = i + 1;
    }
    v
}

/// A big-endian byte string denotes a value the width can hold.
pub proof fn lemma_be_val_bound(s: Seq<u8>)
    ensures
        0 <= be_val(s) < pow256(s.len() as int),
    decreases s.len(),
{
    if s.len() == 0 {
    } else {
        lemma_be_val_bound(s.drop_last());
        assert(pow256(s.len() as int) == 256 * pow256(s.len() - 1));
    }
}

/// Wider widths never shrink the power.
pub proof fn lemma_pow256_mono(j: int, k: int)
    requires
        j <= k,
    ensures
        pow256(j) <= pow256(k),
    decreases k - j,
{
    if j < k {
        lemma_pow256_mono(j, k - 1);
        lemma_pow256_pos(k - 1);
    }
}

} // verus!

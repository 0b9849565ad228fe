//! Byte buffers read as unsigned magnitudes, with the last index most
//! significant, and the comparisons the consensus rules make on them.
use vstd::prelude::*;

use crate::error::ChainError;

verus! {

/// `256` raised to the power `n`.
pub open spec fn pow256(n: nat) -> nat
    decreases n,
{
    if n == 0 {
        1
    } else {
        256 * pow256((n - 1) as nat)
    }
}

/// The unsigned number a buffer stands for: index 0 is the least significant
/// byte, the last index the most significant one.
pub open spec fn magnitude(s: Seq<u8>) -> nat
    decreases s.len(),
{
    if s.len() == 0 {
        0
    } else {
        magnitude(s.drop_last()) + pow256((s.len() - 1) as nat) * (s.last() as nat)
    }
}

/// Byte-wise comparison that starts at the most significant (last) index and
/// stops at the first difference.
pub open spec fn le_from_top(a: Seq<u8>, b: Seq<u8>) -> bool
    decreases a.len(),
{
    if a.len() == 0 || b.len() == 0 {
        true
    } else if a.last() == b.last() {
        le_from_top(a.drop_last(), b.drop_last())
    } else {
        a.last() < b.last()
    }
}

/// A buffer of `n` bytes stands for a number below `256^n`.
pub proof fn lemma_magnitude_bound(s: Seq<u8>)
    ensures
        magnitude(s) < pow256(s.len()),
    decreases s.len(),
{
    if s.len() > 0 {
        let d = s.drop_last();
        lemma_magnitude_bound(d);
        let p = pow256((s.len() - 1) as nat);
        let x = s.last() as nat;
        assert(p * x <= p * 255) by (nonlinear_arith)
            requires
                x <= 255,
        ;
    }
}

/// The byte-wise comparison from the top agrees with comparing the numbers.
pub proof fn lemma_le_from_top(a: Seq<u8>, b: Seq<u8>)
    requires
        a.len() == b.len(),
    ensures
        le_from_top(a, b) <==> magnitude(a) <= magnitude(b),
    decreases a.len(),
{
    if a.len() > 0 {
        let (da, db) = (a.drop_last(), b.drop_last());
        let p = pow256((a.len() - 1) as nat);
        let (x, y) = (a.last() as nat, b.last() as nat);
        lemma_le_from_top(da, db);
        lemma_magnitude_bound(da);
        lemma_magnitude_bound(db);
        if x < y {
            assert(p * x + p <= p * y) by (nonlinear_arith)
                requires
                    x < y,
            ;
        } else if y < x {
            assert(p * y + p <= p * x) by (nonlinear_arith)
                requires
                    y < x,
            ;
        }
    }
}

/// Two buffers of one length that stand for the same number are equal.
pub proof fn lemma_magnitude_injective(a: Seq<u8>, b: Seq<u8>)
    requires
        a.len() == b.len(),
        magnitude(a) == magnitude(b),
    ensures
        a == b,
    decreases a.len(),
{
    if a.len() > 0 {
        let (da, db) = (a.drop_last(), b.drop_last());
        let p = pow256((a.len() - 1) as nat);
        let (x, y) = (a.last() as nat, b.last() as nat);
        lemma_le_from_top(a, b);
        lemma_le_from_top(b, a);
        assert(x == y);
        lemma_magnitude_injective(da, db);
        assert(a =~= da.push(a.last()));
        assert(b =~= db.push(b.last()));
    }
}

/// The comparison of 32-byte buffers by magnitude is a total order: any two
/// are comparable, it is transitive, and two buffers that compare either way
/// are the same buffer.
pub proof fn lemma_magnitude_total_order(a: Seq<u8>, b: Seq<u8>, c: Seq<u8>)
    requires
        a.len() == 32,
        b.len() == 32,
        c.len() == 32,
    ensures
        magnitude(a) <= magnitude(b) || magnitude(b) <= magnitude(a),
        magnitude(a) <= magnitude(b) && magnitude(b) <= magnitude(c) ==> magnitude(a)
            <= magnitude(c),
        magnitude(a) <= magnitude(b) && magnitude(b) <= magnitude(a) ==> a == b,
        magnitude(a) <= magnitude(a),
{
    if magnitude(a) == magnitude(b) {
        lemma_magnitude_injective(a, b);
    }
}

/// `256^(a + b) == 256^a * 256^b`.
pub proof fn lemma_pow256_add(a: nat, b: nat)
    ensures
        pow256(a + b) == pow256(a) * pow256(b),
    decreases b,
{
    if b == 0 {
        assert(pow256(0) == 1);
        assert(a + b == a);
    } else {
        lemma_pow256_add(a, (b - 1) as nat);
        let (pa, pb1) = (pow256(a), pow256((b - 1) as nat));
        assert(pow256(a + b) == 256 * pow256((a + b - 1) as nat));
        assert(pow256(b) == 256 * pb1);
        assert(256 * (pa * pb1) == pa * (256 * pb1)) by (nonlinear_arith);
    }
}

/// Appending bytes adds their magnitude, shifted past the bytes before them.
pub proof fn lemma_magnitude_concat(a: Seq<u8>, b: Seq<u8>)
    ensures
        magnitude(a + b) == magnitude(a) + pow256(a.len()) * magnitude(b),
    decreases b.len(),
{
    if b.len() == 0 {
        assert(a + b =~= a);
        assert(magnitude(b) == 0);
        assert(pow256(a.len()) * 0 == 0);
    } else {
        let db = b.drop_last();
        assert((a + b).drop_last() =~= a + db);
        assert((a + b).last() == b.last());
        lemma_magnitude_concat(a, db);
        lemma_pow256_add(a.len(), (b.len() - 1) as nat);
        let (pa, pb, mdb, x) = (
            pow256(a.len()),
            pow256((b.len() - 1) as nat),
            magnitude(db),
            b.last() as nat,
        );
        assert(pow256((a.len() + b.len() - 1) as nat) == pa * pb);
        assert(magnitude(b) == mdb + pb * x);
        assert(magnitude(a + b) == magnitude(a + db) + pow256((a.len() + b.len() - 1) as nat) * x);
        assert(pa * mdb + (pa * pb) * x == pa * (mdb + pb * x)) by (nonlinear_arith);
    }
}

/// A buffer of zero bytes stands for zero.
pub proof fn lemma_magnitude_zeros(s: Seq<u8>)
    requires
        forall|i: int| 0 <= i < s.len() ==> s[i] == 0,
    ensures
        magnitude(s) == 0,
    decreases s.len(),
{
    if s.len() > 0 {
        lemma_magnitude_zeros(s.drop_last());
    }
}

/// A 4-byte buffer stands for its bytes weighted by the powers of 256.
pub proof fn lemma_magnitude_4(s: Seq<u8>)
    requires
        s.len() == 4,
    ensures
        magnitude(s) == s[0] as nat + 256 * (s[1] as nat) + 65536 * (s[2] as nat) + 16777216 * (
        s[3] as nat),
{
    let s3 = s.drop_last();
    let s2 = s3.drop_last();
    let s1 = s2.drop_last();
    let s0 = s1.drop_last();
    assert(magnitude(s0) == 0);
    assert(magnitude(s1) == magnitude(s0) + pow256(0) * (s[0] as nat));
    assert(magnitude(s2) == magnitude(s1) + pow256(1) * (s[1] as nat));
    assert(magnitude(s3) == magnitude(s2) + pow256(2) * (s[2] as nat));
    assert(magnitude(s) == magnitude(s3) + pow256(3) * (s[3] as nat));
    assert(pow256(0) == 1);
    assert(pow256(1) == 256);
    assert(pow256(2) == 65536);
    assert(pow256(3) == 16777216);
    let (b0, b1, b2, b3) = (s[0] as nat, s[1] as nat, s[2] as nat, s[3] as nat);
    assert(pow256(0) * b0 == b0);
    assert(magnitude(s1) == b0);
    assert(magnitude(s2) == b0 + 256 * b1);
    assert(magnitude(s3) == b0 + 256 * b1 + 65536 * b2);
}

/// The number that a 4-byte little-endian field stands for.
pub fn u32_from_le(s: &[u8; 4]) -> (r: u32)
    ensures
        r == magnitude(s@),
{
    proof {
        lemma_magnitude_4(s@);
    }
    s[0] as u32 + 256 * (s[1] as u32) + 65536 * (s[2] as u32) + 16777216 * (s[3] as u32)
}

/// Whether `magnitude(a) <= magnitude(b)`, deciding from the most significant
/// byte down.
fn le_bytes(a: &[u8], b: &[u8]) -> (r: bool)
    requires
        a@.len() == b@.len(),
    ensures
        r == (magnitude(a@) <= magnitude(b@)),
{
    proof {
        lemma_le_from_top(a@, b@);
        assert(a@.subrange(0, a@.len() as int) =~= a@);
        assert(b@.subrange(0, b@.len() as int) =~= b@);
    }
    let mut i: usize = a.len();
    while i > 0
        invariant
            i <= a@.len(),
            a@.len() == b@.len(),
            le_from_top(a@, b@) == (magnitude(a@) <= magnitude(b@)),
            le_from_top(a@, b@) == le_from_top(a@.subrange(0, i as int), b@.subrange(0, i as int)),
        decreases i,
    {
        let index = i - 1;
        if a[index] != b[index] {
            assert(a@.subrange(0, i as int).last() == a@[index as int]);
            assert(b@.subrange(0, i as int).last() == b@[index as int]);
            assert(le_from_top(a@.subrange(0, i as int), b@.subrange(0, i as int)) == (a@[index as int]
                < b@[index as int]));
            return a[index] < b[index];
        }
        assert(a@.subrange(0, i as int).drop_last() =~= a@.subrange(0, index as int));
        assert(b@.subrange(0, i as int).drop_last() =~= b@.subrange(0, index as int));
        i = index;
    }
    true
}

/// Holds an earlier timestamp to a later one: both are 4-byte little-endian
/// values, and `later` must not be smaller.
pub fn assert_le_32(earlier: [u8; 4], later: &[u8]) -> (r: Result<(), ChainError>)
    requires
        later@.len() == 4,
    ensures
        r == if magnitude(earlier@) <= magnitude(later@) {
            Ok(())
        } else {
            Err(ChainError::TimeNotMonotonic)
        },
{
    if le_bytes(&earlier, later) {
        Ok(())
    } else {
        Err(ChainError::TimeNotMonotonic)
    }
}

/// Holds a header's version field to the accepted version bytes.
pub fn assert_eq_32(version: [u8; 4], header_version: &[u8]) -> (r: Result<(), ChainError>)
    requires
        header_version@.len() == 4,
    ensures
        r == if header_version@ == version@ {
            Ok(())
        } else {
            Err(ChainError::UnsupportedVersion)
        },
{
    if bytes_equal(&version, header_version) {
        Ok(())
    } else {
        Err(ChainError::UnsupportedVersion)
    }
}

/// Holds a header's double hash to its target: both are 32-byte little-endian
/// magnitudes, and a hash equal to the target is accepted.
pub fn assert_le_256(block_header_hash: &[u8], target: [u8; 32]) -> (r: Result<(), ChainError>)
    requires
        block_header_hash@.len() == 32,
    ensures
        r == if magnitude(block_header_hash@) <= magnitude(target@) {
            Ok(())
        } else {
            Err(ChainError::InsufficientWork)
        },
{
    if le_bytes(block_header_hash, &target) {
        Ok(())
    } else {
        Err(ChainError::InsufficientWork)
    }
}

/// Holds a header's previous-hash field to the hash that the chain expects.
pub fn assert_eq_256(hash_prev_block: [u8; 32], header_hash_prev_block: &[u8]) -> (r: Result<
    (),
    ChainError,
>)
    requires
        header_hash_prev_block@.len() == 32,
    ensures
        r == if header_hash_prev_block@ == hash_prev_block@ {
            Ok(())
        } else {
            Err(ChainError::BrokenChain)
        },
{
    if bytes_equal(&hash_prev_block, header_hash_prev_block) {
        Ok(())
    } else {
        Err(ChainError::BrokenChain)
    }
}

/// Whether two buffers hold the same bytes.
fn bytes_equal(a: &[u8], b: &[u8]) -> (r: bool)
    ensures
        r == (a@ == b@),
{
    if a.len() != b.len() {
        return false;
    }
    let mut i: usize = 0;
    while i < a.len()
        invariant
            i <= a@.len(),
            a@.len() == b@.len(),
            a@.subrange(0, i as int) == b@.subrange(0, i as int),
        decreases a@.len() - i,
    {
        if a[i] != b[i] {
            return false;
        }
        assert(a@.subrange(0, i + 1) =~= a@.subrange(0, i as int).push(a@[i as int]));
        assert(b@.subrange(0, i + 1) =~= b@.subrange(0, i as int).push(b@[i as int]));
        i = i + 1;
    }
    assert(a@ =~= a@.subrange(0, i as int));
    assert(b@ =~= b@.subrange(0, i as int));
    true
}

} // verus!

//! Reading ABI words: big-endian values of byte strings, and the
//! conversions of a 32-byte word to the integer types that events carry.

use vstd::prelude::*;

verus! {

/// The value of `s` read as a big-endian unsigned integer.
pub open spec fn be_value(s: Seq<u8>) -> nat
    decreases s.len(),
{
    if s.len() == 0 {
        0
    } else {
        be_value(s.drop_last()) * 256 + s.last() as nat
    }
}

/// `256^n`.
pub open spec fn pow256(n: nat) -> nat
    decreases n,
{
    if n == 0 {
        1
    } else {
        256 * pow256((n - 1) as nat)
    }
}

pub proof fn lemma_pow256_positive(n: nat)
    ensures
        pow256(n) >= 1,
    decreases n,
{
    if n > 0 {
        lemma_pow256_positive((n - 1) as nat);
    }
}

/// The big-endian value of a concatenation.
pub proof fn lemma_be_value_concat(a: Seq<u8>, b: Seq<u8>)
    ensures
        be_value(a + b) == be_value(a) * pow256(b.len()) + be_value(b),
    decreases b.len(),
{
    if b.len() == 0 {
        assert(a + b =~= a);
        assert(pow256(0) == 1);
    } else {
        assert((a + b).drop_last() =~= a + b.drop_last());
        assert((a + b).last() == b.last());
        lemma_be_value_concat(a, b.drop_last());
        let x = be_value(a);
        let p = pow256(b.drop_last().len());
        let y = be_value(b.drop_last());
        let c = b.last() as nat;
        assert(pow256(b.len()) == 256 * p);
        assert((x * p + y) * 256 + c == x * (256 * p) + (y * 256 + c)) by (nonlinear_arith);
    }
}

/// A byte string is worth less than `256^len`.
pub proof fn lemma_be_value_bound(s: Seq<u8>)
    ensures
        be_value(s) < pow256(s.len()),
    decreases s.len(),
{
    if s.len() > 0 {
        lemma_be_value_bound(s.drop_last());
        let v = be_value(s.drop_last());
        let p = pow256(s.drop_last().len());
        assert(v * 256 + s.last() < 256 * p) by (nonlinear_arith)
            requires
                v < p,
                s.last() < 256,
        ;
    }
}

/// Bytes that are all zero are worth zero.
pub proof fn lemma_be_value_zeros(s: Seq<u8>)
    requires
        forall|i: int| 0 <= i < s.len() ==> s[i] == 0,
    ensures
        be_value(s) == 0,
    decreases s.len(),
{
    if s.len() > 0 {
        lemma_be_value_zeros(s.drop_last());
    }
}

/// A byte string with a non-zero byte is worth at least `256^k`, where `k`
/// is the number of bytes after it.
pub proof fn lemma_be_value_nonzero(s: Seq<u8>, i: int)
    requires
        0 <= i < s.len(),
        s[i] != 0,
    ensures
        be_value(s) >= pow256((s.len() - i - 1) as nat),
{
    let a = s.subrange(0, i + 1);
    let b = s.subrange(i + 1, s.len() as int);
    assert(s =~= a + b);
    lemma_be_value_concat(a, b);
    assert(a.drop_last() =~= s.subrange(0, i));
    assert(be_value(a) >= 1);
    lemma_pow256_positive(b.len());
    assert(be_value(a) * pow256(b.len()) >= pow256(b.len())) by (nonlinear_arith)
        requires
            be_value(a) >= 1,
    ;
}

/// `u64::MAX + 1`, as a power of 256.
pub proof fn lemma_pow256_8()
    ensures
        pow256(8) == 0x1_0000_0000_0000_0000,
        pow256(16) == 0x1_0000_0000_0000_0000_0000_0000_0000_0000,
        pow256(4) == 0x1_0000_0000,
{
    reveal_with_fuel(pow256, 17);
}

/// The big-endian value of `bytes[start..start + len]`, for `len <= 16`.
pub fn be_u128(bytes: &[u8], start: usize, len: usize) -> (r: u128)
    requires
        len <= 16,
        start + len <= bytes@.len(),
    ensures
        r == be_value(bytes@.subrange(start as int, start + len)),
{
    let mut r: u128 = 0;
    let mut i: usize = 0;
    let total = bytes.len();
    proof {
        lemma_pow256_8();
    }
    while i < len
        invariant
            i <= len <= 16,
            total == bytes@.len(),
            start + len <= bytes@.len(),
            pow256(16) == 0x1_0000_0000_0000_0000_0000_0000_0000_0000,
            r == be_value(bytes@.subrange(start as int, start + i)),
        decreases len - i,
    {
        let ghost prefix = bytes@.subrange(start as int, start + i);
        let ghost next = bytes@.subrange(start as int, start + i + 1);
        proof {
            assert(next.drop_last() =~= prefix);
            lemma_be_value_bound(next);
            lemma_pow256_monotone(next.len(), 16);
        }
        r = r * 256 + bytes[start + i] as u128;
        i = i + 1;
    }
    r
}

pub proof fn lemma_pow256_monotone(a: nat, b: nat)
    requires
        a <= b,
    ensures
        pow256(a) <= pow256(b),
    decreases b,
{
    if a < b {
        lemma_pow256_monotone(a, (b - 1) as nat);
        lemma_pow256_positive((b - 1) as nat);
    }
}

/// The value of a 32-byte word, capped at `u64::MAX`: what `saturating_to::<u64>`
/// gives for a `uint256`.
pub open spec fn saturating_u64(word: Seq<u8>) -> u64 {
    if be_value(word) > u64::MAX {
        u64::MAX
    } else {
        be_value(word) as u64
    }
}

/// The value of a 32-byte word, capped at `u128::MAX`: what
/// `saturating_to::<u128>` gives for a `uint256`.
pub open spec fn saturating_u128(word: Seq<u8>) -> u128 {
    if be_value(word) > u128::MAX {
        u128::MAX
    } else {
        be_value(word) as u128
    }
}

/// Whether `bytes[start..end]` are all zero.
fn all_zero(bytes: &[u8], start: usize, end: usize) -> (r: bool)
    requires
        start <= end <= bytes@.len(),
    ensures
        r == forall|i: int| start <= i < end ==> #[trigger] bytes@[i] == 0,
{
    let mut i = start;
    while i < end
        invariant
            start <= i <= end <= bytes@.len(),
            forall|k: int| start <= k < i ==> #[trigger] bytes@[k] == 0,
        decreases end - i,
    {
        if bytes[i] != 0 {
            return false;
        }
        i = i + 1;
    }
    true
}

/// The word `bytes[start..start + 32]` read as a `uint256` and capped to a
/// `u64` (or a `u128` when `wide`), as `saturating_to` does.
fn saturating_word(bytes: &[u8], start: usize, keep: usize) -> (r: Option<u128>)
    requires
        keep == 8 || keep == 16,
        start + 32 <= bytes@.len(),
    ensures
        r is None <==> be_value(bytes@.subrange(start as int, start + 32)) >= pow256(keep as nat),
        r matches Some(v) ==> v == be_value(bytes@.subrange(start as int, start + 32)),
{
    let total = bytes.len();
    let ghost word = bytes@.subrange(start as int, start + 32);
    let head = 32 - keep;
    let ghost low = bytes@.subrange(start + head, start + 32);
    proof {
        let high = bytes@.subrange(start as int, start + head);
        assert(word =~= high + low);
        lemma_be_value_concat(high, low);
        lemma_be_value_bound(low);
        assert(low.len() == keep);
    }
    if all_zero(bytes, start, start + head) {
        proof {
            let high = bytes@.subrange(start as int, start + head);
            assert forall|i: int| 0 <= i < high.len() implies high[i] == 0 by {
                assert(high[i] == bytes@[start + i]);
            }
            lemma_be_value_zeros(high);
            assert(be_value(high) == 0);
            assert(be_value(word) == be_value(high) * pow256(low.len()) + be_value(low));
            assert(be_value(word) == be_value(low));
            assert(be_value(word) < pow256(keep as nat));
        }
        let v = be_u128(bytes, start + head, keep);
        assert(bytes@.subrange((start + head) as int, start + head + keep) =~= low);
        Some(v)
    } else {
        proof {
            let high = bytes@.subrange(start as int, start + head);
            let i = choose|i: int| start <= i < start + head && bytes@[i] != 0;
            assert(high[i - start] != 0);
            lemma_be_value_nonzero(high, i - start);
            lemma_pow256_positive((head - (i - start) - 1) as nat);
            let hv = be_value(high);
            assert(hv >= 1);
            lemma_pow256_positive(keep as nat);
            assert(hv * pow256(keep as nat) >= pow256(keep as nat)) by (nonlinear_arith)
                requires
                    hv >= 1,
            ;
            assert(be_value(word) == hv * pow256(keep as nat) + be_value(low));
            assert(be_value(word) >= pow256(keep as nat));
        }
        None
    }
}

/// The `uint256` word `bytes[start..start + 32]` converted to `u64`, capped
/// at `u64::MAX`.
pub fn word_saturating_u64(bytes: &[u8], start: usize) -> (r: u64)
    requires
        start + 32 <= bytes@.len(),
    ensures
        r == saturating_u64(bytes@.subrange(start as int, start + 32)),
{
    proof {
        lemma_pow256_8();
    }
    match saturating_word(bytes, start, 8) {
        Some(v) => v as u64,
        None => u64::MAX,
    }
}

/// The `uint256` word `bytes[start..start + 32]` converted to `u128`, capped
/// at `u128::MAX`.
pub fn word_saturating_u128(bytes: &[u8], start: usize) -> (r: u128)
    requires
        start + 32 <= bytes@.len(),
    ensures
        r == saturating_u128(bytes@.subrange(start as int, start + 32)),
{
    proof {
        lemma_pow256_8();
    }
    match saturating_word(bytes, start, 16) {
        Some(v) => v,
        None => u128::MAX,
    }
}

/// The `uint32` of the word `bytes[start..start + 32]`: its low four bytes,
/// as a non-validating ABI decoder reads it.
pub fn word_u32(bytes: &[u8], start: usize) -> (r: u32)
    requires
        start + 32 <= bytes@.len(),
    ensures
        r == be_value(bytes@.subrange(start + 28, start + 32)),
{
    proof {
        lemma_pow256_8();
        lemma_be_value_bound(bytes@.subrange(start + 28, start + 32));
    }
    let total = bytes.len();
    be_u128(bytes, start + 28, 4) as u32
}

} // verus!

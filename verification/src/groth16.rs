//! Groth16 proofs over BN254 and their encoding as the `bytes _proof`
//! argument of the Tornado Cash `withdraw` call.

use crate::abi::{be_value, lemma_be_value_concat, pow256};
use vstd::prelude::*;
use vstd::string::StringSliceAdditionalSpecFns;

verus! {

/// A 256-bit unsigned integer, as four 64-bit limbs, least significant first.
#[derive(Clone, Copy, Debug)]
pub struct U256 {
    pub limbs: [u64; 4],
}

/// A point of G1 in affine coordinates.
#[derive(Clone, Copy, Debug)]
pub struct G1Affine {
    pub x: U256,
    pub y: U256,
}

/// A point of G2 in affine coordinates; each coordinate has two parts.
#[derive(Clone, Copy, Debug)]
pub struct G2Affine {
    pub x: [U256; 2],
    pub y: [U256; 2],
}

/// A Groth16 proof.
#[derive(Clone, Copy, Debug)]
pub struct Proof {
    pub a: G1Affine,
    pub b: G2Affine,
    pub c: G1Affine,
}

/// `2^64`.
pub open spec fn limb_base() -> nat {
    0x1_0000_0000_0000_0000
}

impl U256 {
    /// The value of the integer.
    pub open spec fn value(self) -> nat {
        self.limbs[0] as nat + limb_base() * (self.limbs[1] as nat + limb_base() * (self.limbs[2] as nat
            + limb_base() * self.limbs[3] as nat))
    }

    /// The integer `v`.
    pub fn from_u128(v: u128) -> (r: U256)
        ensures
            r.value() == v,
    {
        let lo = (v & 0xffff_ffff_ffff_ffff) as u64;
        let hi = (v >> 64u128) as u64;
        assert(v == (v & 0xffff_ffff_ffff_ffff) + (v >> 64u128) * 0x1_0000_0000_0000_0000) by (bit_vector);
        assert(v >> 64u128 <= 0xffff_ffff_ffff_ffff) by (bit_vector);
        assert(v & 0xffff_ffff_ffff_ffff <= 0xffff_ffff_ffff_ffff) by (bit_vector);
        U256 { limbs: [lo, hi, 0, 0] }
    }

    /// Zero.
    pub fn zero() -> (r: U256)
        ensures
            r.value() == 0,
    {
        U256 { limbs: [0, 0, 0, 0] }
    }

    /// The integer with the limbs `limbs`, least significant first.
    pub fn from_limbs(limbs: [u64; 4]) -> (r: U256)
        ensures
            r.limbs == limbs,
    {
        U256 { limbs }
    }
}

/// One step of long division by ten: the limb `limb` after the remainder
/// `rem` of the limbs above it.
fn div10_step(rem: u64, limb: u64) -> (r: (u64, u64))
    requires
        rem < 10,
    ensures
        r.1 < 10,
        r.0 as nat * 10 + r.1 as nat == rem as nat * limb_base() + limb as nat,
{
    let cur: u128 = (rem as u128) * 0x1_0000_0000_0000_0000u128 + (limb as u128);
    let q: u128 = cur / 10;
    let m: u128 = cur % 10;
    assert(q < 0x1_0000_0000_0000_0000) by (nonlinear_arith)
        requires
            cur == rem as int * 0x1_0000_0000_0000_0000 + limb as int,
            rem < 10,
            limb < 0x1_0000_0000_0000_0000,
            q == cur / 10,
    ;
    assert(limb_base() == 0x1_0000_0000_0000_0000);
    ((q as u64), (m as u64))
}

impl U256 {
    /// Whether the value is below ten.
    fn is_below_ten(&self) -> (r: bool)
        ensures
            r == (self.value() < 10),
    {
        proof {
            let b = limb_base();
            let v1 = self.limbs[1] as nat + b * (self.limbs[2] as nat + b * self.limbs[3] as nat);
            assert(self.value() == self.limbs[0] as nat + b * v1);
            if v1 > 0 {
                assert(b * v1 >= b) by (nonlinear_arith)
                    requires
                        v1 >= 1,
                ;
            }
            if self.limbs[1] == 0 && self.limbs[2] == 0 && self.limbs[3] == 0 {
                assert(b * (self.limbs[2] as nat + b * self.limbs[3] as nat) == 0);
                assert(v1 == 0);
            } else {
                assert(v1 >= 1) by (nonlinear_arith)
                    requires
                        v1 == self.limbs[1] as nat + b * (self.limbs[2] as nat + b * self.limbs[3] as nat),
                        self.limbs[1] != 0 || self.limbs[2] != 0 || self.limbs[3] != 0,
                        b > 0,
                ;
            }
        }
        self.limbs[1] == 0 && self.limbs[2] == 0 && self.limbs[3] == 0 && self.limbs[0] < 10
    }

    /// The quotient and the remainder of the value divided by ten.
    fn div_rem_10(&self) -> (r: (U256, u64))
        ensures
            r.1 < 10,
            r.0.value() * 10 + r.1 == self.value(),
    {
        let (q3, r3) = div10_step(0, self.limbs[3]);
        let (q2, r2) = div10_step(r3, self.limbs[2]);
        let (q1, r1) = div10_step(r2, self.limbs[1]);
        let (q0, r0) = div10_step(r1, self.limbs[0]);
        let q = U256 { limbs: [q0, q1, q2, q3] };
        proof {
            let b = limb_base();
            let l0 = self.limbs[0] as int;
            let l1 = self.limbs[1] as int;
            let l2 = self.limbs[2] as int;
            let l3 = self.limbs[3] as int;
            assert(q.value() * 10 + r0 == self.value()) by (nonlinear_arith)
                requires
                    q3 * 10 + r3 == l3,
                    q2 * 10 + r2 == r3 * b + l2,
                    q1 * 10 + r1 == r2 * b + l1,
                    q0 * 10 + r0 == r1 * b + l0,
                    q.value() == q0 + b * (q1 + b * (q2 + b * q3)),
                    self.value() == l0 + b * (l1 + b * (l2 + b * l3)),
            ;
        }
        (q, r0)
    }
}

/// Appends the decimal digits of the value of `x` to `s`.
pub fn push_decimal_u256(s: &mut String, x: &U256)
    ensures
        final(s)@ == old(s)@ + crate::decimal::decimal_digits(x.value()),
    decreases x.value(),
{
    let (q, d) = x.div_rem_10();
    if !x.is_below_ten() {
        push_decimal_u256(s, &q);
    }
    crate::decimal::push_digit(s, d as u8);
    proof {
        if x.value() < 10 {
            assert(q.value() == 0);
        }
        assert(x.value() / 10 == q.value() && x.value() % 10 == d as nat) by (nonlinear_arith)
            requires
                q.value() * 10 + d == x.value(),
                d < 10,
        ;
    }
    assert(final(s)@ =~= old(s)@ + crate::decimal::decimal_digits(x.value()));
}

/// The decimal text of the value of `x`, as its `Display` writes it.
pub fn u256_to_decimal(x: &U256) -> (s: String)
    ensures
        s@ == crate::decimal::decimal_digits(x.value()),
{
    let mut s = String::new();
    push_decimal_u256(&mut s, x);
    assert(s@ =~= crate::decimal::decimal_digits(x.value()));
    s
}

/// `2^256`.
pub open spec fn u256_bound() -> nat {
    limb_base() * limb_base() * limb_base() * limb_base()
}

/// Whether every byte of `s` is an ASCII decimal digit or `_`.
pub open spec fn all_digits_or_underscores(s: Seq<u8>) -> bool {
    forall|i: int| 0 <= i < s.len() ==> (48 <= #[trigger] s[i] <= 57 || s[i] == 95)
}

/// The value of the decimal digits of `s`, the `_` between them ignored.
pub open spec fn digits_value_skipping_underscores(s: Seq<u8>) -> nat
    decreases s.len(),
{
    if s.len() == 0 {
        0
    } else if s.last() == 95 {
        digits_value_skipping_underscores(s.drop_last())
    } else {
        digits_value_skipping_underscores(s.drop_last()) * 10 + (s.last() - 48) as nat
    }
}

/// What `ruint::Uint::<256, 4>::from_str_radix(s, 10)` gives for the bytes
/// `s`: the value of its decimal digits, `_` ignored (so the empty text is
/// 0), where every byte is a digit or `_` and the value fits in 256 bits.
pub open spec fn parse_u256_decimal_spec(s: Seq<u8>) -> Option<nat> {
    if all_digits_or_underscores(s) && digits_value_skipping_underscores(s) < u256_bound() {
        Some(digits_value_skipping_underscores(s))
    } else {
        None
    }
}

proof fn lemma_value_grows(s: Seq<u8>, t: Seq<u8>)
    requires
        all_digits_or_underscores(s + t),
    ensures
        digits_value_skipping_underscores(s) <= digits_value_skipping_underscores(s + t),
    decreases t.len(),
{
    if t.len() > 0 {
        let u = s + t;
        assert(u.drop_last() =~= s + t.drop_last());
        assert(all_digits_or_underscores(s + t.drop_last())) by {
            assert forall|i: int| 0 <= i < (s + t.drop_last()).len() implies (48 <= #[trigger] (s
                + t.drop_last())[i] <= 57 || (s + t.drop_last())[i] == 95) by {
                assert((s + t.drop_last())[i] == u[i]);
            }
        }
        lemma_value_grows(s, t.drop_last());
    }
}

/// One limb of `x * 10 + carry`: the limb kept and the carry to the next.
fn mul10_step(limb: u64, carry: u64) -> (r: (u64, u64))
    requires
        carry < 10,
    ensures
        r.1 < 10,
        r.0 as nat + r.1 as nat * limb_base() == limb as nat * 10 + carry as nat,
{
    let t: u128 = (limb as u128) * 10 + (carry as u128);
    let lo: u128 = t % 0x1_0000_0000_0000_0000u128;
    let hi: u128 = t / 0x1_0000_0000_0000_0000u128;
    assert(hi < 10) by (nonlinear_arith)
        requires
            t == limb as int * 10 + carry as int,
            limb < 0x1_0000_0000_0000_0000,
            carry < 10,
            hi == t / 0x1_0000_0000_0000_0000,
    ;
    assert(limb_base() == 0x1_0000_0000_0000_0000);
    ((lo as u64), (hi as u64))
}

impl U256 {
    /// The value times ten plus `d`, where that fits in 256 bits.
    fn mul10_add(&self, d: u64) -> (r: Option<U256>)
        requires
            d < 10,
        ensures
            self.value() * 10 + d < u256_bound() ==> (r matches Some(v) && v.value() == self.value()
                * 10 + d),
            self.value() * 10 + d >= u256_bound() ==> r is None,
    {
        let (l0, c0) = mul10_step(self.limbs[0], d);
        let (l1, c1) = mul10_step(self.limbs[1], c0);
        let (l2, c2) = mul10_step(self.limbs[2], c1);
        let (l3, c3) = mul10_step(self.limbs[3], c2);
        let v = U256 { limbs: [l0, l1, l2, l3] };
        proof {
            let b = limb_base();
            let x0 = self.limbs[0] as int;
            let x1 = self.limbs[1] as int;
            let x2 = self.limbs[2] as int;
            let x3 = self.limbs[3] as int;
            let w3 = x3;
            let w2 = x2 + b * w3;
            let w1 = x1 + b * w2;
            let v3 = l3 + c3 * b;
            let v2 = l2 + b * v3;
            let v1 = l1 + b * v2;
            let v0 = l0 + b * v1;
            assert(10 * w2 + c1 == v2) by (nonlinear_arith)
                requires
                    w2 == x2 + b * w3,
                    10 * x2 + c1 == l2 + c2 * b,
                    10 * w3 + c2 == v3,
                    v2 == l2 + b * v3,
            ;
            assert(10 * w1 + c0 == v1) by (nonlinear_arith)
                requires
                    w1 == x1 + b * w2,
                    10 * x1 + c0 == l1 + c1 * b,
                    10 * w2 + c1 == v2,
                    v1 == l1 + b * v2,
            ;
            assert(self.value() == x0 + b * w1);
            assert(10 * self.value() + d == v0) by (nonlinear_arith)
                requires
                    self.value() == x0 + b * w1,
                    10 * x0 + d == l0 + c0 * b,
                    10 * w1 + c0 == v1,
                    v0 == l0 + b * v1,
            ;
            assert(v0 == v.value() + c3 * (b * b * b * b)) by (nonlinear_arith)
                requires
                    v0 == l0 + b * (l1 + b * (l2 + b * (l3 + c3 * b))),
                    v.value() == l0 + b * (l1 + b * (l2 + b * l3)),
            ;
            assert(v.value() < u256_bound()) by (nonlinear_arith)
                requires
                    v.value() == l0 + b * (l1 + b * (l2 + b * l3)),
                    0 <= l0 < b,
                    0 <= l1 < b,
                    0 <= l2 < b,
                    0 <= l3 < b,
                    u256_bound() == b * b * b * b,
                    b == 0x1_0000_0000_0000_0000,
            ;
        }
        if c3 == 0 {
            Some(v)
        } else {
            None
        }
    }
}

/// Parses decimal text into a 256-bit integer as
/// `ruint::Uint::<256, 4>::from_str_radix(s, 10)` does: `None` where that
/// gives an error.
pub fn parse_u256_decimal(s: &str) -> (r: Option<U256>)
    ensures
        r matches Some(v) ==> parse_u256_decimal_spec(s.spec_bytes()) == Some(v.value()),
        r is None <==> parse_u256_decimal_spec(s.spec_bytes()) is None,
{
    let bytes = s.as_bytes();
    let n = bytes.len();
    let mut x = U256::zero();
    let mut i: usize = 0;
    while i < n
        invariant
            i <= n == bytes@.len(),
            bytes@ == s.spec_bytes(),
            all_digits_or_underscores(bytes@.subrange(0, i as int)),
            x.value() == digits_value_skipping_underscores(bytes@.subrange(0, i as int)),
        decreases n - i,
    {
        let b = bytes[i];
        let ghost prev = bytes@.subrange(0, i as int);
        let ghost next = bytes@.subrange(0, i + 1);
        proof {
            assert(next.drop_last() =~= prev);
            assert(next.last() == b);
        }
        if b == 95u8 {
        } else if 48u8 <= b && b <= 57u8 {
            match x.mul10_add((b - 48u8) as u64) {
                Some(v) => {
                    x = v;
                },
                None => {
                    proof {
                        if all_digits_or_underscores(bytes@) {
                            assert(bytes@ =~= next + bytes@.subrange(i + 1, n as int));
                            lemma_value_grows(next, bytes@.subrange(i + 1, n as int));
                        }
                    }
                    return None;
                },
            }
        } else {
            proof {
                assert(bytes@[i as int] == b);
                assert(!all_digits_or_underscores(bytes@));
            }
            return None;
        }
        i = i + 1;
        proof {
            assert forall|k: int| 0 <= k < next.len() implies (48 <= #[trigger] next[k] <= 57 || next[k] == 95) by {
                if k < i - 1 {
                    assert(next[k] == prev[k]);
                }
            }
        }
    }
    assert(bytes@.subrange(0, n as int) =~= bytes@);
    proof {
        assert(x.value() < u256_bound()) by {
            let b = limb_base();
            assert(x.value() < u256_bound()) by (nonlinear_arith)
                requires
                    x.value() == x.limbs[0] + b * (x.limbs[1] + b * (x.limbs[2] + b * x.limbs[3])),
                    0 <= x.limbs[0] < b,
                    0 <= x.limbs[1] < b,
                    0 <= x.limbs[2] < b,
                    0 <= x.limbs[3] < b,
                    u256_bound() == b * b * b * b,
                    b == 0x1_0000_0000_0000_0000,
            ;
        }
    }
    Some(x)
}

/// The eight big-endian bytes of `x` are worth `x`.
proof fn lemma_u64_be_bytes(x: u64)
    ensures
        be_value(
            seq![
                ((x >> 56u64) & 0xff) as u8,
                ((x >> 48u64) & 0xff) as u8,
                ((x >> 40u64) & 0xff) as u8,
                ((x >> 32u64) & 0xff) as u8,
                ((x >> 24u64) & 0xff) as u8,
                ((x >> 16u64) & 0xff) as u8,
                ((x >> 8u64) & 0xff) as u8,
                (x & 0xff) as u8,
            ],
        ) == x,
{
    let b0 = (x >> 56u64) & 0xff;
    let b1 = (x >> 48u64) & 0xff;
    let b2 = (x >> 40u64) & 0xff;
    let b3 = (x >> 32u64) & 0xff;
    let b4 = (x >> 24u64) & 0xff;
    let b5 = (x >> 16u64) & 0xff;
    let b6 = (x >> 8u64) & 0xff;
    let b7 = x & 0xff;
    assert(x == ((((((b0 * 256 + b1) * 256 + b2) * 256 + b3) * 256 + b4) * 256 + b5) * 256 + b6) * 256
        + b7) by (bit_vector)
        requires
            b0 == (x >> 56u64) & 0xff,
            b1 == (x >> 48u64) & 0xff,
            b2 == (x >> 40u64) & 0xff,
            b3 == (x >> 32u64) & 0xff,
            b4 == (x >> 24u64) & 0xff,
            b5 == (x >> 16u64) & 0xff,
            b6 == (x >> 8u64) & 0xff,
            b7 == x & 0xff,
    ;
    let s = seq![b0 as u8, b1 as u8, b2 as u8, b3 as u8, b4 as u8, b5 as u8, b6 as u8, b7 as u8];
    assert(b0 < 256 && b1 < 256 && b2 < 256 && b3 < 256 && b4 < 256 && b5 < 256 && b6 < 256 && b7
        < 256) by (bit_vector)
        requires
            b0 == (x >> 56u64) & 0xff,
            b1 == (x >> 48u64) & 0xff,
            b2 == (x >> 40u64) & 0xff,
            b3 == (x >> 32u64) & 0xff,
            b4 == (x >> 24u64) & 0xff,
            b5 == (x >> 16u64) & 0xff,
            b6 == (x >> 8u64) & 0xff,
            b7 == x & 0xff,
    ;
    reveal_with_fuel(be_value, 9);
    assert(s.drop_last().drop_last().drop_last().drop_last().drop_last().drop_last().drop_last().drop_last()
        =~= Seq::<u8>::empty());
}

/// Appends the eight big-endian bytes of `x` to `out`.
fn push_u64_be(out: &mut Vec<u8>, x: u64)
    ensures
        final(out)@.len() == old(out)@.len() + 8,
        final(out)@.subrange(0, old(out)@.len() as int) == old(out)@,
        be_value(final(out)@.subrange(old(out)@.len() as int, old(out)@.len() as int + 8)) == x,
{
    out.push(((x >> 56u64) & 0xff) as u8);
    out.push(((x >> 48u64) & 0xff) as u8);
    out.push(((x >> 40u64) & 0xff) as u8);
    out.push(((x >> 32u64) & 0xff) as u8);
    out.push(((x >> 24u64) & 0xff) as u8);
    out.push(((x >> 16u64) & 0xff) as u8);
    out.push(((x >> 8u64) & 0xff) as u8);
    out.push((x & 0xff) as u8);
    proof {
        lemma_u64_be_bytes(x);
        let n = old(out)@.len() as int;
        assert(out@.subrange(n, n + 8) =~= seq![
            ((x >> 56u64) & 0xff) as u8,
            ((x >> 48u64) & 0xff) as u8,
            ((x >> 40u64) & 0xff) as u8,
            ((x >> 32u64) & 0xff) as u8,
            ((x >> 24u64) & 0xff) as u8,
            ((x >> 16u64) & 0xff) as u8,
            ((x >> 8u64) & 0xff) as u8,
            (x & 0xff) as u8,
        ]);
        assert(out@.subrange(0, n) =~= old(out)@);
    }
}

proof fn lemma_pow256_8_is_limb_base()
    ensures
        pow256(8) == limb_base(),
{
    reveal_with_fuel(pow256, 9);
}

/// Appends the 32 big-endian bytes of `x` to `out`, as `to_be_bytes::<32>`
/// gives them.
pub fn push_u256_be(out: &mut Vec<u8>, x: &U256)
    ensures
        final(out)@.len() == old(out)@.len() + 32,
        final(out)@.subrange(0, old(out)@.len() as int) == old(out)@,
        be_value(final(out)@.subrange(old(out)@.len() as int, old(out)@.len() as int + 32)) == x.value(),
{
    let ghost n = old(out)@.len() as int;
    push_u64_be(out, x.limbs[3]);
    let ghost o1 = out@;
    push_u64_be(out, x.limbs[2]);
    let ghost o2 = out@;
    push_u64_be(out, x.limbs[1]);
    let ghost o3 = out@;
    push_u64_be(out, x.limbs[0]);
    proof {
        let s3 = out@.subrange(n, n + 8);
        let s2 = out@.subrange(n + 8, n + 16);
        let s1 = out@.subrange(n + 16, n + 24);
        let s0 = out@.subrange(n + 24, n + 32);
        assert(s3 =~= o1.subrange(n, n + 8));
        assert(s2 =~= o2.subrange(n + 8, n + 16));
        assert(s1 =~= o3.subrange(n + 16, n + 24));
        assert(out@.subrange(n, n + 32) =~= s3 + s2 + s1 + s0);
        assert(out@.subrange(0, n) =~= old(out)@) by {
            assert(out@.subrange(0, n) =~= o1.subrange(0, n));
        }
        lemma_pow256_8_is_limb_base();
        lemma_be_value_concat(s3, s2);
        lemma_be_value_concat(s3 + s2, s1);
        lemma_be_value_concat(s3 + s2 + s1, s0);
        let b = limb_base();
        let l0 = x.limbs[0] as nat;
        let l1 = x.limbs[1] as nat;
        let l2 = x.limbs[2] as nat;
        let l3 = x.limbs[3] as nat;
        assert(((l3 * b + l2) * b + l1) * b + l0 == l0 + b * (l1 + b * (l2 + b * l3)))
            by (nonlinear_arith);
    }
}

/// The eight proof elements in the order the verifier contract expects:
/// `a.x, a.y`, the two parts of `b.x` and of `b.y` each with the second part
/// first, then `c.x, c.y`.
pub open spec fn solidity_proof_elements(p: Proof) -> Seq<U256> {
    seq![p.a.x, p.a.y, p.b.x[1], p.b.x[0], p.b.y[1], p.b.y[0], p.c.x, p.c.y]
}

/// The `bytes _proof` argument of a withdrawal: the 32 big-endian bytes of
/// each of the eight proof elements, in the verifier contract's order.
pub fn proof_to_solidity_inputs(proof: &Proof) -> (r: Vec<u8>)
    ensures
        r@.len() == 256,
        forall|k: int|
            0 <= k < 8 ==> be_value(#[trigger] r@.subrange(32 * k, 32 * k + 32))
                == solidity_proof_elements(*proof)[k].value(),
{
    let elements: [U256; 8] = [
        proof.a.x,
        proof.a.y,
        proof.b.x[1],
        proof.b.x[0],
        proof.b.y[1],
        proof.b.y[0],
        proof.c.x,
        proof.c.y,
    ];
    assert(elements@ =~= solidity_proof_elements(*proof));
    let mut out: Vec<u8> = Vec::new();
    let mut i: usize = 0;
    while i < 8
        invariant
            i <= 8,
            elements@ == solidity_proof_elements(*proof),
            out@.len() == 32 * i,
            forall|k: int|
                0 <= k < i ==> be_value(#[trigger] out@.subrange(32 * k, 32 * k + 32))
                    == elements@[k].value(),
        decreases 8 - i,
    {
        let ghost before = out@;
        push_u256_be(&mut out, &elements[i]);
        assert forall|k: int| 0 <= k < i + 1 implies be_value(
            #[trigger] out@.subrange(32 * k, 32 * k + 32),
        ) == elements@[k].value() by {
            if k < i {
                assert(out@.subrange(32 * k, 32 * k + 32) =~= before.subrange(32 * k, 32 * k + 32));
            }
        }
        i = i + 1;
    }
    out
}

} // verus!

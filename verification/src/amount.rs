//! Token amounts in their smallest unit, written as decimal text in whole
//! units ("1", "0.1", "100"), as pools name their denomination.

use crate::decimal::{
    all_digits, char_digit, decimal_digits, digit_char, digits_value, is_digit_char, lemma_decimal_digits, lemma_decimal_digits_len, pow10, push_decimal,
    push_digit, u128_to_decimal,
};
use vstd::prelude::*;

verus! {

/// `n` zero characters.
pub open spec fn zeros(n: nat) -> Seq<char> {
    Seq::new(n, |i: int| '0')
}

/// `s` padded on the left with zeros to at least `width` characters, as
/// `format!("{:0width$}", ..)` pads a number.
pub open spec fn pad_zeros(s: Seq<char>, width: nat) -> Seq<char> {
    if s.len() >= width {
        s
    } else {
        zeros((width - s.len()) as nat) + s
    }
}

/// `s` without its trailing `'0'` characters.
pub open spec fn trim_trailing_zeros(s: Seq<char>) -> Seq<char>
    decreases s.len(),
{
    if s.len() > 0 && s.last() == '0' {
        trim_trailing_zeros(s.drop_last())
    } else {
        s
    }
}

/// The text of `amount` smallest units of a token with `decimals` decimals:
/// the whole part, then, where the remainder is not zero, a `'.'` and the
/// remainder padded to `decimals` digits with its trailing zeros removed.
pub open spec fn amount_text(amount: nat, decimals: nat) -> Seq<char> {
    if decimals == 0 {
        decimal_digits(amount)
    } else {
        let divisor = pow10(decimals);
        let whole = amount / divisor;
        let frac = amount % divisor;
        if frac == 0 {
            decimal_digits(whole)
        } else {
            decimal_digits(whole) + seq!['.'] + trim_trailing_zeros(
                pad_zeros(decimal_digits(frac), decimals),
            )
        }
    }
}

pub proof fn lemma_pow10_positive(n: nat)
    ensures
        pow10(n) >= 1,
    decreases n,
{
    if n > 0 {
        lemma_pow10_positive((n - 1) as nat);
    }
}

pub proof fn lemma_pow10_monotone(a: nat, b: nat)
    requires
        a <= b,
    ensures
        pow10(a) <= pow10(b),
    decreases b,
{
    if a < b {
        lemma_pow10_monotone(a, (b - 1) as nat);
        lemma_pow10_positive((b - 1) as nat);
    }
}

/// `10^d` for `d <= 38`, the largest power of ten that fits in `u128`.
pub fn pow10_u128(d: u8) -> (r: u128)
    requires
        d <= 38,
    ensures
        r == pow10(d as nat),
{
    let mut r: u128 = 1;
    let mut i: u8 = 0;
    assert(pow10(38) == 100000000000000000000000000000000000000) by {
        reveal_with_fuel(pow10, 39);
    }
    while i < d
        invariant
            i <= d <= 38,
            r == pow10(i as nat),
            pow10(38) == 100000000000000000000000000000000000000,
        decreases d - i,
    {
        proof {
            lemma_pow10_monotone((i + 1) as nat, 38);
        }
        r = r * 10;
        i = i + 1;
    }
    r
}

/// A positive number times ten prints as the number followed by a zero.
proof fn lemma_digits_times_ten(q: nat)
    requires
        q > 0,
    ensures
        decimal_digits(q * 10) == decimal_digits(q).push('0'),
{
    assert((q * 10) / 10 == q);
    assert((q * 10) % 10 == 0);
}

/// Trailing zeros that are appended are trimmed again.
proof fn lemma_trim_appended_zeros(x: Seq<char>, t: nat)
    ensures
        trim_trailing_zeros(x + zeros(t)) == trim_trailing_zeros(x),
    decreases t,
{
    if t > 0 {
        let y = x + zeros(t);
        assert(y.len() > 0 && y.last() == '0');
        assert(y.drop_last() =~= x + zeros((t - 1) as nat));
        lemma_trim_appended_zeros(x, (t - 1) as nat);
    } else {
        assert(x + zeros(0) =~= x);
    }
}

/// Appends `n` zero characters to `s`.
fn push_zeros(s: &mut String, n: usize)
    ensures
        final(s)@ == old(s)@ + zeros(n as nat),
{
    let mut i: usize = 0;
    while i < n
        invariant
            i <= n,
            s@ == old(s)@ + zeros(i as nat),
        decreases n - i,
    {
        push_digit(s, 0);
        i = i + 1;
        assert(s@ =~= old(s)@ + zeros(i as nat));
    }
}

/// Appends a `'.'` to `s`.
fn push_dot(s: &mut String)
    ensures
        final(s)@ == old(s)@.push('.'),
{
    proof {
        reveal_strlit(".");
    }
    s.append(".");
    assert(final(s)@ =~= old(s)@.push('.'));
}

/// The fractional digits of a non-zero remainder `frac < 10^decimals`, padded
/// to `decimals` digits and stripped of trailing zeros.
fn fraction_text(frac: u128, decimals: u8) -> (s: String)
    requires
        frac > 0,
        1 <= decimals <= 38,
        frac < pow10(decimals as nat),
    ensures
        s@ == trim_trailing_zeros(pad_zeros(decimal_digits(frac as nat), decimals as nat)),
{
    let full = u128_to_decimal(frac);
    let len = full.as_str().unicode_len();
    proof {
        lemma_decimal_digits_len(frac as nat, decimals as nat);
    }
    let lead = (decimals as usize) - len;
    let mut q = frac;
    let ghost mut t: nat = 0;
    while q % 10 == 0
        invariant
            q > 0,
            decimal_digits(frac as nat) == decimal_digits(q as nat) + zeros(t),
        decreases q,
    {
        proof {
            lemma_digits_times_ten((q / 10) as nat);
            assert(q == (q / 10) * 10);
            assert(decimal_digits(q as nat) == decimal_digits((q / 10) as nat).push('0'));
            assert(decimal_digits((q / 10) as nat) + zeros(t + 1) =~= decimal_digits(
                (q / 10) as nat,
            ).push('0') + zeros(t));
            t = t + 1;
        }
        q = q / 10;
    }
    let mut s = String::new();
    push_zeros(&mut s, lead);
    push_decimal(&mut s, q);
    proof {
        let x = zeros(lead as nat) + decimal_digits(q as nat);
        assert(pad_zeros(decimal_digits(frac as nat), decimals as nat) =~= x + zeros(t));
        lemma_trim_appended_zeros(x, t);
        lemma_decimal_digits(q as nat);
        let dq = decimal_digits(q as nat);
        if q < 10 {
            assert(dq.last() == digit_char(q as nat));
        } else {
            assert(dq.last() == digit_char((q % 10) as nat));
        }
        assert(x.last() == dq.last());
        assert(x.last() != '0');
        assert(trim_trailing_zeros(x) == x);
        assert(s@ =~= x);
    }
    s
}

/// The decimal text of `amount` smallest units of a token with `decimals`
/// decimals, e.g. `"0.1"` for `10^17` units of an 18-decimal token.
///
/// `10^decimals` must fit in `u128`; beyond 38 decimals the computation of
/// the divisor overflows.
pub fn format_amount(amount: u128, decimals: u8) -> (s: String)
    requires
        decimals <= 38,
    ensures
        s@ == amount_text(amount as nat, decimals as nat),
{
    if decimals == 0 {
        return u128_to_decimal(amount);
    }
    let divisor = pow10_u128(decimals);
    proof {
        lemma_pow10_positive(decimals as nat);
    }
    let whole = amount / divisor;
    let frac = amount % divisor;
    if frac == 0 {
        return u128_to_decimal(whole);
    }
    let mut s = u128_to_decimal(whole);
    push_dot(&mut s);
    let f = fraction_text(frac, decimals);
    s.append(f.as_str());
    s
}

} // verus!

verus! {

/// The index of the first `'.'` in `s`, or `s.len()` where there is none.
pub open spec fn dot_position(s: Seq<char>) -> nat
    decreases s.len(),
{
    if s.len() == 0 || s[0] == '.' {
        0
    } else {
        1 + dot_position(s.drop_first())
    }
}

/// The digits before the `'.'` of a decimal text.
pub open spec fn whole_part(s: Seq<char>) -> Seq<char> {
    s.subrange(0, dot_position(s) as int)
}

/// The digits after the `'.'` of a decimal text (none where there is no `'.'`).
pub open spec fn fraction_part(s: Seq<char>) -> Seq<char> {
    if dot_position(s) < s.len() {
        s.subrange(dot_position(s) as int + 1, s.len() as int)
    } else {
        Seq::empty()
    }
}

/// The number of smallest units that a decimal text in whole units stands
/// for, for a token with `decimals` decimals.
pub open spec fn amount_text_value(s: Seq<char>, decimals: nat) -> nat {
    let frac = fraction_part(s);
    digits_value(whole_part(s)) * pow10(decimals) + digits_value(frac) * pow10(
        (decimals - frac.len()) as nat,
    )
}

/// Whether a decimal text is written as `format_amount` writes one: digits,
/// then optionally a `'.'` and at most `decimals` digits of which the last
/// is not `'0'`.
pub open spec fn is_canonical_amount_text(s: Seq<char>, decimals: nat) -> bool {
    let whole = whole_part(s);
    let frac = fraction_part(s);
    &&& whole.len() >= 1
    &&& all_digits(whole)
    &&& all_digits(frac)
    &&& frac.len() <= decimals
    &&& (dot_position(s) < s.len() ==> frac.len() >= 1 && frac.last() != '0')
}

proof fn lemma_digits_value_concat(x: Seq<char>, y: Seq<char>)
    ensures
        digits_value(x + y) == digits_value(x) * pow10(y.len()) + digits_value(y),
    decreases y.len(),
{
    if y.len() == 0 {
        assert(x + y =~= x);
        assert(pow10(0) == 1);
        assert(digits_value(y) == 0);
    } else {
        let z = x + y;
        assert(z.drop_last() =~= x + y.drop_last());
        assert(z.last() == y.last());
        lemma_digits_value_concat(x, y.drop_last());
        let a = digits_value(x);
        let p = pow10(y.drop_last().len());
        let b = digits_value(y.drop_last());
        let c = char_digit(y.last());
        assert(pow10(y.len()) == 10 * p);
        assert((a * p + b) * 10 + c == a * (10 * p) + (b * 10 + c)) by (nonlinear_arith);
    }
}

proof fn lemma_digits_value_zeros(n: nat)
    ensures
        digits_value(zeros(n)) == 0,
        all_digits(zeros(n)),
    decreases n,
{
    if n > 0 {
        assert(zeros(n).drop_last() =~= zeros((n - 1) as nat));
        lemma_digits_value_zeros((n - 1) as nat);
    }
}

proof fn lemma_dot_position_digits(w: Seq<char>, rest: Seq<char>)
    requires
        all_digits(w),
    ensures
        dot_position(w + rest) == w.len() + dot_position(rest),
    decreases w.len(),
{
    if w.len() > 0 {
        assert((w + rest)[0] == w[0]);
        assert(is_digit_char(w[0]));
        assert((w + rest).drop_first() =~= w.drop_first() + rest);
        lemma_dot_position_digits(w.drop_first(), rest);
    } else {
        assert(w + rest =~= rest);
    }
}

/// A positive number is a number not ending in zero, times a power of ten,
/// and it prints as that number followed by as many zeros.
proof fn lemma_strip_zeros(n: nat) -> (r: (nat, nat))
    requires
        n > 0,
    ensures
        r.0 > 0,
        r.0 % 10 != 0,
        n == r.0 * pow10(r.1),
        decimal_digits(n) == decimal_digits(r.0) + zeros(r.1),
    decreases n,
{
    if n % 10 != 0 {
        assert(decimal_digits(n) =~= decimal_digits(n) + zeros(0));
        assert(pow10(0) == 1);
        (n, 0)
    } else {
        let m = n / 10;
        assert(n == m * 10);
        let (q, t) = lemma_strip_zeros(m);
        lemma_digits_times_ten(m);
        assert(decimal_digits(n) =~= decimal_digits(q) + zeros(t + 1));
        assert(pow10(t + 1) == 10 * pow10(t));
        assert(n == q * pow10(t + 1)) by (nonlinear_arith)
            requires
                n == m * 10,
                m == q * pow10(t),
                pow10(t + 1) == 10 * pow10(t),
        ;
        (q, t + 1)
    }
}

/// The text of an amount is canonical and stands for exactly that amount:
/// reading back the whole and fractional digits gives the number of smallest
/// units that was written.
pub proof fn lemma_amount_text_value(amount: nat, decimals: nat)
    ensures
        is_canonical_amount_text(amount_text(amount, decimals), decimals),
        amount_text_value(amount_text(amount, decimals), decimals) == amount,
{
    let s = amount_text(amount, decimals);
    lemma_pow10_positive(decimals);
    let divisor = pow10(decimals);
    let whole = if decimals == 0 {
        amount
    } else {
        amount / divisor
    };
    let frac: nat = if decimals == 0 {
        0
    } else {
        amount % divisor
    };
    assert(amount == whole * divisor + frac) by (nonlinear_arith)
        requires
            decimals == 0 ==> divisor == 1 && whole == amount && frac == 0,
            decimals != 0 ==> whole == amount / divisor && frac == amount % divisor,
            divisor >= 1,
    ;
    let w = decimal_digits(whole);
    lemma_decimal_digits(whole);
    if frac == 0 {
        assert(s == w);
        lemma_dot_position_digits(w, Seq::empty());
        assert(w + Seq::<char>::empty() =~= w);
        assert(whole_part(s) =~= w);
        assert(fraction_part(s) =~= Seq::<char>::empty());
        assert(digits_value(Seq::<char>::empty()) == 0);
    } else {
        let (q, t) = lemma_strip_zeros(frac);
        lemma_decimal_digits(q);
        lemma_decimal_digits(frac);
        lemma_decimal_digits_len(frac, decimals);
        let dq = decimal_digits(q);
        let lead = (decimals - decimal_digits(frac).len()) as nat;
        let x = zeros(lead) + dq;
        assert(pad_zeros(decimal_digits(frac), decimals) =~= x + zeros(t));
        lemma_trim_appended_zeros(x, t);
        if q < 10 {
            assert(dq.last() == digit_char(q));
        } else {
            assert(dq.last() == digit_char(q % 10));
        }
        assert(x.last() == dq.last());
        assert(trim_trailing_zeros(x) == x);
        let f = x;
        assert(s == w + seq!['.'] + f);
        lemma_dot_position_digits(w, seq!['.'] + f);
        assert(dot_position(seq!['.'] + f) == 0);
        assert((w + seq!['.'] + f) =~= w + (seq!['.'] + f));
        assert(dot_position(s) == w.len());
        assert(whole_part(s) =~= w);
        assert(fraction_part(s) =~= f);
        lemma_digits_value_zeros(lead);
        lemma_digits_value_concat(zeros(lead), dq);
        assert(digits_value(f) == q);
        assert forall|i: int| 0 <= i < f.len() implies is_digit_char(#[trigger] f[i]) by {
            if i < lead {
                assert(f[i] == zeros(lead)[i]);
            } else {
                assert(f[i] == dq[i - lead]);
            }
        }
        assert(decimal_digits(frac).len() == dq.len() + t);
        assert(f.len() == decimals - t);
        assert((decimals - f.len()) as nat == t);
        assert(amount == whole * divisor + q * pow10(t));
    }
}

/// Two amounts of a token with the same text are the same amount.
pub proof fn lemma_amount_text_injective(a: nat, b: nat, decimals: nat)
    requires
        amount_text(a, decimals) == amount_text(b, decimals),
    ensures
        a == b,
{
    lemma_amount_text_value(a, decimals);
    lemma_amount_text_value(b, decimals);
}

} // verus!

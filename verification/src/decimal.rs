//! Decimal text for unsigned integers: printing (as `Display` does for the
//! primitive integers) and parsing (as `FromStr` does for `u128`).

use vstd::prelude::*;
use vstd::string::StringSliceAdditionalSpecFns;

verus! {

/// Ten to the power `n`.
pub open spec fn pow10(n: nat) -> nat
    decreases n,
{
    if n == 0 {
        1
    } else {
        10 * pow10((n - 1) as nat)
    }
}

/// The ASCII character of the decimal digit `d` (for `d < 10`).
pub open spec fn digit_char(d: nat) -> char {
    if d == 0 {
        '0'
    } else if d == 1 {
        '1'
    } else if d == 2 {
        '2'
    } else if d == 3 {
        '3'
    } else if d == 4 {
        '4'
    } else if d == 5 {
        '5'
    } else if d == 6 {
        '6'
    } else if d == 7 {
        '7'
    } else if d == 8 {
        '8'
    } else {
        '9'
    }
}

/// Whether `c` is one of the characters `'0'..='9'`.
pub open spec fn is_digit_char(c: char) -> bool {
    '0' <= c && c <= '9'
}

/// The value of the digit character `c`.
pub open spec fn char_digit(c: char) -> nat {
    (c as int - '0' as int) as nat
}

/// The decimal digits of `n`, most significant first, without leading zeros
/// (`"0"` for zero): the text that `Display` prints for an unsigned integer.
pub open spec fn decimal_digits(n: nat) -> Seq<char>
    decreases n,
{
    if n < 10 {
        seq![digit_char(n)]
    } else {
        decimal_digits(n / 10).push(digit_char(n % 10))
    }
}

/// The value of a string of decimal digits, most significant first.
pub open spec fn digits_value(s: Seq<char>) -> nat
    decreases s.len(),
{
    if s.len() == 0 {
        0
    } else {
        digits_value(s.drop_last()) * 10 + char_digit(s.last())
    }
}

/// Whether every character of `s` is a decimal digit.
pub open spec fn all_digits(s: Seq<char>) -> bool {
    forall|i: int| 0 <= i < s.len() ==> is_digit_char(#[trigger] s[i])
}

/// Whether every byte of `s` is an ASCII decimal digit.
pub open spec fn all_digit_bytes(s: Seq<u8>) -> bool {
    forall|i: int| 0 <= i < s.len() ==> 48 <= #[trigger] s[i] <= 57
}

/// The value of a string of ASCII decimal digit bytes.
pub open spec fn digit_bytes_value(s: Seq<u8>) -> nat
    decreases s.len(),
{
    if s.len() == 0 {
        0
    } else {
        digit_bytes_value(s.drop_last()) * 10 + (s.last() - 48) as nat
    }
}

/// What `str::parse::<u128>` gives for the UTF-8 bytes `s`: an optional
/// leading `+`, then at least one ASCII digit and nothing else, of a value
/// that fits in `u128`.
pub open spec fn parse_u128_spec(s: Seq<u8>) -> Option<u128> {
    let body = if s.len() > 0 && s[0] == 43 {
        s.drop_first()
    } else {
        s
    };
    if body.len() == 0 || !all_digit_bytes(body) || digit_bytes_value(body) > u128::MAX {
        None
    } else {
        Some(digit_bytes_value(body) as u128)
    }
}

proof fn lemma_digit_bytes_value(chars: Seq<char>, bytes: Seq<u8>)
    requires
        all_digits(chars),
        bytes.len() == chars.len(),
        forall|i: int| 0 <= i < chars.len() ==> #[trigger] bytes[i] == chars[i] as u8,
    ensures
        all_digit_bytes(bytes),
        digit_bytes_value(bytes) == digits_value(chars),
    decreases chars.len(),
{
    if chars.len() > 0 {
        lemma_digit_bytes_value(chars.drop_last(), bytes.drop_last());
        assert(bytes.last() == chars.last() as u8);
        assert(is_digit_char(chars[chars.len() - 1]));
    }
    assert forall|i: int| 0 <= i < bytes.len() implies 48 <= #[trigger] bytes[i] <= 57 by {
        assert(is_digit_char(chars[i]));
    }
}

/// Printing a `u128` in decimal and parsing the text back gives the number:
/// the text that `Display` writes is one that `str::parse::<u128>` reads as
/// the same number.
pub proof fn lemma_decimal_round_trip(n: u128)
    ensures
        parse_u128_spec(vstd::utf8::encode_utf8(decimal_digits(n as nat))) == Some(n),
{
    let chars = decimal_digits(n as nat);
    lemma_decimal_digits(n as nat);
    assert(vstd::utf8::is_ascii_chars(chars)) by {
        assert forall|i: int| 0 <= i < chars.len() implies '\0' <= #[trigger] chars[i] <= '\u{7f}' by {
            assert(is_digit_char(chars[i]));
        }
    }
    let bytes = vstd::utf8::encode_utf8(chars);
    vstd::utf8::is_ascii_chars_encode_utf8(chars);
    lemma_digit_bytes_value(chars, bytes);
    assert(is_digit_char(chars[0]));
    assert(bytes[0] == chars[0] as u8);
    assert(bytes[0] != 43);
}

proof fn lemma_digit_char(d: nat)
    requires
        d < 10,
    ensures
        is_digit_char(digit_char(d)),
        char_digit(digit_char(d)) == d,
{
}

/// The digits of `n` are digits, and they read back as `n`.
pub proof fn lemma_decimal_digits(n: nat)
    ensures
        all_digits(decimal_digits(n)),
        digits_value(decimal_digits(n)) == n,
        decimal_digits(n).len() >= 1,
        decimal_digits(n)[0] != '0' || n == 0,
    decreases n,
{
    let s = decimal_digits(n);
    if n < 10 {
        lemma_digit_char(n);
        assert(s.drop_last() =~= Seq::<char>::empty());
        assert(digits_value(s.drop_last()) == 0);
        assert(s.last() == digit_char(n));
    } else {
        lemma_decimal_digits(n / 10);
        lemma_digit_char(n % 10);
        assert(s.drop_last() =~= decimal_digits(n / 10));
        assert(s.last() == digit_char(n % 10));
        assert(n == (n / 10) * 10 + n % 10);
        assert(s[0] == decimal_digits(n / 10)[0]);
    }
}

/// `n` has at most `k` digits when it is below `10^k` (and `k >= 1`).
pub proof fn lemma_decimal_digits_len(n: nat, k: nat)
    requires
        k >= 1,
        n < pow10(k),
    ensures
        decimal_digits(n).len() <= k,
    decreases k,
{
    if n >= 10 {
        assert(k >= 2) by {
            if k == 1 {
                assert(pow10(1) == 10) by {
                    reveal_with_fuel(pow10, 2);
                }
            }
        }
        assert(n / 10 < pow10((k - 1) as nat));
        lemma_decimal_digits_len(n / 10, (k - 1) as nat);
    }
}

/// Appends the digit `d` to `s`.
pub fn push_digit(s: &mut String, d: u8)
    requires
        d < 10,
    ensures
        final(s)@ == old(s)@.push(digit_char(d as nat)),
{
    let lit = match d {
        0 => "0",
        1 => "1",
        2 => "2",
        3 => "3",
        4 => "4",
        5 => "5",
        6 => "6",
        7 => "7",
        8 => "8",
        _ => "9",
    };
    proof {
        reveal_strlit("0");
        reveal_strlit("1");
        reveal_strlit("2");
        reveal_strlit("3");
        reveal_strlit("4");
        reveal_strlit("5");
        reveal_strlit("6");
        reveal_strlit("7");
        reveal_strlit("8");
        reveal_strlit("9");
    }
    s.append(lit);
    assert(final(s)@ =~= old(s)@.push(digit_char(d as nat)));
}

/// Appends the decimal digits of `n` to `s`.
pub fn push_decimal(s: &mut String, n: u128)
    ensures
        final(s)@ == old(s)@ + decimal_digits(n as nat),
    decreases n,
{
    if n >= 10 {
        push_decimal(s, n / 10);
    }
    push_digit(s, (n % 10) as u8);
    assert(final(s)@ =~= old(s)@ + decimal_digits(n as nat));
}

/// The decimal text of `n`, as `n.to_string()` gives it.
pub fn u128_to_decimal(n: u128) -> (s: String)
    ensures
        s@ == decimal_digits(n as nat),
{
    let mut s = String::new();
    push_decimal(&mut s, n);
    assert(s@ =~= decimal_digits(n as nat));
    s
}

/// Parses `s` as `str::parse::<u128>` does: `None` where that gives an error.
pub fn parse_u128(s: &str) -> (r: Option<u128>)
    ensures
        r == parse_u128_spec(s.spec_bytes()),
{
    let bytes = s.as_bytes();
    let n = bytes.len();
    let start: usize = if n > 0 && bytes[0] == 43u8 { 1 } else { 0 };
    let ghost body = bytes@.subrange(start as int, n as int);
    assert(body =~= (if bytes@.len() > 0 && bytes@[0] == 43 {
        bytes@.drop_first()
    } else {
        bytes@
    }));
    if start == n {
        return None;
    }
    let mut value: u128 = 0;
    let mut i: usize = start;
    while i < n
        invariant
            start <= i <= n,
            n == bytes@.len(),
            body == bytes@.subrange(start as int, n as int),
            bytes@ == s.spec_bytes(),
            body == (if bytes@.len() > 0 && bytes@[0] == 43 {
                bytes@.drop_first()
            } else {
                bytes@
            }),
            all_digit_bytes(body.subrange(0, i - start)),
            value as nat == digit_bytes_value(body.subrange(0, i - start)),
        decreases n - i,
    {
        let b = bytes[i];
        proof {
            lemma_digit_bytes_step(body, (i - start) as nat);
        }
        if b < 48u8 || b > 57u8 {
            assert(body[i - start] == b);
            assert(!all_digit_bytes(body));
            return None;
        }
        let d = (b - 48u8) as u128;
        if value > (u128::MAX - d) / 10 {
            proof {
                lemma_overflow_step(value as nat, d as nat);
                if all_digit_bytes(body) {
                    lemma_digit_bytes_value_prefix(body, (i + 1 - start) as nat);
                }
            }
            return None;
        }
        value = value * 10 + d;
        i = i + 1;
    }
    assert(body.subrange(0, n - start) =~= body);
    Some(value)
}

/// One more digit: the prefix of length `k + 1` extends the prefix of length `k`.
proof fn lemma_digit_bytes_step(body: Seq<u8>, k: nat)
    requires
        k < body.len(),
    ensures
        digit_bytes_value(body.subrange(0, k as int + 1)) == digit_bytes_value(body.subrange(0, k as int))
            * 10 + (body[k as int] - 48) as nat,
        all_digit_bytes(body.subrange(0, k as int)) && 48 <= body[k as int] <= 57 ==> all_digit_bytes(
            body.subrange(0, k as int + 1),
        ),
{
    assert(body.subrange(0, k as int + 1).drop_last() =~= body.subrange(0, k as int));
    let next = body.subrange(0, k as int + 1);
    if all_digit_bytes(body.subrange(0, k as int)) && 48 <= body[k as int] <= 57 {
        assert forall|i: int| 0 <= i < next.len() implies 48 <= #[trigger] next[i] <= 57 by {
            if i < k {
                assert(next[i] == body.subrange(0, k as int)[i]);
            }
        }
    }
}

proof fn lemma_overflow_step(value: nat, d: nat)
    requires
        d < 10,
        value > (u128::MAX - d) / 10,
    ensures
        value * 10 + d > u128::MAX,
{
    assert(value * 10 + d > u128::MAX) by (nonlinear_arith)
        requires
            d < 10,
            value > (u128::MAX - d) / 10,
    ;
}

/// A string of digits is worth at least any of its prefixes.
proof fn lemma_digit_bytes_value_prefix(s: Seq<u8>, k: nat)
    requires
        k <= s.len(),
        all_digit_bytes(s),
    ensures
        digit_bytes_value(s.subrange(0, k as int)) <= digit_bytes_value(s),
    decreases s.len(),
{
    if k < s.len() {
        assert(s.drop_last().subrange(0, k as int) =~= s.subrange(0, k as int));
        assert(all_digit_bytes(s.drop_last()));
        lemma_digit_bytes_value_prefix(s.drop_last(), k);
    } else {
        assert(s.subrange(0, k as int) =~= s);
    }
}

} // verus!

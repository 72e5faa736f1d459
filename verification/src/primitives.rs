//! Fixed-size byte values of the EVM: 20-byte addresses and 32-byte words
//! (hashes, topics), and their lower-case hex text.

use crate::events::keccak256_of;
use vstd::prelude::*;

verus! {

/// A 20-byte EVM account or contract address.
#[derive(Clone, Copy, Debug, PartialEq, Eq)]
pub struct Address {
    pub bytes: [u8; 20],
}

/// A 32-byte value: a hash, an event topic or an ABI word.
#[derive(Clone, Copy, Debug, PartialEq, Eq)]
pub struct B256 {
    pub bytes: [u8; 32],
}

impl Address {
    /// The address whose bytes are `bytes`.
    pub fn new(bytes: [u8; 20]) -> (r: Address)
        ensures
            r.bytes == bytes,
    {
        Address { bytes }
    }

    /// The all-zero address.
    pub fn zero() -> (r: Address)
        ensures
            forall|i: int| 0 <= i < 20 ==> #[trigger] r.bytes[i] == 0,
    {
        Address { bytes: [0u8; 20] }
    }
}

impl B256 {
    /// The word whose bytes are `bytes`.
    pub fn new(bytes: [u8; 32]) -> (r: B256)
        ensures
            r.bytes == bytes,
    {
        B256 { bytes }
    }

    /// Whether two words are equal.
    pub fn same(&self, other: &B256) -> (r: bool)
        ensures
            r == (self.bytes@ == other.bytes@),
    {
        let mut i: usize = 0;
        while i < 32
            invariant
                i <= 32,
                forall|k: int| 0 <= k < i ==> self.bytes@[k] == other.bytes@[k],
            decreases 32 - i,
        {
            if self.bytes[i] != other.bytes[i] {
                return false;
            }
            i = i + 1;
        }
        assert(self.bytes@ =~= other.bytes@);
        true
    }

    /// The all-zero word, the default of a transaction hash.
    pub fn zero() -> (r: B256)
        ensures
            forall|i: int| 0 <= i < 32 ==> #[trigger] r.bytes[i] == 0,
    {
        B256 { bytes: [0u8; 32] }
    }
}

/// The lower-case hex character of the nibble `n` (for `n < 16`).
pub open spec fn hex_char(n: nat) -> char {
    if n < 10 {
        crate::decimal::digit_char(n)
    } else if n == 10 {
        'a'
    } else if n == 11 {
        'b'
    } else if n == 12 {
        'c'
    } else if n == 13 {
        'd'
    } else if n == 14 {
        'e'
    } else {
        'f'
    }
}

/// The lower-case hex text of `bytes`, two characters per byte, high nibble
/// first, without a prefix.
pub open spec fn hex_text(bytes: Seq<u8>) -> Seq<char>
    decreases bytes.len(),
{
    if bytes.len() == 0 {
        Seq::empty()
    } else {
        hex_text(bytes.drop_last()) + seq![
            hex_char((bytes.last() / 16) as nat),
            hex_char((bytes.last() % 16) as nat),
        ]
    }
}

/// Appends the lower-case hex character of the nibble `n` to `s`.
fn push_hex_digit(s: &mut String, n: u8)
    requires
        n < 16,
    ensures
        final(s)@ == old(s)@.push(hex_char(n as nat)),
{
    if n < 10 {
        crate::decimal::push_digit(s, n);
    } else {
        let lit = match n {
            10 => "a",
            11 => "b",
            12 => "c",
            13 => "d",
            14 => "e",
            _ => "f",
        };
        proof {
            reveal_strlit("a");
            reveal_strlit("b");
            reveal_strlit("c");
            reveal_strlit("d");
            reveal_strlit("e");
            reveal_strlit("f");
        }
        s.append(lit);
        assert(final(s)@ =~= old(s)@.push(hex_char(n as nat)));
    }
}

/// Appends the lower-case hex text of `bytes` to `s`.
pub fn push_hex(s: &mut String, bytes: &[u8])
    ensures
        final(s)@ == old(s)@ + hex_text(bytes@),
{
    let n = bytes.len();
    let mut i: usize = 0;
    while i < n
        invariant
            i <= n == bytes@.len(),
            s@ == old(s)@ + hex_text(bytes@.subrange(0, i as int)),
        decreases n - i,
    {
        let b = bytes[i];
        push_hex_digit(s, b / 16);
        push_hex_digit(s, b % 16);
        proof {
            let next = bytes@.subrange(0, i + 1);
            assert(next.drop_last() =~= bytes@.subrange(0, i as int));
            assert(next.last() == b);
        }
        i = i + 1;
        assert(s@ =~= old(s)@ + hex_text(bytes@.subrange(0, i as int)));
    }
    assert(bytes@.subrange(0, n as int) =~= bytes@);
}

/// `"0x"` followed by the lower-case hex text of `bytes`.
pub fn hex_prefixed(bytes: &[u8]) -> (s: String)
    ensures
        s@ == seq!['0', 'x'] + hex_text(bytes@),
{
    let mut s = String::new();
    proof {
        reveal_strlit("0x");
    }
    s.append("0x");
    push_hex(&mut s, bytes);
    assert(s@ =~= seq!['0', 'x'] + hex_text(bytes@));
    s
}

/// Whether `c` is a hex digit, of either case.
pub open spec fn is_hex_digit(c: char) -> bool {
    ('0' <= c && c <= '9') || ('a' <= c && c <= 'f') || ('A' <= c && c <= 'F')
}

/// The value of the hex digit `c`.
pub open spec fn hex_digit_value(c: char) -> nat {
    if '0' <= c && c <= '9' {
        (c as int - '0' as int) as nat
    } else if 'a' <= c && c <= 'f' {
        (c as int - 'a' as int + 10) as nat
    } else {
        (c as int - 'A' as int + 10) as nat
    }
}

/// `text` without its `0x` (or `0X`) prefix, where it has one.
pub open spec fn unprefixed(text: Seq<char>) -> Seq<char> {
    if text.len() >= 2 && text[0] == '0' && (text[1] == 'x' || text[1] == 'X') {
        text.subrange(2, text.len() as int)
    } else {
        text
    }
}

/// Whether `text` is the hex text of an address: an optional `0x` or `0X`,
/// then exactly 40 hex digits of either case.
pub open spec fn is_address_text(text: Seq<char>) -> bool {
    let body = unprefixed(text);
    body.len() == 40 && forall|i: int| 0 <= i < 40 ==> #[trigger] is_hex_digit(body[i])
}

/// The byte `k` of the address written as `text`: the value of its two hex
/// digits, high nibble first.
pub open spec fn address_text_byte(text: Seq<char>, k: int) -> nat {
    let body = unprefixed(text);
    16 * hex_digit_value(body[2 * k]) + hex_digit_value(body[2 * k + 1])
}

/// Parses an address as `alloy_primitives::Address::from_str` does.
///
/// That function decodes the text with `const_hex::decode_to_array`: an
/// optional `0x` or `0X` prefix is dropped, then exactly 40 hex digits of
/// either case must follow, two per byte, high nibble first; any other text
/// is an error. No checksum is checked.
#[verifier::external_body]
pub(crate) fn parse_address(text: &str) -> (r: Option<Address>)
    ensures
        r is Some <==> is_address_text(text@),
        r matches Some(a) ==> forall|k: int| 0 <= k < 20 ==> #[trigger] a.bytes[k] as nat
            == address_text_byte(text@, k),
{
    match text.parse::<alloy_primitives::Address>() {
        Ok(a) => Some(Address { bytes: a.0.0 }),
        Err(_) => None,
    }
}

/// The ASCII bytes of `text`, a text of ASCII characters.
pub open spec fn ascii_bytes(text: Seq<char>) -> Seq<u8> {
    text.map_values(|c: char| c as u8)
}

/// The nibble `i` of `hash`, high nibble of each byte first.
pub open spec fn hash_nibble(hash: Seq<u8>, i: int) -> nat {
    if i % 2 == 0 {
        (hash[i / 2] / 16) as nat
    } else {
        (hash[i / 2] % 16) as nat
    }
}

/// The lower-case hex digit `c`, in upper case when it is a letter and
/// `nibble` is at least 8.
pub open spec fn checksum_char(c: char, nibble: nat) -> char {
    if 'a' <= c && c <= 'f' && nibble >= 8 {
        ((c as int) - 32) as char
    } else {
        c
    }
}

/// The EIP-55 checksummed text of the address whose bytes are `bytes`: `0x`,
/// then the lower-case hex digits, each letter in upper case where the
/// matching nibble of the Keccak-256 hash of the lower-case digits is at
/// least 8.
pub open spec fn checksum_text(bytes: Seq<u8>) -> Seq<char> {
    let lower = hex_text(bytes);
    let hash = keccak256_of(ascii_bytes(lower));
    seq!['0', 'x'] + Seq::new(lower.len(), |i: int| checksum_char(lower[i], hash_nibble(hash, i)))
}

/// The checksummed text of `a`, from
/// `alloy_primitives::Address::to_checksum` with no chain id: `0x`, then the
/// lower-case hex digits of the address, each letter put in upper case where
/// the matching nibble of the Keccak-256 hash of those lower-case digits is
/// at least 8 (EIP-55).
#[verifier::external_body]
pub(crate) fn to_checksum(a: &Address) -> (r: String)
    ensures
        r@ == checksum_text(a.bytes@),
{
    alloy_primitives::Address::new(a.bytes).to_checksum(None)
}

/// The hex text of `bytes` has two digits per byte: the high nibble's, then
/// the low nibble's.
pub proof fn lemma_hex_text(bytes: Seq<u8>)
    ensures
        hex_text(bytes).len() == 2 * bytes.len(),
        forall|k: int|
            0 <= k < bytes.len() ==> hex_text(bytes)[2 * k] == hex_char((bytes[k] / 16) as nat) && hex_text(
                bytes,
            )[2 * k + 1] == hex_char((bytes[k] % 16) as nat),
    decreases bytes.len(),
{
    if bytes.len() > 0 {
        let init = bytes.drop_last();
        lemma_hex_text(init);
        assert forall|k: int| 0 <= k < bytes.len() implies hex_text(bytes)[2 * k] == hex_char(
            (bytes[k] / 16) as nat,
        ) && hex_text(bytes)[2 * k + 1] == hex_char((bytes[k] % 16) as nat) by {
            if k < init.len() {
                assert(init[k] == bytes[k]);
            }
        }
    }
}

proof fn lemma_hex_char(n: nat)
    requires
        n < 16,
    ensures
        is_hex_digit(hex_char(n)),
        hex_digit_value(hex_char(n)) == n,
        n >= 10 ==> 'a' <= hex_char(n) && hex_char(n) <= 'f',
        n < 10 ==> '0' <= hex_char(n) && hex_char(n) <= '9',
        hex_char(n) as int >= 32,
        n >= 10 ==> is_hex_digit(((hex_char(n) as int) - 32) as char) && hex_digit_value(
            ((hex_char(n) as int) - 32) as char,
        ) == n,
{
}

/// The text `0x` and the lower-case hex of an address, and its checksummed
/// text, both read back as that address: each is the hex text of an
/// address, and its digits give the address's bytes.
pub proof fn lemma_address_text_round_trip(a: Address)
    ensures
        is_address_text(seq!['0', 'x'] + hex_text(a.bytes@)),
        forall|k: int| 0 <= k < 20 ==> address_text_byte(seq!['0', 'x'] + hex_text(a.bytes@), k)
            == a.bytes[k],
        is_address_text(checksum_text(a.bytes@)),
        forall|k: int| 0 <= k < 20 ==> address_text_byte(checksum_text(a.bytes@), k) == a.bytes[k],
{
    let bytes = a.bytes@;
    let lower = hex_text(bytes);
    lemma_hex_text(bytes);
    let plain = seq!['0', 'x'] + lower;
    assert(unprefixed(plain) =~= lower);
    let hash = keccak256_of(ascii_bytes(lower));
    let checked = checksum_text(bytes);
    let body = Seq::new(lower.len(), |i: int| checksum_char(lower[i], hash_nibble(hash, i)));
    assert(checked == seq!['0', 'x'] + body);
    assert(unprefixed(checked) =~= body);
    assert forall|k: int| 0 <= k < 20 implies {
        &&& is_hex_digit(lower[2 * k]) && is_hex_digit(lower[2 * k + 1])
        &&& is_hex_digit(body[2 * k]) && is_hex_digit(body[2 * k + 1])
        &&& hex_digit_value(lower[2 * k]) == (bytes[k] / 16) as nat
        &&& hex_digit_value(lower[2 * k + 1]) == (bytes[k] % 16) as nat
        &&& hex_digit_value(body[2 * k]) == (bytes[k] / 16) as nat
        &&& hex_digit_value(body[2 * k + 1]) == (bytes[k] % 16) as nat
    } by {
        lemma_hex_char((bytes[k] / 16) as nat);
        lemma_hex_char((bytes[k] % 16) as nat);
    }
    assert forall|i: int| 0 <= i < 40 implies #[trigger] is_hex_digit(lower[i]) && is_hex_digit(body[i]) by {
        let k = i / 2;
        lemma_hex_char((bytes[k] / 16) as nat);
        lemma_hex_char((bytes[k] % 16) as nat);
        assert(lower[2 * k] == hex_char((bytes[k] / 16) as nat));
        assert(lower[2 * k + 1] == hex_char((bytes[k] % 16) as nat));
        if i % 2 == 0 {
            assert(i == 2 * k);
        } else {
            assert(i == 2 * k + 1);
        }
    }
    assert forall|k: int| 0 <= k < 20 implies address_text_byte(plain, k) == a.bytes[k] by {
        assert(16 * ((bytes[k] / 16) as nat) + (bytes[k] % 16) as nat == bytes[k]);
    }
    assert forall|k: int| 0 <= k < 20 implies address_text_byte(checked, k) == a.bytes[k] by {
        assert(16 * ((bytes[k] / 16) as nat) + (bytes[k] % 16) as nat == bytes[k]);
    }
}

} // verus!

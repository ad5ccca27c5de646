//! 128-bit identifiers, their byte form and their hexadecimal text.
use vstd::prelude::*;

use crate::text::chars_of;

verus! {

/// A 128-bit identifier. Its byte form is big-endian, so identifiers order as
/// their bytes do.
#[derive(Clone, Copy, PartialEq, Eq, Structural, PartialOrd, Ord, Hash, Debug)]
pub struct Id {
    pub value: u128,
}

/// The last `n` bytes of `x`, most significant first.
pub open spec fn big_endian(x: nat, n: nat) -> Seq<u8>
    decreases n,
{
    if n == 0 {
        Seq::empty()
    } else {
        big_endian(x / 256, (n - 1) as nat).push((x % 256) as u8)
    }
}

/// The number whose bytes are `bytes`, most significant first.
pub open spec fn big_endian_value(bytes: Seq<u8>) -> nat
    decreases bytes.len(),
{
    if bytes.len() == 0 {
        0
    } else {
        big_endian_value(bytes.drop_last()) * 256 + bytes.last() as nat
    }
}

/// The lower-case hexadecimal digit for `d`.
pub open spec fn hex_digit(d: nat) -> char {
    if d < 10 {
        ('0' as u32 + d) as char
    } else {
        ('a' as u32 + (d - 10)) as char
    }
}

/// The number that a lower-case hexadecimal digit stands for.
pub open spec fn hex_digit_value(c: char) -> Option<nat> {
    if '0' as u32 <= c as u32 <= '9' as u32 {
        Some((c as u32 - '0' as u32) as nat)
    } else if 'a' as u32 <= c as u32 <= 'f' as u32 {
        Some((c as u32 - 'a' as u32 + 10) as nat)
    } else {
        None
    }
}

/// The last `n` hexadecimal digits of `x`, most significant first.
pub open spec fn hex_digits(x: nat, n: nat) -> Seq<char>
    decreases n,
{
    if n == 0 {
        Seq::empty()
    } else {
        hex_digits(x / 16, (n - 1) as nat).push(hex_digit(x % 16))
    }
}

/// The number written by `text` in lower-case hexadecimal digits, if it holds
/// nothing else.
pub open spec fn hex_value(text: Seq<char>) -> Option<nat>
    decreases text.len(),
{
    if text.len() == 0 {
        Some(0)
    } else {
        match (hex_value(text.drop_last()), hex_digit_value(text.last())) {
            (Some(high), Some(low)) => Some(high * 16 + low),
            _ => None,
        }
    }
}

/// The 32 hexadecimal digits of an identifier.
pub open spec fn hex_of(id: Id) -> Seq<char> {
    hex_digits(id.value as nat, 32)
}

/// The identifier that `text` writes: exactly 32 lower-case hexadecimal digits.
pub open spec fn id_of_hex(text: Seq<char>) -> Option<Id> {
    if text.len() == 32 {
        match hex_value(text) {
            Some(n) => Some(Id { value: n as u128 }),
            None => None,
        }
    } else {
        None
    }
}

/// A power.
pub open spec fn pow_nat(base: nat, n: nat) -> nat
    decreases n,
{
    if n == 0 {
        1
    } else {
        base * pow_nat(base, (n - 1) as nat)
    }
}

proof fn lemma_big_endian_value_bound(bytes: Seq<u8>)
    ensures
        big_endian_value(bytes) < pow_nat(256, bytes.len()),
    decreases bytes.len(),
{
    if bytes.len() > 0 {
        lemma_big_endian_value_bound(bytes.drop_last());
    }
}

/// The number of values of sixteen bytes.
pub proof fn lemma_pow_256_16()
    ensures
        pow_nat(256, 16) == 0x1_0000_0000_0000_0000_0000_0000_0000_0000int,
{
    reveal_with_fuel(pow_nat, 17);
}

/// The number of values of eight bytes.
pub proof fn lemma_pow_256_8()
    ensures
        pow_nat(256, 8) == 0x1_0000_0000_0000_0000int,
{
    reveal_with_fuel(pow_nat, 9);
}

/// The number of values of 32 hexadecimal digits.
pub proof fn lemma_pow_16_32()
    ensures
        pow_nat(16, 32) == 0x1_0000_0000_0000_0000_0000_0000_0000_0000int,
{
    reveal_with_fuel(pow_nat, 33);
}

/// Sixteen bytes always fit a 128-bit number.
pub proof fn lemma_sixteen_bytes_fit(bytes: Seq<u8>)
    requires
        bytes.len() == 16,
    ensures
        big_endian_value(bytes) <= u128::MAX,
{
    lemma_big_endian_value_bound(bytes);
    lemma_pow_256_16();
}

proof fn lemma_hex_value_bound(text: Seq<char>)
    ensures
        hex_value(text) matches Some(n) ==> n < pow_nat(16, text.len()),
    decreases text.len(),
{
    if text.len() > 0 {
        lemma_hex_value_bound(text.drop_last());
    }
}

/// Big-endian bytes read back as the number they were written from.
pub proof fn lemma_big_endian_inverse(x: nat, n: nat)
    requires
        x < pow_nat(256, n),
    ensures
        big_endian(x, n).len() == n,
        big_endian_value(big_endian(x, n)) == x,
    decreases n,
{
    if n > 0 {
        assert(x / 256 < pow_nat(256, (n - 1) as nat));
        lemma_big_endian_inverse(x / 256, (n - 1) as nat);
        let b = big_endian(x, n);
        assert(b.drop_last() =~= big_endian(x / 256, (n - 1) as nat));
    }
}

proof fn lemma_hex_inverse(x: nat, n: nat)
    requires
        x < pow_nat(16, n),
    ensures
        hex_digits(x, n).len() == n,
        hex_value(hex_digits(x, n)) == Some(x),
    decreases n,
{
    if n > 0 {
        assert(x / 16 < pow_nat(16, (n - 1) as nat));
        lemma_hex_inverse(x / 16, (n - 1) as nat);
        let h = hex_digits(x, n);
        assert(h.drop_last() =~= hex_digits(x / 16, (n - 1) as nat));
        let d = x % 16;
        assert(hex_digit_value(hex_digit(d)) == Some(d));
    }
}

/// The hexadecimal text of an identifier reads back as that identifier, and
/// has 32 digits.
pub proof fn law_hex_round_trip(id: Id)
    ensures
        hex_of(id).len() == 32,
        id_of_hex(hex_of(id)) == Some(id),
{
    lemma_pow_16_32();
    lemma_hex_inverse(id.value as nat, 32);
}

/// The sixteen bytes of an identifier read back as that identifier.
pub proof fn law_bytes_round_trip(id: Id)
    ensures
        big_endian(id.value as nat, 16).len() == 16,
        big_endian_value(big_endian(id.value as nat, 16)) == id.value,
{
    lemma_pow_256_16();
    lemma_big_endian_inverse(id.value as nat, 16);
}

impl vstd::std_specs::convert::FromSpecImpl<u128> for Id {
    open spec fn obeys_from_spec() -> bool {
        true
    }

    open spec fn from_spec(value: u128) -> Id {
        Id { value }
    }
}

impl From<u128> for Id {
    fn from(value: u128) -> (id: Id) {
        Id { value }
    }
}

impl Id {
    /// The identifier with these sixteen bytes.
    pub fn from_bytes(bytes: [u8; 16]) -> (id: Id)
        ensures
            id.value as nat == big_endian_value(bytes@),
    {
        let mut value: u128 = 0;
        let mut i: usize = 0;
        assert(bytes@.take(0) =~= Seq::<u8>::empty());
        while i < 16
            invariant
                i <= 16,
                value as nat == big_endian_value(bytes@.take(i as int)),
            decreases 16 - i,
        {
            let ghost next = bytes@.take(i + 1);
            proof {
                assert(next.drop_last() =~= bytes@.take(i as int));
                lemma_big_endian_value_bound(next);
                lemma_pow_256_le(next.len(), 16);
                lemma_pow_256_16();
            }
            value = value * 256 + bytes[i] as u128;
            i += 1;
        }
        assert(bytes@.take(16) =~= bytes@);
        Id { value }
    }

    /// The sixteen bytes of this identifier, most significant first.
    pub fn as_bytes(&self) -> (bytes: Vec<u8>)
        ensures
            bytes@ == big_endian(self.value as nat, 16),
            bytes@.len() == 16,
    {
        proof {
            law_bytes_round_trip(*self);
        }
        bytes_of(self.value, 16)
    }

    /// The 32 lower-case hexadecimal digits of this identifier.
    pub fn to_hex(&self) -> (text: String)
        ensures
            text@ == hex_of(*self),
    {
        hex_text(self.value, 32)
    }

    /// The identifier written by `text`, which must hold exactly 32 lower-case
    /// hexadecimal digits.
    pub fn from_hex(text: &str) -> (id: Option<Id>)
        ensures
            id == id_of_hex(text@),
    {
        let chars = chars_of(text);
        if chars.len() != 32 {
            return None;
        }
        let mut value: u128 = 0;
        let mut i: usize = 0;
        assert(chars@.take(0) =~= Seq::<char>::empty());
        while i < 32
            invariant
                i <= 32,
                chars@ == text@,
                chars.len() == 32,
                hex_value(chars@.take(i as int)) == Some(value as nat),
            decreases 32 - i,
        {
            let ghost next = chars@.take(i + 1);
            proof {
                assert(next.drop_last() =~= chars@.take(i as int));
                lemma_hex_value_bound(next);
                lemma_pow_16_le(next.len(), 32);
                lemma_pow_16_32();
            }
            match hex_digit_of(chars[i]) {
                Some(d) => {
                    value = value * 16 + d as u128;
                }
                None => {
                    proof {
                        lemma_hex_value_none(chars@, i as int);
                    }
                    return None;
                }
            }
            i += 1;
        }
        assert(chars@.take(32) =~= chars@);
        Some(Id { value })
    }
}

proof fn lemma_pow_256_le(a: nat, b: nat)
    requires
        a <= b,
    ensures
        pow_nat(256, a) <= pow_nat(256, b),
    decreases b,
{
    if a < b {
        lemma_pow_256_le(a, (b - 1) as nat);
    }
}

proof fn lemma_pow_16_le(a: nat, b: nat)
    requires
        a <= b,
    ensures
        pow_nat(16, a) <= pow_nat(16, b),
    decreases b,
{
    if a < b {
        lemma_pow_16_le(a, (b - 1) as nat);
    }
}

/// A text with a character that is no digit has no value.
proof fn lemma_hex_value_none(text: Seq<char>, i: int)
    requires
        0 <= i < text.len(),
        hex_digit_value(text[i]) is None,
    ensures
        hex_value(text) is None,
    decreases text.len(),
{
    if i < text.len() - 1 {
        lemma_hex_value_none(text.drop_last(), i);
    }
}

fn hex_digit_of(c: char) -> (d: Option<u32>)
    ensures
        match d {
            Some(d) => hex_digit_value(c) == Some(d as nat),
            None => hex_digit_value(c) is None,
        },
{
    let n = c as u32;
    if '0' as u32 <= n && n <= '9' as u32 {
        Some(n - '0' as u32)
    } else if 'a' as u32 <= n && n <= 'f' as u32 {
        Some(n - 'a' as u32 + 10)
    } else {
        None
    }
}

pub(crate) fn bytes_of(x: u128, n: usize) -> (bytes: Vec<u8>)
    ensures
        bytes@ == big_endian(x as nat, n as nat),
    decreases n,
{
    if n == 0 {
        Vec::new()
    } else {
        let mut bytes = bytes_of(x / 256, n - 1);
        bytes.push((x % 256) as u8);
        bytes
    }
}

fn hex_digit_text(d: u128) -> (s: &'static str)
    requires
        d < 16,
    ensures
        s@ == seq![hex_digit(d as nat)],
{
    proof {
        reveal_strlit("0");
        reveal_strlit("1");
        reveal_strlit("2");
        reveal_strlit("3");
        reveal_strlit("4");
        reveal_strlit("5");
        reveal_strlit("6");
        reveal_strlit("7");
        reveal_strlit("8");
        reveal_strlit("9");
        reveal_strlit("a");
        reveal_strlit("b");
        reveal_strlit("c");
        reveal_strlit("d");
        reveal_strlit("e");
        reveal_strlit("f");
    }
    let s = match d {
        0 => "0",
        1 => "1",
        2 => "2",
        3 => "3",
        4 => "4",
        5 => "5",
        6 => "6",
        7 => "7",
        8 => "8",
        9 => "9",
        10 => "a",
        11 => "b",
        12 => "c",
        13 => "d",
        14 => "e",
        _ => "f",
    };
    assert(s@ =~= seq![hex_digit(d as nat)]);
    s
}

fn hex_text(x: u128, n: usize) -> (text: String)
    ensures
        text@ == hex_digits(x as nat, n as nat),
    decreases n,
{
    if n == 0 {
        String::new()
    } else {
        let mut text = hex_text(x / 16, n - 1);
        text.append(hex_digit_text(x % 16));
        assert(text@ =~= hex_digits(x as nat, n as nat));
        text
    }
}

} // verus!

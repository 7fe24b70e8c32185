//! The value of a transaction: an unsigned integer of 256 bits, and the
//! bytes that stand for it in a condition.

use vstd::prelude::*;
use vstd::std_specs::convert::FromSpec;

verus! {

/// An unsigned integer of 256 bits, held as four words of 64 bits, the least
/// significant first.
#[derive(Clone, Copy, Debug)]
pub struct U256 {
    pub limbs: [u64; 4],
}

/// The number that four words stand for, the least significant first.
pub open spec fn limbs_value(limbs: Seq<u64>) -> nat {
    (limbs[0] + limbs[1] * 0x1_0000_0000_0000_0000 + limbs[2]
        * 0x1_0000_0000_0000_0000_0000_0000_0000_0000 + limbs[3]
        * 0x1_0000_0000_0000_0000_0000_0000_0000_0000_0000_0000_0000_0000) as nat
}

impl View for U256 {
    type V = nat;

    open spec fn view(&self) -> nat {
        limbs_value(self.limbs@)
    }
}

impl From<u64> for U256 {
    fn from(v: u64) -> (ret: U256) {
        U256 { limbs: [v, 0, 0, 0] }
    }
}

impl vstd::std_specs::convert::FromSpecImpl<u64> for U256 {
    open spec fn obeys_from_spec() -> bool {
        true
    }

    open spec fn from_spec(v: u64) -> U256 {
        U256 { limbs: [v, 0, 0, 0] }
    }
}

impl U256 {
    /// The integer with the given words, the least significant first.
    pub fn from_limbs(limbs: [u64; 4]) -> (u: U256)
        ensures
            u.limbs == limbs,
            u@ == limbs_value(limbs@),
    {
        U256 { limbs }
    }

    /// Whether the integer is zero.
    pub fn is_zero(&self) -> (b: bool)
        ensures
            b == (self@ == 0),
    {
        self.limbs[0] == 0 && self.limbs[1] == 0 && self.limbs[2] == 0 && self.limbs[3] == 0
    }
}

/// The integer that a word of 64 bits converts to is that word.
pub proof fn lemma_from_u64(v: u64)
    ensures
        U256::from_spec(v)@ == v as nat,
{
}

/// The shortest big-endian bytes of `n`: no byte for zero, and otherwise no
/// zero byte in front.
pub open spec fn be_bytes(n: nat) -> Seq<u8>
    decreases n,
{
    if n == 0 {
        Seq::empty()
    } else {
        be_bytes(n / 256).push((n % 256) as u8)
    }
}

/// The number that bytes stand for, the most significant first.
pub open spec fn be_value(bytes: Seq<u8>) -> nat
    decreases bytes.len(),
{
    if bytes.len() == 0 {
        0
    } else {
        be_value(bytes.drop_last()) * 256 + bytes.last() as nat
    }
}

/// The character, as a byte, of the hexadecimal digit `d` in lower case.
pub open spec fn hex_digit(d: nat) -> u8 {
    if d < 10 {
        (48 + d) as u8
    } else {
        (87 + d) as u8
    }
}

/// The hexadecimal digits of `n` in lower case, the most significant first,
/// with no zero in front; none at all for zero.
pub open spec fn hex_digits(n: nat) -> Seq<u8>
    decreases n,
{
    if n == 0 {
        Seq::empty()
    } else {
        hex_digits(n / 16).push(hex_digit(n % 16))
    }
}

/// What `{:x}` writes for `n`: its hexadecimal digits, and `0` for zero.
pub open spec fn lower_hex(n: nat) -> Seq<u8> {
    if n == 0 {
        seq![48u8]
    } else {
        hex_digits(n)
    }
}

/// The number that a hexadecimal digit, given as a byte, stands for.
pub open spec fn hex_value(c: u8) -> Option<nat> {
    if 48 <= c <= 57 {
        Some((c - 48) as nat)
    } else if 97 <= c <= 102 {
        Some((c - 87) as nat)
    } else if 65 <= c <= 70 {
        Some((c - 55) as nat)
    } else {
        None
    }
}

/// Text that decodes: an even number of hexadecimal digits.
pub open spec fn is_hex_text(text: Seq<u8>) -> bool {
    &&& text.len() % 2 == 0
    &&& forall|i: int| 0 <= i < text.len() ==> hex_value(#[trigger] text[i]) is Some
}

/// The bytes that hexadecimal text stands for, two digits to a byte.
pub open spec fn hex_decoded(text: Seq<u8>) -> Seq<u8> {
    Seq::new(
        (text.len() / 2) as nat,
        |i: int| (16 * hex_value(text[2 * i])->0 + hex_value(text[2 * i + 1])->0) as u8,
    )
}

/// Hexadecimal text brought to an even length by one `0` in front.
pub open spec fn padded(text: Seq<u8>) -> Seq<u8> {
    if text.len() % 2 == 1 {
        seq![48u8] + text
    } else {
        text
    }
}

/// `hex::FromHexError`, the error of `hex::decode`. Nothing is claimed of
/// what it holds.
#[verifier::external_type_specification]
#[verifier::external_body]
pub struct ExFromHexError(hex::FromHexError);

/// `{:x}` of `ethers::types::U256`. The contract claims that the text is the
/// hexadecimal digits of the integer in lower case, the most significant
/// first, with no prefix and no zero in front, and the one digit `0` for
/// zero.
#[verifier::external_body]
fn lower_hex_text(u: &U256) -> (text: Vec<u8>)
    ensures
        text@ == lower_hex(u@),
{
    format!("{:x}", ethers::types::U256(u.limbs)).into_bytes()
}

/// `hex::decode`. The contract claims that it succeeds exactly on an even
/// number of hexadecimal digits, of either case, and that each pair of
/// digits then gives one byte, the first digit being the upper half.
#[verifier::external_body]
fn hex_decode(text: &Vec<u8>) -> (res: Result<Vec<u8>, hex::FromHexError>)
    ensures
        res is Ok <==> is_hex_text(text@),
        res matches Ok(bytes) ==> bytes@ == hex_decoded(text@),
{
    hex::decode(text)
}

/// The digits of a number, padded to an even length, decode to its shortest
/// big-endian bytes.
pub proof fn lemma_hex_digits_decode(n: nat)
    ensures
        is_hex_text(padded(hex_digits(n))),
        hex_decoded(padded(hex_digits(n))) == be_bytes(n),
    decreases n,
{
    if 0 < n < 16 {
        // One digit: padded, it is `0` and that digit, which is one byte.
        assert(hex_digits(n / 16) =~= Seq::<u8>::empty());
        assert(be_bytes(n / 256) =~= Seq::<u8>::empty());
    } else if n >= 16 {
        // The last two digits are the last byte, and the digits in front of
        // them are those of the bytes in front of it.
        let m = n / 256;
        lemma_hex_digits_decode(m);
        let front = padded(hex_digits(m));
        let text = padded(hex_digits(n));
        assert(hex_digits(n / 16) == hex_digits(m).push(hex_digit((n / 16) % 16)));
        assert forall|i: int| 0 <= i < text.len() implies hex_value(#[trigger] text[i]) is Some by {
            if i < front.len() {
                assert(text[i] == front[i]);
            }
        }
        assert forall|i: int| 0 <= i < be_bytes(n).len() implies hex_decoded(text)[i] == be_bytes(
            n,
        )[i] by {
            if i < be_bytes(m).len() {
                assert(hex_decoded(front)[i] == be_bytes(m)[i]);
            }
        }
    }
}

/// The bytes of a value condition: the shortest big-endian bytes of `u`.
pub fn from_u256(u: U256) -> (bytes: Vec<u8>)
    ensures
        bytes@ == be_bytes(u@),
{
    if u.is_zero() {
        return Vec::new();
    }
    let mut text = lower_hex_text(&u);
    if text.len() % 2 == 1 {
        text.insert(0, 48u8);
    }
    proof {
        lemma_hex_digits_decode(u@);
        assert(text@ =~= padded(hex_digits(u@)));
    }
    hex_decode(&text).unwrap()
}

/// The shortest big-endian bytes of a number stand for that number.
pub proof fn lemma_be_bytes_value(n: nat)
    ensures
        be_value(be_bytes(n)) == n,
    decreases n,
{
    if n > 0 {
        lemma_be_bytes_value(n / 256);
        assert(be_bytes(n).drop_last() =~= be_bytes(n / 256));
    }
}

/// The shortest big-endian bytes of a number do not start with a zero byte.
pub proof fn lemma_be_bytes_minimal(n: nat)
    ensures
        n > 0 ==> be_bytes(n).len() > 0 && be_bytes(n)[0] != 0,
    decreases n,
{
    if n >= 256 {
        lemma_be_bytes_minimal(n / 256);
    } else if n > 0 {
        assert(be_bytes(n / 256) =~= Seq::<u8>::empty());
    }
}

} // verus!

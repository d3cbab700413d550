//! The canonical text of an identity.
//!
//! An identity is a 128-bit number. Its canonical text is 36 bytes long: the
//! 32 hexadecimal digits of the number, most significant first and in lower
//! case, in groups of 8, 4, 4, 4 and 12 digits with a hyphen between groups.

use vstd::prelude::*;
use vstd::string::*;

verus! {

/// Length in bytes of the canonical text of an identity.
pub const IDENTITY_WIDTH: usize = 36;

/// The ASCII code of the hyphen.
pub const HYPHEN: u8 = 45;

/// The lower-case hexadecimal digit that stands for `n`.
pub open spec fn hex_digit(n: int) -> u8 {
    if n < 10 {
        (48 + n) as u8
    } else {
        (87 + n) as u8
    }
}

/// The value of a hexadecimal digit, written in either case.
pub open spec fn hex_value(b: u8) -> Option<int> {
    if 48 <= b <= 57 {
        Some(b - 48)
    } else if 97 <= b <= 102 {
        Some(b - 87)
    } else if 65 <= b <= 70 {
        Some(b - 55)
    } else {
        None
    }
}

/// `x` without its `k` lowest hexadecimal digits.
pub open spec fn shifted(x: int, k: nat) -> int
    decreases k,
{
    if k == 0 {
        x
    } else {
        shifted(x, (k - 1) as nat) / 16
    }
}

/// The `i`-th of the 32 hexadecimal digits of `id`, counted from the most
/// significant one.
pub open spec fn nibble(id: u128, i: int) -> int {
    shifted(id as int, (31 - i) as nat) % 16
}

/// Whether a hyphen stands at position `p` of the canonical text.
pub open spec fn is_hyphen_position(p: int) -> bool {
    p == 8 || p == 13 || p == 18 || p == 23
}

/// The position in the canonical text of the `i`-th digit.
pub open spec fn digit_position(i: int) -> int {
    i + if i >= 20 {
        4int
    } else if i >= 16 {
        3int
    } else if i >= 12 {
        2int
    } else if i >= 8 {
        1int
    } else {
        0int
    }
}

/// Which digit stands at position `p` of the canonical text.
pub open spec fn digit_index(p: int) -> int {
    p - if p > 23 {
        4int
    } else if p > 18 {
        3int
    } else if p > 13 {
        2int
    } else if p > 8 {
        1int
    } else {
        0int
    }
}

/// The canonical text of `id`.
pub open spec fn uuid_text(id: u128) -> Seq<u8> {
    Seq::new(
        36,
        |p: int|
            if is_hyphen_position(p) {
                HYPHEN
            } else {
                hex_digit(nibble(id, digit_index(p)))
            },
    )
}

/// Whether `text` has the shape of a canonical text: 36 bytes, hyphens in
/// their four places and a hexadecimal digit, in either case, everywhere
/// else.
pub open spec fn is_hyphenated(text: Seq<u8>) -> bool {
    &&& text.len() == 36
    &&& forall|p: int| is_hyphen_position(p) ==> #[trigger] text[p] == HYPHEN
    &&& forall|i: int| 0 <= i < 32 ==> hex_value(#[trigger] text[digit_position(i)]) is Some
}

/// The number that the first `n` digits of `text` stand for.
pub open spec fn digits_value(text: Seq<u8>, n: nat) -> int
    decreases n,
{
    if n == 0 {
        0
    } else {
        digits_value(text, (n - 1) as nat) * 16 + hex_value(text[digit_position(n - 1)]).unwrap()
    }
}

/// The identity that `text` stands for, if it has the shape of one.
pub open spec fn uuid_value(text: Seq<u8>) -> Option<u128> {
    if is_hyphenated(text) {
        Some(digits_value(text, 32) as u128)
    } else {
        None
    }
}

proof fn lemma_shifted_bound(x: int, k: nat)
    requires
        0 <= x,
    ensures
        0 <= shifted(x, k) <= x,
        shifted(x, k) * vstd::arithmetic::power::pow(16, k) <= x,
    decreases k,
{
    reveal(vstd::arithmetic::power::pow);
    if k > 0 {
        let y = shifted(x, (k - 1) as nat);
        let p = vstd::arithmetic::power::pow(16, (k - 1) as nat);
        lemma_shifted_bound(x, (k - 1) as nat);
        vstd::arithmetic::power::lemma_pow_positive(16, (k - 1) as nat);
        assert((y / 16) * (16 * p) <= y * p) by (nonlinear_arith)
            requires
                0 <= y,
                0 < p,
        ;
    }
}

proof fn lemma_shifted_out(id: u128)
    ensures
        shifted(id as int, 32) == 0,
{
    lemma_shifted_bound(id as int, 32);
    assert(vstd::arithmetic::power::pow(16, 32) == 0x1_0000_0000_0000_0000_0000_0000_0000_0000int)
        by {
        reveal_with_fuel(vstd::arithmetic::power::pow, 33);
    }
    let s = shifted(id as int, 32);
    assert(s == 0) by (nonlinear_arith)
        requires
            0 <= s,
            s * 0x1_0000_0000_0000_0000_0000_0000_0000_0000int <= id,
            id < 0x1_0000_0000_0000_0000_0000_0000_0000_0000int,
    ;
}

proof fn lemma_digits_of_text(id: u128, n: nat)
    requires
        n <= 32,
    ensures
        digits_value(uuid_text(id), n) == shifted(id as int, (32 - n) as nat),
    decreases n,
{
    if n == 0 {
        lemma_shifted_out(id);
    } else {
        lemma_digits_of_text(id, (n - 1) as nat);
        let i = n - 1;
        let y = shifted(id as int, (31 - i) as nat);
        lemma_shifted_bound(id as int, (31 - i) as nat);
        assert(shifted(id as int, (32 - i) as nat) == y / 16);
        assert(digit_index(digit_position(i)) == i);
        assert(!is_hyphen_position(digit_position(i)));
        assert(uuid_text(id)[digit_position(i)] == hex_digit(nibble(id, i)));
        assert(hex_value(hex_digit(y % 16)) == Some(y % 16));
    }
}

/// The canonical text of an identity has the shape of one, and stands for
/// that identity.
pub proof fn lemma_identity_round_trip(id: u128)
    ensures
        uuid_text(id).len() == 36,
        is_hyphenated(uuid_text(id)),
        uuid_value(uuid_text(id)) == Some(id),
        forall|p: int| 0 <= p < 36 ==> #[trigger] uuid_text(id)[p] < 128,
{
    let text = uuid_text(id);
    assert forall|i: int| 0 <= i < 32 implies hex_value(#[trigger] text[digit_position(i)])
        is Some by {
        let y = shifted(id as int, (31 - i) as nat);
        lemma_shifted_bound(id as int, (31 - i) as nat);
        assert(digit_index(digit_position(i)) == i);
        assert(!is_hyphen_position(digit_position(i)));
        assert(text[digit_position(i)] == hex_digit(y % 16));
    }
    assert forall|p: int| 0 <= p < 36 implies #[trigger] text[p] < 128 by {
        if !is_hyphen_position(p) {
            let y = shifted(id as int, (31 - digit_index(p)) as nat);
            lemma_shifted_bound(id as int, (31 - digit_index(p)) as nat);
            assert(text[p] == hex_digit(y % 16));
        }
    }
    lemma_digits_of_text(id, 32);
}

/// Writes an identity in its canonical form.
///
/// Trusted: the body formats a `uuid::Uuid` made from the number with its
/// `Display` impl, which writes the hyphenated lower-case form. The contract
/// claims that the bytes written are exactly `uuid_text`.
#[verifier::external_body]
pub(crate) fn write_identity(id: u128) -> (text: Vec<u8>)
    ensures
        text@ == uuid_text(id),
{
    uuid::Uuid::from_u128(id).to_string().into_bytes()
}

/// Reads an identity from 36 bytes of text.
///
/// Trusted: the body calls `uuid::Uuid::parse_str`. On an input of 36 bytes
/// that parser accepts the hyphenated form alone, with digits in either
/// case; the contract claims that its answer is `uuid_value`.
#[verifier::external_body]
pub(crate) fn read_identity(text: &str) -> (id: Option<u128>)
    requires
        text.spec_bytes().len() == 36,
    ensures
        id == uuid_value(text.spec_bytes()),
{
    match uuid::Uuid::parse_str(text) {
        Ok(u) => Some(u.as_u128()),
        Err(_) => None,
    }
}

} // verus!

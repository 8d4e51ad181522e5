//! Document identifiers and modification times as plain values.
//!
//! An identifier is the 128-bit number of a UUID, most significant byte
//! first. Its text is read and written by the `uuid` crate.

use uuid::Uuid;
use vstd::prelude::*;

verus! {

/// What `Uuid::parse_str` makes of `text`: the number of the identifier that
/// the text writes, or `None` where the text is refused.
pub uninterp spec fn uuid_parse(text: Seq<char>) -> Option<u128>;

/// `Uuid::parse_str`, with the identifier handed out as its number
/// (`Uuid::as_u128`) and the error dropped. The result depends on the text
/// alone and is named `uuid_parse`.
#[verifier::external_body]
pub(crate) fn parse_id(text: &str) -> (r: Option<u128>)
    ensures
        r == uuid_parse(text@),
{
    match Uuid::parse_str(text) {
        Ok(id) => Some(id.as_u128()),
        Err(_) => None,
    }
}

/// 16 to the power `e`.
pub open spec fn pow16(e: int) -> int
    decreases e,
{
    if e <= 0 {
        1
    } else {
        16 * pow16(e - 1)
    }
}

/// The hexadecimal digit of `id` at position `k`, where 0 is the most
/// significant of the 32.
pub open spec fn nibble(id: u128, k: int) -> int {
    (id as int / pow16(31 - k)) % 16
}

/// The lower-case character of a hexadecimal digit.
pub open spec fn hex_char(digit: int) -> char {
    if digit < 10 {
        ('0' as int + digit) as char
    } else {
        ('a' as int + digit - 10) as char
    }
}

/// How many hyphens stand before position `i` of an identifier's text.
pub open spec fn hyphens_before(i: int) -> int {
    if i < 8 {
        0
    } else if i < 13 {
        1
    } else if i < 18 {
        2
    } else if i < 23 {
        3
    } else {
        4
    }
}

/// The text of an identifier: its 32 lower-case hexadecimal digits in groups
/// of 8, 4, 4, 4 and 12, with a hyphen between two groups.
pub open spec fn id_text(id: u128) -> Seq<char> {
    Seq::new(
        36,
        |i: int|
            if i == 8 || i == 13 || i == 18 || i == 23 {
                '-'
            } else {
                hex_char(nibble(id, i - hyphens_before(i)))
            },
    )
}

/// 16 to a power is positive.
pub proof fn lemma_pow16_positive(e: int)
    ensures
        pow16(e) > 0,
    decreases e,
{
    if e > 0 {
        lemma_pow16_positive(e - 1);
    }
}

/// What is left of `id` when its last `32 - k` hexadecimal digits are cut off.
pub open spec fn leading(id: u128, k: int) -> int {
    id as int / pow16(32 - k)
}

/// The leading digits with one more: sixteen times the leading digits, and
/// the next digit.
proof fn lemma_leading_step(id: u128, k: int)
    requires
        0 <= k < 32,
    ensures
        leading(id, k + 1) == 16 * leading(id, k) + nibble(id, k),
        0 <= nibble(id, k) < 16,
{
    let m = pow16(31 - k);
    lemma_pow16_positive(31 - k);
    assert(pow16(32 - k) == 16 * m);
    let q = id as int / m;
    vstd::arithmetic::div_mod::lemma_div_denominator(id as int, m, 16);
    assert(q / 16 == id as int / (m * 16));
    assert(m * 16 == 16 * m);
    vstd::arithmetic::div_mod::lemma_fundamental_div_mod(q, 16);
    vstd::arithmetic::div_mod::lemma_div_pos_is_pos(id as int, m);
}

/// Two identifiers with the same leading digits up to `k` places.
proof fn lemma_leading_equal(a: u128, b: u128, k: int)
    requires
        0 <= k <= 32,
        forall|j: int| 0 <= j < 32 ==> nibble(a, j) == nibble(b, j),
    ensures
        leading(a, k) == leading(b, k),
    decreases k,
{
    if k == 0 {
        assert(pow16(32) == 0x1_0000_0000_0000_0000_0000_0000_0000_0000) by {
            reveal_with_fuel(pow16, 33);
        }
        assert(leading(a, 0) == 0);
        assert(leading(b, 0) == 0);
    } else {
        lemma_leading_equal(a, b, k - 1);
        lemma_leading_step(a, k - 1);
        lemma_leading_step(b, k - 1);
    }
}

/// Where in an identifier's text the hexadecimal digit `k` stands.
pub open spec fn digit_place(k: int) -> int {
    if k < 8 {
        k
    } else if k < 12 {
        k + 1
    } else if k < 16 {
        k + 2
    } else if k < 20 {
        k + 3
    } else {
        k + 4
    }
}

/// Different identifiers have different texts.
pub proof fn lemma_id_text_differs(a: u128, b: u128)
    requires
        a != b,
    ensures
        id_text(a) != id_text(b),
        id_text(a).len() == 36,
        id_text(b).len() == 36,
{
    if id_text(a) == id_text(b) {
        assert forall|j: int| 0 <= j < 32 implies nibble(a, j) == nibble(b, j) by {
            let i = digit_place(j);
            assert(i - hyphens_before(i) == j);
            assert(id_text(a)[i] == hex_char(nibble(a, j)));
            assert(id_text(b)[i] == hex_char(nibble(b, j)));
            lemma_leading_step(a, j);
            lemma_leading_step(b, j);
        }
        lemma_leading_equal(a, b, 32);
        assert(pow16(0) == 1);
        assert(leading(a, 32) == a);
        assert(leading(b, 32) == b);
    }
}

/// `Uuid`'s `Display`, on the identifier with the number `id`
/// (`Uuid::from_u128`): the hyphenated lower-case form.
#[verifier::external_body]
pub(crate) fn id_to_text(id: u128) -> (r: String)
    ensures
        r@ == id_text(id),
{
    Uuid::from_u128(id).to_string()
}

/// A point in time: whole seconds since the Unix epoch, and the nanoseconds
/// into that second. Two are the same moment exactly when both fields agree.
#[derive(Clone, Copy, Debug, PartialEq, Eq, Structural)]
pub struct Timestamp {
    pub secs: i64,
    pub nanos: u32,
}

impl Timestamp {
    /// Whether `self` is `other` or later.
    pub open spec fn at_or_after(self, other: Timestamp) -> bool {
        self.secs > other.secs || (self.secs == other.secs && self.nanos >= other.nanos)
    }

    /// Whether `self` is `other` or later.
    pub fn not_before(&self, other: &Timestamp) -> (r: bool)
        ensures
            r == self.at_or_after(*other),
    {
        self.secs > other.secs || (self.secs == other.secs && self.nanos >= other.nanos)
    }
}

} // verus!

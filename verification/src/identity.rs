//! Identities: the numbers that name sessions and invocations, and their texts.
use vstd::prelude::*;

use crate::text::{less_at, text_less};

verus! {

/// The value of one base-32 digit; small letters count as capital ones.
pub open spec fn base32_value(c: char) -> Option<nat> {
    let n = c as u32;
    if 48 <= n <= 57 {
        Some((n - 48) as nat)
    } else if 65 <= n <= 72 {
        Some((n - 55) as nat)
    } else if 97 <= n <= 104 {
        Some((n - 87) as nat)
    } else if n == 74 || n == 75 {
        Some((n - 56) as nat)
    } else if n == 106 || n == 107 {
        Some((n - 88) as nat)
    } else if n == 77 || n == 78 {
        Some((n - 57) as nat)
    } else if n == 109 || n == 110 {
        Some((n - 89) as nat)
    } else if 80 <= n <= 84 {
        Some((n - 58) as nat)
    } else if 112 <= n <= 116 {
        Some((n - 90) as nat)
    } else if 86 <= n <= 90 {
        Some((n - 59) as nat)
    } else if 118 <= n <= 122 {
        Some((n - 91) as nat)
    } else {
        None
    }
}

/// The base-32 digit of a value: digits, then the capital letters without I, L, O and U.
pub open spec fn base32_char(d: nat) -> char {
    (if d < 10 {
        48 + d
    } else if d < 18 {
        55 + d
    } else if d < 20 {
        56 + d
    } else if d < 22 {
        57 + d
    } else if d < 27 {
        58 + d
    } else {
        59 + d
    }) as u32 as char
}

/// The `width` lowest base-32 digits of `n`.
pub open spec fn base32(n: nat, width: nat) -> Seq<char>
    decreases width,
{
    if width == 0 {
        Seq::empty()
    } else {
        base32(n / 32, (width - 1) as nat).push(base32_char(n % 32))
    }
}

/// The number that base-32 digits stand for.
pub open spec fn base32_number(s: Seq<char>) -> nat
    decreases s.len(),
{
    if s.len() == 0 {
        0
    } else {
        base32_number(s.drop_last()) * 32 + match base32_value(s.last()) {
            Some(value) => value,
            None => 0,
        }
    }
}

/// The text of an identity: its twenty-six base-32 digits.
pub open spec fn ulid_text_of(value: u128) -> Seq<char> {
    base32(value as nat, 26)
}

/// The identity that a text stands for. Twenty-six digits can stand for more than 128 bits; what
/// does not fit is dropped.
pub open spec fn ulid_of(s: Seq<char>) -> Option<u128> {
    if s.len() == 26 && (forall|i: int|
        0 <= i < s.len() ==> (#[trigger] base32_value(s[i])) is Some) {
        Some((base32_number(s) % 0x1_0000_0000_0000_0000_0000_0000_0000_0000nat) as u128)
    } else {
        None
    }
}

/// `ulid::Ulid::to_string`: the twenty-six base-32 digits of the number.
#[verifier::external_body]
pub(crate) fn ulid_text(value: u128) -> (r: String)
    ensures
        r@ == ulid_text_of(value),
{
    ulid::Ulid(value).to_string()
}

/// `ulid::Ulid::from_string`: the number that twenty-six base-32 digits stand for; anything else is
/// refused.
#[verifier::external_body]
pub(crate) fn parse_ulid(text: &str) -> (r: Option<u128>)
    ensures
        r == ulid_of(text@),
{
    ulid::Ulid::from_string(text).ok().map(|ulid| ulid.0)
}

/// `ulid::Ulid::new`: a fresh identity, from the time and from chance. Nothing is said of its
/// value.
#[verifier::external_body]
fn fresh_ulid() -> (r: u128) {
    ulid::Ulid::new().0
}

/// Makes identities that the agent owns. Event identities belong to the session log.
pub trait IdGenerator {
    /// Whether there are identities left.
    spec fn has_next(&self) -> bool;

    fn next(&mut self) -> String
        requires
            old(self).has_next(),
    ;
}

/// Makes identities that grow from call to call.
#[derive(Debug)]
pub struct UlidGenerator {
    pub last: u128,
}

impl UlidGenerator {
    pub fn new() -> (r: UlidGenerator)
        ensures
            r.last == 0,
    {
        UlidGenerator { last: 0 }
    }

    /// The identity to hand out when `generated` was drawn: that one, or the next after the last
    /// where it is not larger.
    pub fn after(&mut self, generated: u128) -> (r: u128)
        requires
            generated > old(self).last || old(self).last < u128::MAX,
        ensures
            r == (if generated > old(self).last {
                generated as int
            } else {
                old(self).last + 1
            }),
            final(self).last == r,
            r > old(self).last,
    {
        let next: u128 = if generated > self.last {
            generated
        } else {
            self.last + 1
        };
        self.last = next;
        next
    }

    /// The text of a fresh identity, larger than all before.
    pub fn new_ulid(&mut self) -> (r: String)
        requires
            old(self).last < u128::MAX,
        ensures
            final(self).last > old(self).last,
            r@ == ulid_text_of(final(self).last),
    {
        let generated: u128 = fresh_ulid();
        let next: u128 = self.after(generated);
        ulid_text(next)
    }
}

/// The identities of a running agent.
#[derive(Debug)]
pub struct SystemIdGenerator {
    pub ids: UlidGenerator,
}

impl IdGenerator for SystemIdGenerator {
    open spec fn has_next(&self) -> bool {
        self.ids.last < u128::MAX
    }

    fn next(&mut self) -> (r: String)
        ensures
            final(self).ids.last > old(self).ids.last,
            r@ == ulid_text_of(final(self).ids.last),
    {
        self.ids.new_ulid()
    }
}

/// Identities that count up from a first one, for runs that can be repeated.
#[derive(Debug)]
pub struct DeterministicIds {
    pub next_value: u64,
}

/// The number of the identity that stands for a count.
pub open spec fn counted(value: u64) -> u128 {
    (0x1_0000_0000_0000_0000_0000u128 + value) as u128
}

impl DeterministicIds {
    pub fn new(first: u64) -> (r: DeterministicIds)
        ensures
            r.next_value == first,
    {
        DeterministicIds { next_value: first }
    }
}

impl Default for DeterministicIds {
    fn default() -> (r: DeterministicIds)
        ensures
            r.next_value == 1,
    {
        DeterministicIds::new(1)
    }
}

impl IdGenerator for DeterministicIds {
    open spec fn has_next(&self) -> bool {
        true
    }

    fn next(&mut self) -> (r: String)
        ensures
            r@ == ulid_text_of(counted(old(self).next_value)),
            final(self).next_value == (if old(self).next_value == u64::MAX {
                0
            } else {
                old(self).next_value + 1
            }),
    {
        let value: u64 = self.next_value;
        self.next_value = if value == u64::MAX {
            0
        } else {
            value + 1
        };
        ulid_text(0x1_0000_0000_0000_0000_0000u128 + value as u128)
    }
}

spec fn pow32(n: nat) -> nat
    decreases n,
{
    if n == 0 {
        1
    } else {
        32 * pow32((n - 1) as nat)
    }
}

proof fn lemma_base32_digit(d: nat)
    requires
        d < 32,
    ensures
        base32_value(base32_char(d)) == Some(d),
        forall|e: nat| d < e < 32 ==> base32_char(d) < #[trigger] base32_char(e),
{
}

proof fn lemma_base32(n: nat, width: nat)
    ensures
        base32(n, width).len() == width,
        forall|i: int|
            0 <= i < width ==> (#[trigger] base32_value(base32(n, width)[i])) is Some,
        n < pow32(width) ==> base32_number(base32(n, width)) == n,
    decreases width,
{
    if width > 0 {
        lemma_base32(n / 32, (width - 1) as nat);
        lemma_base32_digit(n % 32);
        let s = base32(n, width);
        let rest = base32(n / 32, (width - 1) as nat);
        assert(s.drop_last() =~= rest);
        assert(s.last() == base32_char(n % 32));
        assert forall|i: int| 0 <= i < width implies (#[trigger] base32_value(s[i])) is Some by {
            if i < width - 1 {
                assert(s[i] == rest[i]);
            }
        }
        if n < pow32(width) {
            assert(n / 32 < pow32((width - 1) as nat));
        }
    }
}

/// The text of an identity stands for that identity.
pub proof fn identity_text_round_trips(value: u128)
    ensures
        ulid_of(ulid_text_of(value)) == Some(value),
{
    lemma_base32(value as nat, 26);
    reveal_with_fuel(pow32, 27);
}

/// The first digit in which two numbers differ.
proof fn lemma_base32_order(a: nat, b: nat, width: nat) -> (at: int)
    requires
        a < b < pow32(width),
    ensures
        0 <= at < width,
        forall|i: int| 0 <= i < at ==> #[trigger] base32(a, width)[i] == base32(b, width)[i],
        base32(a, width)[at] < base32(b, width)[at],
    decreases width,
{
    if width == 0 {
        0
    } else {
        let w = (width - 1) as nat;
        lemma_base32(a / 32, w);
        lemma_base32(b / 32, w);
        let x = base32(a / 32, w);
        let y = base32(b / 32, w);
        if a / 32 < b / 32 {
            let at = lemma_base32_order(a / 32, b / 32, w);
            assert(base32(a, width)[at] == x[at] && base32(b, width)[at] == y[at]);
            assert forall|i: int| 0 <= i < at implies #[trigger] base32(a, width)[i] == base32(
                b,
                width,
            )[i] by {
                assert(x[i] == y[i]);
            }
            at
        } else {
            assert(a / 32 == b / 32);
            lemma_base32_digit(a % 32);
            lemma_base32_digit(b % 32);
            assert(base32(a, width)[w as int] == base32_char(a % 32));
            assert(base32(b, width)[w as int] == base32_char(b % 32));
            w as int
        }
    }
}

/// Larger identities have texts that come later: what the generator hands out is in order as text
/// too.
pub proof fn identity_texts_are_ordered(a: u128, b: u128)
    requires
        a < b,
    ensures
        text_less(ulid_text_of(a), ulid_text_of(b)),
{
    reveal_with_fuel(pow32, 27);
    let at = lemma_base32_order(a as nat, b as nat, 26);
    lemma_base32(a as nat, 26);
    lemma_base32(b as nat, 26);
    less_at(ulid_text_of(a), ulid_text_of(b), at);
}

/// The digits of an identity are the decimal digits and the capital letters without I, L, O and U,
/// in their order; small letters count as capital ones, and nothing else is a digit.
pub proof fn digits_leave_out_four_letters(c: char)
    ensures
        base32_value('0') == Some(0nat) && base32_value('9') == Some(9nat) && base32_value('A')
            == Some(10nat) && base32_value('H') == Some(17nat) && base32_value('J') == Some(18nat)
            && base32_value('M') == Some(20nat) && base32_value('P') == Some(22nat)
            && base32_value('V') == Some(27nat) && base32_value('Z') == Some(31nat),
        base32_value(c) is Some ==> {
            ||| '0' <= c <= '9'
            ||| 'A' <= c <= 'Z' && c != 'I' && c != 'L' && c != 'O' && c != 'U'
            ||| 'a' <= c <= 'z' && c != 'i' && c != 'l' && c != 'o' && c != 'u'
        },
        '0' <= c <= '9' || ('A' <= c <= 'Z' && c != 'I' && c != 'L' && c != 'O' && c != 'U')
            ==> base32_value(c) is Some,
        'a' <= c <= 'z' ==> base32_value(c) == base32_value(((c as u32) - 32) as char),
{
}

/// An identity is twenty-six digits; a text of any other length, or with anything else in it, is
/// none. Counted identities follow one another.
pub proof fn identities_are_twenty_six_digits(s: Seq<char>, value: u128, count: u64)
    ensures
        ulid_text_of(value).len() == 26,
        s.len() != 26 ==> ulid_of(s) is None,
        (exists|i: int| 0 <= i < s.len() && (#[trigger] base32_value(s[i])) is None) ==> ulid_of(
            s,
        ) is None,
        count < u64::MAX ==> counted((count + 1) as u64) == counted(count) + 1,
        counted(count) == 1208925819614629174706176 + count,
{
    lemma_base32(value as nat, 26);
}

} // verus!

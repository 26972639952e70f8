//! Event identities: a sequence number that carries its own proof of belonging to a session.
//!
//! An identity is sixteen decimal digits. Fourteen are the sequence number, the fifteenth is the
//! Verhoeff check digit of those fourteen, and the last one is drawn from a hash of the session
//! and the sequence, so that an identity of one session is not taken for one of another.
use vstd::prelude::*;
use vstd::utf8::{encode_utf8, is_ascii_chars, is_ascii_chars_encode_utf8};

use crate::text::{
    char_is_digit, chars_of, decimal, decimal_text, digit_char, digit_text, digits, digits_text,
    is_digit, less_at, text_less,
};

verus! {

/// The largest sequence number that fourteen digits hold.
pub const MAX_SEQUENCE: u64 = 99_999_999_999_999;

/// Why a sequence number or a text is no event identity.
#[derive(Clone, Copy, Debug, PartialEq, Eq, Structural)]
pub enum EventIdError {
    /// The sequence number is outside the range that an identity can hold.
    SequenceOutOfRange(u64),
    /// The text is not sixteen decimal digits.
    NonCanonical,
    /// The check digits do not belong to the session and the sequence number.
    ChecksumMismatch,
}

impl EventIdError {
    /// What the error says.
    pub open spec fn spec_message(self) -> Seq<char> {
        match self {
            EventIdError::SequenceOutOfRange(sequence) => "event sequence "@ + decimal(
                sequence as nat,
            ) + " is outside 1..=99999999999999"@,
            EventIdError::NonCanonical =>
                "event id must use the canonical 16-digit representation"@,
            EventIdError::ChecksumMismatch =>
                "event id checksum does not match its session and sequence"@,
        }
    }

    pub fn message(&self) -> (r: String)
        ensures
            r@ == self.spec_message(),
    {
        match self {
            EventIdError::SequenceOutOfRange(sequence) => {
                let mut out = "event sequence ".to_owned();
                out.append(&decimal_text(*sequence));
                out.append(" is outside 1..=99999999999999");
                out
            },
            EventIdError::NonCanonical =>
                "event id must use the canonical 16-digit representation".to_owned(),
            EventIdError::ChecksumMismatch =>
                "event id checksum does not match its session and sequence".to_owned(),
        }
    }
}

/// The value of one decimal digit.
pub open spec fn digit_value(c: char) -> int {
    (c as u32) - 48
}

/// The number that a run of decimal digits stands for.
pub open spec fn value_of(s: Seq<char>) -> nat
    decreases s.len(),
{
    if s.len() == 0 {
        0
    } else {
        (value_of(s.drop_last()) * 10 + digit_value(s.last())) as nat
    }
}

pub open spec fn all_digits(s: Seq<char>) -> bool {
    forall|i: int| 0 <= i < s.len() ==> is_digit(#[trigger] s[i])
}

/// Whether `s` is sixteen decimal digits.
pub open spec fn is_canonical(s: Seq<char>) -> bool {
    s.len() == 16 && all_digits(s)
}

pub open spec fn in_range(sequence: nat) -> bool {
    1 <= sequence <= MAX_SEQUENCE
}

/// Multiplication in the symmetry group of the pentagon: `0..5` are its rotations, `5..10` its
/// reflections.
#[verifier::opaque]
pub open spec fn dihedral(a: int, b: int) -> int {
    if a < 5 {
        if b < 5 {
            (a + b) % 5
        } else {
            5 + (a + b) % 5
        }
    } else {
        if b < 5 {
            5 + (a - b) % 5
        } else {
            (a - b) % 5
        }
    }
}

/// The group element that undoes `a`.
pub open spec fn dihedral_inverse(a: int) -> int {
    if a < 5 {
        (5 - a) % 5
    } else {
        a
    }
}

/// The digit permutation that tells one position from the next.
pub open spec fn turn(d: int) -> int {
    if d == 0 {
        1
    } else if d == 1 {
        5
    } else if d == 2 {
        7
    } else if d == 3 {
        6
    } else if d == 4 {
        2
    } else if d == 5 {
        8
    } else if d == 6 {
        3
    } else if d == 7 {
        0
    } else if d == 8 {
        9
    } else {
        4
    }
}

/// The digit `d` after `times` turns.
pub open spec fn turned(d: int, times: nat) -> int
    decreases times,
{
    if times == 0 {
        d
    } else {
        turn(turned(d, (times - 1) as nat))
    }
}

/// The product of the `count` rightmost digits of `s`, each turned by its position.
pub open spec fn verhoeff_sum(s: Seq<char>, count: nat) -> int
    decreases count,
{
    if count == 0 {
        0
    } else {
        dihedral(
            verhoeff_sum(s, (count - 1) as nat),
            turned(digit_value(s[s.len() - count]), count % 8),
        )
    }
}

/// The Verhoeff check digit of `s`.
pub open spec fn verhoeff(s: Seq<char>) -> int {
    dihedral_inverse(verhoeff_sum(s, s.len()))
}

/// The `width` lowest bytes of `n`, the most significant first.
pub open spec fn be_bytes(n: nat, width: nat) -> Seq<u8>
    decreases width,
{
    if width == 0 {
        Seq::empty()
    } else {
        be_bytes(n / 256, (width - 1) as nat).push((n % 256) as u8)
    }
}

/// The number that `bytes` stand for, the most significant first.
pub open spec fn be_value(bytes: Seq<u8>) -> nat
    decreases bytes.len(),
{
    if bytes.len() == 0 {
        0
    } else {
        be_value(bytes.drop_last()) * 256 + bytes.last() as nat
    }
}

/// The bytes of `zork-agent:event-id:v1`, closed by a zero.
pub open spec fn hash_domain() -> Seq<u8> {
    seq![
        122u8, 111, 114, 107, 45, 97, 103, 101, 110, 116, 58, 101, 118, 101, 110, 116, 45, 105, 100,
        58, 118, 49, 0,
    ]
}

/// What is hashed for the session check digit.
pub open spec fn hash_input(session: u128, sequence: nat) -> Seq<u8> {
    hash_domain() + be_bytes(session as nat, 16) + be_bytes(sequence, 8)
}

/// The SHA-256 digest of a message, as `sha2::Sha256::digest` computes it.
pub uninterp spec fn sha256_digest(message: Seq<u8>) -> Seq<u8>;

/// The check digit that ties a sequence number to its session.
pub open spec fn session_check(session: u128, sequence: nat) -> int {
    (be_value(sha256_digest(hash_input(session, sequence))) % 10) as int
}

/// The identity of event `sequence` of `session`.
pub open spec fn id_text(session: u128, sequence: nat) -> Seq<char> {
    let body = digits(sequence, 14);
    body.push(digit_char(verhoeff(body) as nat)).push(
        digit_char(session_check(session, sequence) as nat),
    )
}

/// The sequence number that the first fourteen digits of an identity give.
pub open spec fn sequence_of(s: Seq<char>) -> nat {
    value_of(s.take(14))
}

/// `sha2::Sha256::digest`: the SHA-256 digest of `message`, which the bytes of the message alone
/// decide.
#[verifier::external_body]
fn sha256(message: &Vec<u8>) -> (r: Vec<u8>)
    ensures
        r@ == sha256_digest(message@),
{
    <sha2::Sha256 as sha2::Digest>::digest(message).to_vec()
}

fn multiply(a: u8, b: u8) -> (r: u8)
    requires
        a < 10,
        b < 10,
    ensures
        r == dihedral(a as int, b as int),
        r < 10,
{
    proof {
        reveal(dihedral);
    }
    if a < 5 {
        if b < 5 {
            (a + b) % 5
        } else {
            5 + (a + b) % 5
        }
    } else {
        if b < 5 {
            5 + (a - b) % 5
        } else if a >= b {
            (a - b) % 5
        } else {
            (5 + a - b) % 5
        }
    }
}

fn turn_digit(d: u8) -> (r: u8)
    requires
        d < 10,
    ensures
        r == turn(d as int),
        r < 10,
{
    if d == 0 {
        1
    } else if d == 1 {
        5
    } else if d == 2 {
        7
    } else if d == 3 {
        6
    } else if d == 4 {
        2
    } else if d == 5 {
        8
    } else if d == 6 {
        3
    } else if d == 7 {
        0
    } else if d == 8 {
        9
    } else {
        4
    }
}

fn turn_times(d: u8, times: usize) -> (r: u8)
    requires
        d < 10,
    ensures
        r == turned(d as int, times as nat),
        r < 10,
    decreases times,
{
    if times == 0 {
        d
    } else {
        let before: u8 = turn_times(d, times - 1);
        turn_digit(before)
    }
}

/// The Verhoeff check digit of the decimal digits `s`.
pub fn verhoeff_digit(s: &Vec<char>) -> (r: u8)
    requires
        all_digits(s@),
    ensures
        r == verhoeff(s@),
        r < 10,
{
    let mut sum: u8 = 0;
    let mut count: usize = 0;
    while count < s.len()
        invariant
            count <= s.len(),
            all_digits(s@),
            sum == verhoeff_sum(s@, count as nat),
            sum < 10,
        decreases s.len() - count,
    {
        count = count + 1;
        let c: char = s[s.len() - count];
        let digit: u8 = (c as u8) - 48;
        let times: usize = count % 8;
        sum = multiply(sum, turn_times(digit, times));
    }
    if sum < 5 {
        (5 - sum) % 5
    } else {
        sum
    }
}

/// The `width` lowest bytes of `n`, the most significant first.
fn to_be_bytes(n: u128, width: usize) -> (r: Vec<u8>)
    ensures
        r@ == be_bytes(n as nat, width as nat),
    decreases width,
{
    if width == 0 {
        Vec::new()
    } else {
        let mut out = to_be_bytes(n / 256, width - 1);
        out.push((n % 256) as u8);
        out
    }
}

/// The check digit that ties a sequence number to its session.
pub fn session_check_digit(session: u128, sequence: u64) -> (r: u8)
    ensures
        r == session_check(session, sequence as nat),
        r < 10,
{
    let mut message: Vec<u8> = vec![
        122u8, 111, 114, 107, 45, 97, 103, 101, 110, 116, 58, 101, 118, 101, 110, 116, 45, 105, 100,
        58, 118, 49, 0,
    ];
    proof {
        assert(message@ =~= hash_domain());
    }
    let mut session_bytes = to_be_bytes(session, 16);
    let mut sequence_bytes = to_be_bytes(sequence as u128, 8);
    message.append(&mut session_bytes);
    message.append(&mut sequence_bytes);
    proof {
        assert(message@ =~= hash_input(session, sequence as nat));
    }
    let digest = sha256(&message);
    let mut remainder: u16 = 0;
    let mut i: usize = 0;
    while i < digest.len()
        invariant
            i <= digest.len(),
            remainder == be_value(digest@.take(i as int)) % 10,
        decreases digest.len() - i,
    {
        proof {
            let before = be_value(digest@.take(i as int));
            assert(digest@.take(i + 1).drop_last() =~= digest@.take(i as int));
            assert(be_value(digest@.take(i + 1)) == before * 256 + digest@[i as int]);
            assert((before * 256 + digest@[i as int]) % 10 == ((before % 10) * 256
                + digest@[i as int]) % 10) by (nonlinear_arith);
        }
        remainder = (remainder * 256 + digest[i] as u16) % 10;
        i = i + 1;
    }
    proof {
        assert(digest@.take(digest@.len() as int) =~= digest@);
    }
    remainder as u8
}

/// The identity of one event of one session.
#[derive(Debug, PartialEq, Eq, PartialOrd, Ord, Hash)]
pub struct EventId {
    text: String,
}

impl View for EventId {
    type V = Seq<char>;

    closed spec fn view(&self) -> Seq<char> {
        self.text@
    }
}

impl Clone for EventId {
    fn clone(&self) -> (r: EventId)
        ensures
            r@ == self@,
    {
        proof {
            use_type_invariant(self);
        }
        EventId { text: self.text.clone() }
    }
}

impl EventId {
    pub const MAX_SEQUENCE: u64 = 99_999_999_999_999;

    #[verifier::type_invariant]
    closed spec fn well_formed(&self) -> bool {
        is_canonical(self.text@) && in_range(sequence_of(self.text@))
    }

    /// The identity of event `sequence` of `session_id`.
    pub fn from_sequence(session_id: u128, sequence: u64) -> (r: Result<EventId, EventIdError>)
        ensures
            match r {
                Ok(id) => in_range(sequence as nat) && id@ == id_text(session_id, sequence as nat),
                Err(error) => !in_range(sequence as nat) && error
                    == EventIdError::SequenceOutOfRange(sequence),
            },
    {
        if sequence < 1 || sequence > MAX_SEQUENCE {
            return Err(EventIdError::SequenceOutOfRange(sequence));
        }
        let mut encoded = digits_text(sequence, 14);
        proof {
            lemma_digits(sequence as nat, 14);
            lemma_id_text(session_id, sequence as nat);
        }
        let check: u8 = verhoeff_digit(&chars_of(&encoded));
        let session_check: u8 = session_check_digit(session_id, sequence);
        encoded.push(digit_text(check as u64));
        encoded.push(digit_text(session_check as u64));
        Ok(EventId { text: encoded })
    }

    /// Takes `encoded` as an identity of `session_id`, if it is one.
    pub fn parse(session_id: u128, encoded: &str) -> (r: Result<EventId, EventIdError>)
        ensures
            match r {
                Ok(id) => parsed(session_id, encoded@) is Ok && id@ == encoded@,
                Err(error) => parsed(session_id, encoded@) == Err::<u64, EventIdError>(error),
            },
    {
        let sequence = EventId::parse_sequence(session_id, encoded);
        match sequence {
            Ok(_) => Ok(EventId { text: encoded.to_owned() }),
            Err(error) => Err(error),
        }
    }

    /// The sequence number that `encoded` stands for in `session_id`.
    pub fn parse_sequence(session_id: u128, encoded: &str) -> (r: Result<u64, EventIdError>)
        ensures
            r == parsed(session_id, encoded@),
    {
        let v = chars_of(encoded);
        if v.len() != 16 {
            return Err(EventIdError::NonCanonical);
        }
        let mut body: Vec<char> = Vec::new();
        let mut sequence: u64 = 0;
        let mut i: usize = 0;
        let mut limit: Ghost<nat> = Ghost(1);
        while i < 16
            invariant
                i <= 16,
                v.len() == 16,
                v@ == encoded@,
                forall|j: int| 0 <= j < i ==> is_digit(#[trigger] v@[j]),
                i <= 14 ==> body@ == v@.take(i as int) && limit@ == pow10(i as nat),
                i > 14 ==> body@ == v@.take(14) && limit@ == pow10(14),
                sequence == value_of(body@),
                sequence < limit@,
            decreases 16 - i,
        {
            let c: char = v[i];
            if !char_is_digit(c) {
                return Err(EventIdError::NonCanonical);
            }
            if i < 14 {
                proof {
                    lemma_pow10_small(i as nat);
                    assert(v@.take(i + 1).drop_last() =~= v@.take(i as int));
                    limit@ = limit@ * 10;
                }
                body.push(c);
                proof {
                    assert(body@ =~= v@.take(i + 1));
                }
                sequence = sequence * 10 + ((c as u8) - 48) as u64;
            }
            i = i + 1;
        }
        if sequence < 1 || sequence > MAX_SEQUENCE {
            return Err(EventIdError::SequenceOutOfRange(sequence));
        }
        let check: char = digit_text(verhoeff_digit(&body) as u64);
        let session_check: char = digit_text(session_check_digit(session_id, sequence) as u64);
        proof {
            lemma_value_digits(body@);
            assert(body@ == digits(sequence as nat, 14));
            let expected = id_text(session_id, sequence as nat);
            assert(expected[14] == check && expected[15] == session_check);
            if v@[14] == check && v@[15] == session_check {
                assert(v@ =~= expected);
            }
        }
        if v[14] != check || v[15] != session_check {
            return Err(EventIdError::ChecksumMismatch);
        }
        Ok(sequence)
    }

    pub fn as_str(&self) -> (r: &str)
        ensures
            r@ == self@,
    {
        self.text.as_str()
    }

    /// The sequence number of the event.
    pub fn sequence(&self) -> (r: u64)
        ensures
            r == sequence_of(self@),
            in_range(r as nat),
    {
        proof {
            use_type_invariant(self);
        }
        let v = chars_of(self.text.as_str());
        let mut sequence: u64 = 0;
        let mut i: usize = 0;
        while i < 14
            invariant
                i <= 14,
                v.len() == 16,
                all_digits(v@),
                sequence == value_of(v@.take(i as int)),
                sequence < pow10(i as nat),
            decreases 14 - i,
        {
            proof {
                lemma_pow10_small(i as nat);
                assert(v@.take(i + 1).drop_last() =~= v@.take(i as int));
            }
            let c: char = v[i];
            sequence = sequence * 10 + ((c as u8) - 48) as u64;
            i = i + 1;
        }
        sequence
    }
}

/// What reading `encoded` as an identity of `session` gives.
pub open spec fn parsed(session: u128, encoded: Seq<char>) -> Result<u64, EventIdError> {
    let sequence = sequence_of(encoded);
    if !is_canonical(encoded) {
        Err(EventIdError::NonCanonical)
    } else if !in_range(sequence) {
        Err(EventIdError::SequenceOutOfRange(sequence as u64))
    } else if encoded != id_text(session, sequence) {
        Err(EventIdError::ChecksumMismatch)
    } else {
        Ok(sequence as u64)
    }
}

spec fn pow10(n: nat) -> nat
    decreases n,
{
    if n == 0 {
        1
    } else {
        10 * pow10((n - 1) as nat)
    }
}

proof fn lemma_pow10_small(n: nat)
    requires
        n <= 14,
    ensures
        pow10(n) <= 100_000_000_000_000,
        pow10(n + 1) == 10 * pow10(n),
{
    reveal_with_fuel(pow10, 15);
}

/// Fourteen digits stand for a number below `pow10(14)`.
proof fn lemma_value_bound(s: Seq<char>)
    requires
        all_digits(s),
    ensures
        value_of(s) < pow10(s.len()),
    decreases s.len(),
{
    if s.len() > 0 {
        assert(all_digits(s.drop_last()));
        lemma_value_bound(s.drop_last());
        assert(is_digit(s.last()));
    }
}

/// The digits of the number that a run of digits stands for are that run.
proof fn lemma_value_digits(s: Seq<char>)
    requires
        all_digits(s),
    ensures
        digits(value_of(s), s.len()) == s,
    decreases s.len(),
{
    if s.len() > 0 {
        let rest = s.drop_last();
        assert(all_digits(rest));
        lemma_value_digits(rest);
        assert(is_digit(s.last()));
        let n = value_of(s);
        assert(n / 10 == value_of(rest));
        assert(n % 10 == digit_value(s.last()));
        assert(digit_char(n % 10) == s.last());
        assert(s =~= rest.push(s.last()));
    } else {
        assert(digits(value_of(s), 0) =~= s);
    }
}

/// `digits` gives `width` decimal digits that stand for the number they were made of, if it fits.
proof fn lemma_digits(n: nat, width: nat)
    ensures
        digits(n, width).len() == width,
        all_digits(digits(n, width)),
        n < pow10(width) ==> value_of(digits(n, width)) == n,
    decreases width,
{
    if width > 0 {
        lemma_digits(n / 10, (width - 1) as nat);
        let s = digits(n, width);
        assert(s.drop_last() =~= digits(n / 10, (width - 1) as nat));
        assert(s.last() == digit_char(n % 10));
        assert(digit_value(digit_char(n % 10)) == n % 10);
    }
}

proof fn lemma_verhoeff_sum(s: Seq<char>, count: nat)
    requires
        all_digits(s),
        count <= s.len(),
    ensures
        0 <= verhoeff_sum(s, count) < 10,
    decreases count,
{
    if count > 0 {
        lemma_verhoeff_sum(s, (count - 1) as nat);
        assert(is_digit(s[s.len() - count]));
        lemma_turned(digit_value(s[s.len() - count]), count % 8);
        lemma_dihedral(
            verhoeff_sum(s, (count - 1) as nat),
            turned(digit_value(s[s.len() - count]), count % 8),
        );
    }
}

proof fn lemma_turned(d: int, times: nat)
    requires
        0 <= d < 10,
    ensures
        0 <= turned(d, times) < 10,
    decreases times,
{
    if times > 0 {
        lemma_turned(d, (times - 1) as nat);
    }
}

proof fn lemma_id_text(session: u128, sequence: nat)
    requires
        in_range(sequence),
    ensures
        is_canonical(id_text(session, sequence)),
        sequence_of(id_text(session, sequence)) == sequence,
{
    let body = digits(sequence, 14);
    lemma_pow10_small(13);
    reveal_with_fuel(pow10, 15);
    lemma_digits(sequence, 14);
    lemma_verhoeff_sum(body, 14);
    let text = id_text(session, sequence);
    assert(text.take(14) =~= body);
    assert forall|i: int| 0 <= i < text.len() implies is_digit(#[trigger] text[i]) by {
        if i < 14 {
            assert(text[i] == body[i]);
        }
    }
}

/// Reading an identity that was made for a session in that session gives back its sequence number.
pub proof fn identity_round_trips(session: u128, sequence: u64)
    requires
        in_range(sequence as nat),
    ensures
        parsed(session, id_text(session, sequence as nat)) == Ok::<u64, EventIdError>(sequence),
{
    lemma_id_text(session, sequence as nat);
}

/// A session accepts exactly one text for each sequence number in range: the identity that it
/// makes for it.
pub proof fn accepted_texts_are_identities(session: u128, encoded: Seq<char>)
    ensures
        parsed(session, encoded) is Ok <==> exists|sequence: nat|
            in_range(sequence) && encoded == #[trigger] id_text(session, sequence),
{
    if parsed(session, encoded) is Ok {
        assert(encoded == id_text(session, sequence_of(encoded)));
    }
    if exists|sequence: nat| in_range(sequence) && encoded == #[trigger] id_text(session, sequence) {
        let sequence = choose|sequence: nat|
            in_range(sequence) && encoded == #[trigger] id_text(session, sequence);
        lemma_id_text(session, sequence);
    }
}

/// The first position in which two runs of digits differ, if the first stands for less.
proof fn lemma_first_difference(s: Seq<char>, t: Seq<char>) -> (at: int)
    requires
        s.len() == t.len(),
        all_digits(s),
        all_digits(t),
        value_of(s) < value_of(t),
    ensures
        0 <= at < s.len(),
        forall|i: int| 0 <= i < at ==> #[trigger] s[i] == t[i],
        s[at] < t[at],
    decreases s.len(),
{
    let x = s.drop_last();
    let y = t.drop_last();
    assert(all_digits(x) && all_digits(y));
    assert(is_digit(s.last()) && is_digit(t.last()));
    if value_of(x) < value_of(y) {
        let at = lemma_first_difference(x, y);
        assert(x[at] == s[at] && y[at] == t[at]);
        assert forall|i: int| 0 <= i < at implies #[trigger] s[i] == t[i] by {
            assert(x[i] == y[i]);
        }
        at
    } else {
        assert(value_of(x) == value_of(y));
        lemma_value_digits(x);
        lemma_value_digits(y);
        assert forall|i: int| 0 <= i < x.len() implies #[trigger] s[i] == t[i] by {
            assert(x[i] == y[i]);
        }
        s.len() - 1
    }
}

/// The identities of a session are ordered, as texts, by their sequence numbers.
pub proof fn identities_sort_by_sequence(session: u128, first: nat, second: nat)
    requires
        in_range(first),
        in_range(second),
    ensures
        text_less(id_text(session, first), id_text(session, second)) <==> first < second,
{
    if first != second {
        let (low, high) = if first < second {
            (first, second)
        } else {
            (second, first)
        };
        let a = id_text(session, low);
        let b = id_text(session, high);
        lemma_id_text(session, low);
        lemma_id_text(session, high);
        let x = a.take(14);
        let y = b.take(14);
        assert(all_digits(x) && all_digits(y));
        let at = lemma_first_difference(x, y);
        assert(x[at] == a[at] && y[at] == b[at]);
        assert forall|i: int| 0 <= i < at implies #[trigger] a[i] == b[i] by {
            assert(x[i] == y[i]);
        }
        less_at(a, b, at);
    }
    crate::text::less_total(id_text(session, first), id_text(session, second));
}

/// The product of two group elements without division.
proof fn lemma_dihedral_cases(a: int, b: int)
    requires
        0 <= a < 10,
        0 <= b < 10,
    ensures
        0 <= dihedral(a, b) < 10,
        a < 5 && b < 5 ==> dihedral(a, b) == if a + b < 5 { a + b } else { a + b - 5 },
        a < 5 && b >= 5 ==> dihedral(a, b) == if a + b < 10 { a + b } else { a + b - 5 },
        a >= 5 && b < 5 ==> dihedral(a, b) == if a - b < 5 { a - b + 5 } else { a - b },
        a >= 5 && b >= 5 ==> dihedral(a, b) == if a < b { a - b + 5 } else { a - b },
{
    reveal(dihedral);
}

proof fn lemma_dihedral(a: int, b: int)
    requires
        0 <= a < 10,
        0 <= b < 10,
    ensures
        0 <= dihedral(a, b) < 10,
{
    lemma_dihedral_cases(a, b);
}

/// A product tells both of its factors apart.
proof fn lemma_dihedral_cancels(a: int, b: int, c: int)
    requires
        0 <= a < 10,
        0 <= b < 10,
        0 <= c < 10,
        b != c,
    ensures
        dihedral(a, b) != dihedral(a, c),
        dihedral(b, a) != dihedral(c, a),
{
    lemma_dihedral_cases(a, b);
    lemma_dihedral_cases(a, c);
    lemma_dihedral_cases(b, a);
    lemma_dihedral_cases(c, a);
}

proof fn lemma_dihedral_associative(a: int, b: int, c: int)
    requires
        0 <= a < 10,
        0 <= b < 10,
        0 <= c < 10,
    ensures
        dihedral(dihedral(a, b), c) == dihedral(a, dihedral(b, c)),
{
    lemma_dihedral_cases(a, b);
    lemma_dihedral_cases(b, c);
    lemma_dihedral_cases(dihedral(a, b), c);
    lemma_dihedral_cases(a, dihedral(b, c));
}

/// Turning keeps different digits different.
proof fn lemma_turned_injective(x: int, y: int, times: nat)
    requires
        0 <= x < 10,
        0 <= y < 10,
        x != y,
    ensures
        turned(x, times) != turned(y, times),
    decreases times,
{
    if times > 0 {
        lemma_turned_injective(x, y, (times - 1) as nat);
        lemma_turned(x, (times - 1) as nat);
        lemma_turned(y, (times - 1) as nat);
    }
}

/// Neighbouring digits do not commute.
proof fn lemma_turn_neighbours(x: int, y: int)
    requires
        0 <= x < 10,
        0 <= y < 10,
        x != y,
    ensures
        dihedral(x, turn(y)) != dihedral(y, turn(x)),
{
    lemma_dihedral_cases(x, turn(y));
    lemma_dihedral_cases(y, turn(x));
}

/// Eight turns are none.
proof fn lemma_eight_turns(d: int)
    requires
        0 <= d < 10,
    ensures
        turned(d, 8) == d,
{
    reveal_with_fuel(turned, 9);
}

proof fn lemma_next_turn(d: int, count: nat)
    requires
        0 <= d < 10,
    ensures
        turned(d, (count + 1) % 8) == turn(turned(d, count % 8)),
{
    if (count + 1) % 8 == 0 {
        lemma_eight_turns(d);
        assert(count % 8 == 7);
    } else {
        assert((count + 1) % 8 == count % 8 + 1);
    }
}

/// Products that agree on the digits to the right of a position and differ there stay different.
proof fn lemma_sums_stay_apart(s: Seq<char>, t: Seq<char>, from: nat, count: nat)
    requires
        s.len() == t.len(),
        all_digits(s),
        all_digits(t),
        from <= count <= s.len(),
        verhoeff_sum(s, from) != verhoeff_sum(t, from),
        forall|i: int| 0 <= i < s.len() - from ==> #[trigger] s[i] == t[i],
    ensures
        verhoeff_sum(s, count) != verhoeff_sum(t, count),
    decreases count,
{
    if count > from {
        let before = (count - 1) as nat;
        lemma_sums_stay_apart(s, t, from, before);
        lemma_verhoeff_sum(s, before);
        lemma_verhoeff_sum(t, before);
        let at = s.len() - count;
        assert(s[at] == t[at] && is_digit(s[at]));
        let d = turned(digit_value(s[at]), count % 8);
        lemma_turned(digit_value(s[at]), count % 8);
        lemma_dihedral_cancels(d, verhoeff_sum(s, before), verhoeff_sum(t, before));
    }
}

proof fn lemma_sums_agree(s: Seq<char>, t: Seq<char>, count: nat)
    requires
        s.len() == t.len(),
        count <= s.len(),
        forall|i: int| s.len() - count <= i < s.len() ==> #[trigger] s[i] == t[i],
    ensures
        verhoeff_sum(s, count) == verhoeff_sum(t, count),
    decreases count,
{
    if count > 0 {
        lemma_sums_agree(s, t, (count - 1) as nat);
        assert(s[s.len() - count] == t[s.len() - count]);
    }
}

/// The Verhoeff check digit of any digits changes when one of them is replaced by another.
pub proof fn replaced_digit_changes_the_check(s: Seq<char>, at: int, c: char)
    requires
        all_digits(s),
        0 <= at < s.len(),
        is_digit(c),
        c != s[at],
    ensures
        verhoeff(s) != verhoeff(s.update(at, c)),
{
    let t = s.update(at, c);
    assert(all_digits(t));
    let before = (s.len() - at - 1) as nat;
    lemma_sums_agree(s, t, before);
    lemma_verhoeff_sum(s, before);
    lemma_turned_injective(digit_value(s[at]), digit_value(c), (before + 1) % 8);
    lemma_turned(digit_value(s[at]), (before + 1) % 8);
    lemma_turned(digit_value(c), (before + 1) % 8);
    lemma_dihedral_cancels(
        verhoeff_sum(s, before),
        turned(digit_value(s[at]), (before + 1) % 8),
        turned(digit_value(c), (before + 1) % 8),
    );
    lemma_sums_stay_apart(s, t, before + 1, s.len());
    lemma_verhoeff_sum(s, s.len());
    lemma_verhoeff_sum(t, t.len());
}

/// A session refuses what is left of an identity when any one of its digits is replaced.
pub proof fn replaced_digit_is_refused(session: u128, sequence: nat, at: int, c: char)
    requires
        in_range(sequence),
        0 <= at < 16,
        c != id_text(session, sequence)[at],
    ensures
        parsed(session, id_text(session, sequence).update(at, c)) is Err,
{
    let text = id_text(session, sequence);
    let other = text.update(at, c);
    lemma_id_text(session, sequence);
    if parsed(session, other) is Ok {
        assert(is_digit(other[at]));
        let body = text.take(14);
        assert(body =~= digits(sequence, 14));
        let changed = other.take(14);
        lemma_id_text(session, sequence_of(other));
        lemma_value_digits(changed);
        assert(changed == digits(sequence_of(other), 14));
        if at < 14 {
            assert(changed =~= body.update(at, c));
            replaced_digit_changes_the_check(body, at, c);
            lemma_verhoeff_sum(body, 14);
            lemma_verhoeff_sum(changed, 14);
            assert(other[14] == text[14]);
        } else {
            assert(changed =~= body);
        }
    }
}

/// The Verhoeff check digit of any digits changes when two different neighbours change places.
pub proof fn swapped_digits_change_the_check(s: Seq<char>, at: int)
    requires
        all_digits(s),
        0 <= at,
        at + 1 < s.len(),
        s[at] != s[at + 1],
    ensures
        verhoeff(s) != verhoeff(s.update(at, s[at + 1]).update(at + 1, s[at])),
{
    let t = s.update(at, s[at + 1]).update(at + 1, s[at]);
    assert(all_digits(t));
    let before = (s.len() - at - 2) as nat;
    lemma_sums_agree(s, t, before);
    lemma_verhoeff_sum(s, before);
    assert(is_digit(s[at]) && is_digit(s[at + 1]));
    let k = before + 1;
    let x = turned(digit_value(s[at + 1]), k % 8);
    let y = turned(digit_value(s[at]), k % 8);
    lemma_turned(digit_value(s[at + 1]), k % 8);
    lemma_turned(digit_value(s[at]), k % 8);
    lemma_turned_injective(digit_value(s[at + 1]), digit_value(s[at]), k % 8);
    lemma_next_turn(digit_value(s[at]), k);
    lemma_next_turn(digit_value(s[at + 1]), k);
    let c = verhoeff_sum(s, before);
    assert(verhoeff_sum(s, k) == dihedral(c, x));
    assert(verhoeff_sum(t, k) == dihedral(c, y));
    assert(verhoeff_sum(s, k + 1) == dihedral(dihedral(c, x), turn(y)));
    assert(verhoeff_sum(t, k + 1) == dihedral(dihedral(c, y), turn(x)));
    lemma_dihedral_associative(c, x, turn(y));
    lemma_dihedral_associative(c, y, turn(x));
    lemma_turn_neighbours(x, y);
    lemma_dihedral(x, turn(y));
    lemma_dihedral(y, turn(x));
    lemma_dihedral_cancels(c, dihedral(x, turn(y)), dihedral(y, turn(x)));
    lemma_sums_stay_apart(s, t, k + 1, s.len());
    lemma_verhoeff_sum(s, s.len());
    lemma_verhoeff_sum(t, t.len());
}

/// A session refuses what is left of an identity when two different neighbouring digits of its
/// sequence number change places.
pub proof fn swapped_digits_are_refused(session: u128, sequence: nat, at: int)
    requires
        in_range(sequence),
        0 <= at < 13,
        id_text(session, sequence)[at] != id_text(session, sequence)[at + 1],
    ensures
        ({
            let text = id_text(session, sequence);
            parsed(session, text.update(at, text[at + 1]).update(at + 1, text[at])) is Err
        }),
{
    let text = id_text(session, sequence);
    let other = text.update(at, text[at + 1]).update(at + 1, text[at]);
    lemma_id_text(session, sequence);
    if parsed(session, other) is Ok {
        let body = text.take(14);
        assert(body =~= digits(sequence, 14));
        let changed = other.take(14);
        lemma_id_text(session, sequence_of(other));
        lemma_value_digits(changed);
        assert(body[at] == text[at] && body[at + 1] == text[at + 1]);
        assert(changed =~= body.update(at, body[at + 1]).update(at + 1, body[at]));
        swapped_digits_change_the_check(body, at);
        lemma_verhoeff_sum(body, 14);
        lemma_verhoeff_sum(changed, 14);
        assert(other[14] == text[14]);
    }
}

/// An identity is sixteen digits: the sequence number in fourteen, its check digit, and one that
/// ties it to its session.
pub proof fn identities_are_sixteen_digits(session: u128, sequence: nat)
    requires
        1 <= sequence <= 99_999_999_999_999,
    ensures
        id_text(session, sequence).len() == 16,
        all_digits(id_text(session, sequence)),
        value_of(id_text(session, sequence).take(14)) == sequence,
        digit_value(id_text(session, sequence)[14]) == verhoeff(
            id_text(session, sequence).take(14),
        ),
        digit_value(id_text(session, sequence)[15]) == be_value(
            sha256_digest(hash_input(session, sequence)),
        ) % 10,
{
    lemma_id_text(session, sequence);
    let body = digits(sequence, 14);
    lemma_digits(sequence, 14);
    assert(id_text(session, sequence).take(14) =~= body);
    lemma_verhoeff_sum(body, 14);
    lemma_pow10_small(14);
}

/// The check digit of some digits undoes their product in the group.
pub proof fn check_digits_undo_the_product(s: Seq<char>)
    requires
        all_digits(s),
    ensures
        dihedral(verhoeff_sum(s, s.len()), verhoeff(s)) == 0,
{
    lemma_verhoeff_sum(s, s.len());
    reveal(dihedral);
}

/// What is hashed is the name of the purpose, closed by a zero, the session in sixteen bytes and the
/// sequence number in eight, the most significant first: two sessions or two numbers are never
/// hashed alike.
pub proof fn hashes_tell_sessions_apart(
    session: u128,
    sequence: nat,
    other: u128,
    number: nat,
)
    requires
        sequence <= 99_999_999_999_999,
        number <= 99_999_999_999_999,
        session != other || sequence != number,
    ensures
        hash_input(session, sequence).len() == 47,
        hash_input(session, sequence).take(23) == encode_utf8("zork-agent:event-id:v1"@).push(0),
        be_value(hash_input(session, sequence).subrange(23, 39)) == session,
        be_value(hash_input(session, sequence).skip(39)) == sequence,
        hash_input(session, sequence) != hash_input(other, number),
{
    lemma_hash_parts(session, sequence);
    lemma_hash_parts(other, number);
    reveal_strlit("zork-agent:event-id:v1");
    let name = "zork-agent:event-id:v1"@;
    assert(is_ascii_chars(name));
    is_ascii_chars_encode_utf8(name);
    assert(hash_input(session, sequence).take(23) =~= encode_utf8(name).push(0));
}

proof fn lemma_hash_parts(session: u128, sequence: nat)
    requires
        sequence <= 99_999_999_999_999,
    ensures
        hash_input(session, sequence).len() == 47,
        hash_input(session, sequence).take(23) == hash_domain(),
        be_value(hash_input(session, sequence).subrange(23, 39)) == session,
        be_value(hash_input(session, sequence).skip(39)) == sequence,
{
    lemma_be_bytes(session as nat, 16);
    lemma_be_bytes(sequence, 8);
    let all = hash_input(session, sequence);
    assert(hash_domain().len() == 23);
    assert(all.take(23) =~= hash_domain());
    assert(all.subrange(23, 39) =~= be_bytes(session as nat, 16));
    assert(all.skip(39) =~= be_bytes(sequence, 8));
    reveal_with_fuel(pow256, 17);
    assert(pow256(8) == 18446744073709551616nat);
    assert(pow256(16) == 340282366920938463463374607431768211456nat) by {
        assert(pow256(16) == 256 * pow256(15));
    }
}

spec fn pow256(n: nat) -> nat
    decreases n,
{
    if n == 0 {
        1
    } else {
        256 * pow256((n - 1) as nat)
    }
}

proof fn lemma_be_bytes(n: nat, width: nat)
    ensures
        be_bytes(n, width).len() == width,
        n < pow256(width) ==> be_value(be_bytes(n, width)) == n,
    decreases width,
{
    if width > 0 {
        lemma_be_bytes(n / 256, (width - 1) as nat);
        assert(be_bytes(n, width).drop_last() =~= be_bytes(n / 256, (width - 1) as nat));
    }
}

/// What is wrong with a sequence number or a text is told.
pub proof fn identity_errors_are_told(sequence: u64)
    ensures
        EventIdError::SequenceOutOfRange(sequence).spec_message() == "event sequence "@ + decimal(
            sequence as nat,
        ) + " is outside 1..=99999999999999"@,
        EventIdError::NonCanonical.spec_message()
            == "event id must use the canonical 16-digit representation"@,
        EventIdError::ChecksumMismatch.spec_message()
            == "event id checksum does not match its session and sequence"@,
{
}

/// A text of another length, or with anything but digits in it, is no identity; one whose number is
/// zero is out of range; and one of another session is told apart wherever its last digit differs.
pub proof fn wrong_texts_are_no_identities(session: u128, encoded: Seq<char>)
    ensures
        encoded.len() != 16 ==> parsed(session, encoded) == Err::<u64, EventIdError>(
            EventIdError::NonCanonical,
        ),
        (exists|i: int| 0 <= i < encoded.len() && !('0' <= #[trigger] encoded[i] <= '9'))
            ==> parsed(session, encoded) == Err::<u64, EventIdError>(EventIdError::NonCanonical),
        encoded.len() == 16 && all_digits(encoded) && value_of(encoded.take(14)) == 0 ==> parsed(
            session,
            encoded,
        ) == Err::<u64, EventIdError>(EventIdError::SequenceOutOfRange(0)),
        parsed(session, encoded) matches Ok(sequence) ==> encoded == id_text(
            session,
            sequence as nat,
        ) && 1 <= sequence <= 99_999_999_999_999,
{
    if exists|i: int| 0 <= i < encoded.len() && !('0' <= #[trigger] encoded[i] <= '9') {
        let i = choose|i: int| 0 <= i < encoded.len() && !('0' <= #[trigger] encoded[i] <= '9');
        assert(!is_digit(encoded[i]));
    }
}

} // verus!

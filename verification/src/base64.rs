//! Bytes written in base 64.
use vstd::prelude::*;
use vstd::utf8::encode_utf8;

verus! {

/// The six bits that a character stands for.
pub open spec fn sextet(byte: u8) -> Option<int> {
    if 65 <= byte <= 90 {
        Some(byte - 65)
    } else if 97 <= byte <= 122 {
        Some(byte - 71)
    } else if 48 <= byte <= 57 {
        Some(byte + 4)
    } else if byte == 43 {
        Some(62)
    } else if byte == 47 {
        Some(63)
    } else {
        None
    }
}

/// The six bits that a character or a padding sign stands for.
pub open spec fn sextet_or_padding(byte: u8) -> Option<int> {
    if byte == 61 {
        Some(0)
    } else {
        sextet(byte)
    }
}

/// The bytes that four characters stand for: one less for each padding sign among the last two.
pub open spec fn group(a: u8, b: u8, c: u8, d: u8) -> Option<Seq<u8>> {
    match (sextet(a), sextet(b), sextet_or_padding(c), sextet_or_padding(d)) {
        (Some(w), Some(x), Some(y), Some(z)) => {
            let first = seq![(w * 4 + x / 16) as u8];
            let second = if c != 61 {
                first.push(((x % 16) * 16 + y / 4) as u8)
            } else {
                first
            };
            Some(
                if d != 61 {
                    second.push(((y % 4) * 64 + z) as u8)
                } else {
                    second
                },
            )
        },
        _ => None,
    }
}

/// The bytes that a text in base 64 stands for, four characters at a time; characters over are
/// passed over.
pub open spec fn decoded(text: Seq<u8>) -> Option<Seq<u8>>
    decreases text.len(),
{
    if text.len() < 4 {
        Some(Seq::empty())
    } else {
        match (group(text[0], text[1], text[2], text[3]), decoded(text.skip(4))) {
            (Some(first), Some(rest)) => Some(first + rest),
            _ => None,
        }
    }
}

fn six_bits(byte: u8) -> (r: Option<u8>)
    ensures
        match r {
            Some(value) => value < 64 && sextet(byte) == Some(value as int),
            None => sextet(byte) is None,
        },
{
    if 65 <= byte && byte <= 90 {
        Some(byte - 65)
    } else if 97 <= byte && byte <= 122 {
        Some(byte - 71)
    } else if 48 <= byte && byte <= 57 {
        Some(byte + 4)
    } else if byte == 43 {
        Some(62)
    } else if byte == 47 {
        Some(63)
    } else {
        None
    }
}

fn six_bits_or_padding(byte: u8) -> (r: Option<u8>)
    ensures
        match r {
            Some(value) => value < 64 && sextet_or_padding(byte) == Some(value as int),
            None => sextet_or_padding(byte) is None,
        },
{
    if byte == 61 {
        Some(0)
    } else {
        six_bits(byte)
    }
}

/// The bytes that a text in base 64 stands for.
pub fn decode_base64(input: &str) -> (r: Option<Vec<u8>>)
    ensures
        match r {
            Some(bytes) => decoded(encode_utf8(input@)) == Some(bytes@),
            None => decoded(encode_utf8(input@)) is None,
        },
{
    let text = input.as_bytes();
    let mut out: Vec<u8> = Vec::new();
    let mut i: usize = 0;
    proof {
        assert(text@.skip(0) =~= text@);
        if decoded(text@) is Some {
            assert(Seq::<u8>::empty() + decoded(text@)->0 =~= decoded(text@)->0);
        }
    }
    while text.len() - i > 3
        invariant
            i <= text.len(),
            text@ == encode_utf8(input@),
            match decoded(text@.skip(i as int)) {
                Some(rest) => decoded(text@) == Some(out@ + rest),
                None => decoded(text@) is None,
            },
        decreases text.len() - i,
    {
        let ghost left = text@.skip(i as int);
        let ghost before = out@;
        proof {
            assert(left.skip(4) =~= text@.skip(i + 4));
            assert(left[0] == text@[i as int]);
            assert(left[1] == text@[i + 1]);
            assert(left[2] == text@[i + 2]);
            assert(left[3] == text@[i + 3]);
        }
        let a = match six_bits(text[i]) {
            Some(value) => value,
            None => {
                return None;
            },
        };
        let b = match six_bits(text[i + 1]) {
            Some(value) => value,
            None => {
                return None;
            },
        };
        let c = match six_bits_or_padding(text[i + 2]) {
            Some(value) => value,
            None => {
                return None;
            },
        };
        let d = match six_bits_or_padding(text[i + 3]) {
            Some(value) => value,
            None => {
                return None;
            },
        };
        out.push(a * 4 + b / 16);
        if text[i + 2] != 61 {
            out.push((b % 16) * 16 + c / 4);
        }
        if text[i + 3] != 61 {
            out.push((c % 4) * 64 + d);
        }
        proof {
            let first = group(left[0], left[1], left[2], left[3])->0;
            assert(out@ =~= before + first);
            if decoded(left.skip(4)) is Some {
                let rest = decoded(left.skip(4))->0;
                assert(before + (first + rest) =~= out@ + rest);
            }
        }
        i = i + 4;
    }
    proof {
        assert(out@ + Seq::<u8>::empty() =~= out@);
    }
    Some(out)
}

/// The character of six bits.
pub open spec fn letter(bits: int) -> u8 {
    (if bits < 26 {
        bits + 65
    } else if bits < 52 {
        bits + 71
    } else if bits < 62 {
        bits - 4
    } else if bits == 62 {
        43
    } else {
        47
    }) as u8
}

/// Bytes in base 64, three at a time, padded to whole groups of four characters.
pub open spec fn encoded(bytes: Seq<u8>) -> Seq<u8>
    decreases bytes.len(),
{
    if bytes.len() == 0 {
        Seq::empty()
    } else if bytes.len() == 1 {
        seq![letter((bytes[0] / 4) as int), letter((bytes[0] % 4) * 16), 61u8, 61u8]
    } else if bytes.len() == 2 {
        seq![
            letter((bytes[0] / 4) as int),
            letter((bytes[0] % 4) * 16 + bytes[1] / 16),
            letter((bytes[1] % 16) * 4),
            61u8,
        ]
    } else {
        seq![
            letter((bytes[0] / 4) as int),
            letter((bytes[0] % 4) * 16 + bytes[1] / 16),
            letter((bytes[1] % 16) * 4 + bytes[2] / 64),
            letter((bytes[2] % 64) as int),
        ] + encoded(bytes.skip(3))
    }
}

proof fn lemma_letter(bits: int)
    requires
        0 <= bits < 64,
    ensures
        sextet(letter(bits)) == Some(bits),
        letter(bits) != 61,
{
}

/// Decoding gives back what was encoded.
pub proof fn decoding_undoes_encoding(bytes: Seq<u8>)
    ensures
        decoded(encoded(bytes)) == Some(bytes),
    decreases bytes.len(),
{
    let text = encoded(bytes);
    if bytes.len() == 0 {
        assert(bytes =~= Seq::<u8>::empty());
    } else if bytes.len() == 1 {
        lemma_letter((bytes[0] / 4) as int);
        lemma_letter((bytes[0] % 4) * 16);
        assert(group(text[0], text[1], text[2], text[3])->0 =~= bytes);
        assert(bytes + Seq::<u8>::empty() =~= bytes);
        assert(decoded(text.skip(4)) == Some(Seq::<u8>::empty()));
    } else if bytes.len() == 2 {
        lemma_letter((bytes[0] / 4) as int);
        lemma_letter((bytes[0] % 4) * 16 + bytes[1] / 16);
        lemma_letter((bytes[1] % 16) * 4);
        assert(group(text[0], text[1], text[2], text[3])->0 =~= bytes);
        assert(bytes + Seq::<u8>::empty() =~= bytes);
        assert(decoded(text.skip(4)) == Some(Seq::<u8>::empty()));
    } else {
        lemma_letter((bytes[0] / 4) as int);
        lemma_letter((bytes[0] % 4) * 16 + bytes[1] / 16);
        lemma_letter((bytes[1] % 16) * 4 + bytes[2] / 64);
        lemma_letter((bytes[2] % 64) as int);
        decoding_undoes_encoding(bytes.skip(3));
        assert(text.skip(4) =~= encoded(bytes.skip(3)));
        assert(group(text[0], text[1], text[2], text[3])->0 =~= bytes.take(3));
        assert(bytes.take(3) + bytes.skip(3) =~= bytes);
    }
}

/// The letters of base 64 are the capital letters, the small letters, the digits, the plus sign and
/// the slash, in this order; no other character stands for anything, and the equals sign only pads.
pub proof fn letters_stand_for_six_bits(byte: u8)
    ensures
        'A' as u8 <= byte <= 'Z' as u8 ==> sextet(byte) == Some(byte - 'A' as u8),
        'a' as u8 <= byte <= 'z' as u8 ==> sextet(byte) == Some(26 + (byte - 'a' as u8)),
        '0' as u8 <= byte <= '9' as u8 ==> sextet(byte) == Some(52 + (byte - '0' as u8)),
        byte == '+' as u8 ==> sextet(byte) == Some(62int),
        byte == '/' as u8 ==> sextet(byte) == Some(63int),
        sextet(byte) is Some <==> ('A' as u8 <= byte <= 'Z' as u8 || 'a' as u8 <= byte <= 'z' as u8
            || '0' as u8 <= byte <= '9' as u8 || byte == '+' as u8 || byte == '/' as u8),
        sextet_or_padding('=' as u8) == Some(0int),
        byte != '=' as u8 ==> sextet_or_padding(byte) == sextet(byte),
{
}

/// Four letters stand for three bytes, the first letter for the highest bits; with padding they
/// stand for less, and a group with any other character in it makes the whole text none.
pub proof fn groups_of_four_stand_for_three(a: u8, b: u8, c: u8, d: u8, rest: Seq<u8>)
    ensures
        sextet(a) is Some && sextet(b) is Some && sextet(c) is Some && sextet(d) is Some ==> (group(
            a,
            b,
            c,
            d,
        ) matches Some(bytes) && bytes.len() == 3 && (bytes[0] as int * 256 + bytes[1]) * 256
            + bytes[2] == ((sextet(a)->0 * 64 + sextet(b)->0) * 64 + sextet(c)->0) * 64
            + sextet(d)->0),
        sextet(a) is None || sextet(b) is None || (sextet(c) is None && c != '=' as u8) || (sextet(
            d,
        ) is None && d != '=' as u8) ==> decoded(seq![a, b, c, d] + rest) is None,
        group(a, b, c, d) matches Some(bytes) ==> (decoded(rest) matches Some(more) ==> decoded(
            seq![a, b, c, d] + rest,
        ) == Some(bytes + more)),
        rest.len() < 4 ==> decoded(rest) == Some(Seq::<u8>::empty()),
{
    let text = seq![a, b, c, d] + rest;
    assert(text.skip(4) =~= rest);
    assert(text[0] == a && text[1] == b && text[2] == c && text[3] == d);
    if sextet(a) is Some && sextet(b) is Some && sextet(c) is Some && sextet(d) is Some {
        let (w, x, y, z) = (sextet(a)->0, sextet(b)->0, sextet(c)->0, sextet(d)->0);
        let bytes = group(a, b, c, d)->0;
        assert(0 <= w < 64 && 0 <= x < 64 && 0 <= y < 64 && 0 <= z < 64);
        assert(bytes[0] == w * 4 + x / 16);
        assert(bytes[1] == (x % 16) * 16 + y / 4);
        assert(bytes[2] == (y % 4) * 64 + z);
    }
}

} // verus!

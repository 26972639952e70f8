//! File paths and addresses as texts.
use vstd::prelude::*;
use vstd::utf8::{encode_utf8, is_ascii_chars, is_ascii_chars_encode_utf8};

use crate::text::{chars_of, join3, starts_with, text_of};

verus! {

/// The longest path that a Unix socket can have, in bytes.
pub const UNIX_SOCK_MAX_BYTES: usize = 103;

/// The number of bytes of a text.
pub open spec fn byte_len(s: Seq<char>) -> nat {
    encode_utf8(s).len()
}

pub fn byte_length(s: &str) -> (r: usize)
    ensures
        r == byte_len(s@),
{
    s.as_bytes().len()
}

/// Whether a path starts at the root.
pub open spec fn is_absolute(path: Seq<char>) -> bool {
    path.len() > 0 && path[0] == '/'
}

pub fn path_is_absolute(path: &str) -> (r: bool)
    ensures
        r == is_absolute(path@),
{
    proof {
        reveal_strlit("/");
        if path@.len() > 0 {
            assert(path@.subrange(0, 1)[0] == path@[0]);
            if path@[0] == '/' {
                assert(path@.subrange(0, 1) =~= "/"@);
            }
        }
    }
    starts_with(path, "/")
}

/// `base` and `name` as one path: an absolute name replaces the base.
pub open spec fn joined(base: Seq<char>, name: Seq<char>) -> Seq<char> {
    if name.len() > 0 && name[0] == '/' {
        name
    } else if base.len() == 0 || base.last() == '/' {
        base + name
    } else {
        base.push('/') + name
    }
}

pub fn join_path(base: &str, name: &str) -> (r: String)
    ensures
        r@ == joined(base@, name@),
{
    let b = chars_of(base);
    let n = chars_of(name);
    if n.len() > 0 && n[0] == '/' {
        return name.to_owned();
    }
    let mut out = base.to_owned();
    if b.len() > 0 && b[b.len() - 1] != '/' {
        out.push('/');
    }
    out.append(name);
    out
}

/// What follows the last `mark` in `s`; all of `s` where there is none.
pub open spec fn after_last(s: Seq<char>, mark: char) -> Seq<char>
    decreases s.len(),
{
    if s.len() == 0 || s.last() == mark {
        Seq::empty()
    } else {
        after_last(s.drop_last(), mark).push(s.last())
    }
}

/// `s` without the marks that it ends in.
pub open spec fn without_trailing(s: Seq<char>, mark: char) -> Seq<char>
    decreases s.len(),
{
    if s.len() > 0 && s.last() == mark {
        without_trailing(s.drop_last(), mark)
    } else {
        s
    }
}

pub fn text_after_last(s: &str, mark: char) -> (r: String)
    ensures
        r@ == after_last(s@, mark),
{
    let v = chars_of(s);
    let mut at: usize = v.len();
    proof {
        assert(v@.take(v@.len() as int) =~= v@);
        assert(v@.skip(v@.len() as int) =~= Seq::<char>::empty());
        assert(after_last(v@, mark) + Seq::<char>::empty() =~= after_last(v@, mark));
    }
    while at > 0 && v[at - 1] != mark
        invariant
            at <= v.len(),
            after_last(v@, mark) == after_last(v@.take(at as int), mark) + v@.skip(at as int),
        decreases at,
    {
        proof {
            let head = v@.take(at as int);
            assert(head.drop_last() =~= v@.take(at - 1));
            assert(after_last(v@.take(at - 1), mark).push(v@[at - 1]) + v@.skip(at as int)
                =~= after_last(v@.take(at - 1), mark) + v@.skip(at - 1));
        }
        at = at - 1;
    }
    proof {
        assert(after_last(v@.take(at as int), mark) =~= Seq::<char>::empty());
        assert(v@.skip(at as int) =~= v@.subrange(at as int, v@.len() as int));
        assert(Seq::<char>::empty() + v@.skip(at as int) =~= v@.skip(at as int));
    }
    text_of(&v, at, v.len())
}

pub fn strip_trailing(s: &str, mark: char) -> (r: String)
    ensures
        r@ == without_trailing(s@, mark),
{
    let v = chars_of(s);
    let mut to: usize = v.len();
    proof {
        assert(v@.take(v@.len() as int) =~= v@);
    }
    while to > 0 && v[to - 1] == mark
        invariant
            to <= v.len(),
            without_trailing(v@, mark) == without_trailing(v@.take(to as int), mark),
        decreases to,
    {
        proof {
            assert(v@.take(to as int).drop_last() =~= v@.take(to - 1));
        }
        to = to - 1;
    }
    proof {
        assert(v@.take(to as int) =~= v@.subrange(0, to as int));
    }
    text_of(&v, 0, to)
}

/// `s` with each `from` replaced by `into`.
pub open spec fn replaced(s: Seq<char>, from: char, into: Seq<char>) -> Seq<char>
    decreases s.len(),
{
    if s.len() == 0 {
        Seq::empty()
    } else if s.last() == from {
        replaced(s.drop_last(), from, into) + into
    } else {
        replaced(s.drop_last(), from, into).push(s.last())
    }
}

pub fn replace_char(s: &str, from: char, into: &str) -> (r: String)
    ensures
        r@ == replaced(s@, from, into@),
{
    let mut out: String = String::new();
    let v = chars_of(s);
    let mut i: usize = 0;
    while i < v.len()
        invariant
            i <= v.len(),
            v@ == s@,
            out@ == replaced(v@.take(i as int), from, into@),
        decreases v.len() - i,
    {
        proof {
            assert(v@.take(i + 1).drop_last() =~= v@.take(i as int));
        }
        if v[i] == from {
            out.append(into);
        } else {
            out.push(v[i]);
        }
        i = i + 1;
    }
    proof {
        assert(v@.take(v@.len() as int) =~= v@);
    }
    out
}

/// The 64-bit FNV-1a hash of `bytes`.
pub open spec fn fnv(bytes: Seq<u8>) -> u64
    decreases bytes.len(),
{
    if bytes.len() == 0 {
        0xcbf29ce484222325u64
    } else {
        (((fnv(bytes.drop_last()) ^ (bytes.last() as u64)) as nat * 0x100000001b3)
            % 0x1_0000_0000_0000_0000) as u64
    }
}

/// The character of one hexadecimal digit.
pub open spec fn hex_char(d: nat) -> char {
    if d < 10 {
        ((48 + d) as u32) as char
    } else {
        ((87 + d) as u32) as char
    }
}

/// The `width` lowest hexadecimal digits of `n`.
pub open spec fn hex(n: nat, width: nat) -> Seq<char>
    decreases width,
{
    if width == 0 {
        Seq::empty()
    } else {
        hex(n / 16, (width - 1) as nat).push(hex_char(n % 16))
    }
}

fn hex_text(n: u64, width: usize) -> (r: String)
    ensures
        r@ == hex(n as nat, width as nat),
    decreases width,
{
    if width == 0 {
        String::new()
    } else {
        let mut out = hex_text(n / 16, width - 1);
        let digit: u8 = (n % 16) as u8;
        let code: u8 = if digit < 10 {
            48 + digit
        } else {
            87 + digit
        };
        out.push(code as char);
        out
    }
}

/// The FNV-1a hash of `bytes` as sixteen hexadecimal digits.
pub fn fnv_hex(bytes: &[u8]) -> (r: String)
    ensures
        r@ == hex(fnv(bytes@) as nat, 16),
{
    let mut hash: u64 = 0xcbf29ce484222325u64;
    let mut i: usize = 0;
    while i < bytes.len()
        invariant
            i <= bytes.len(),
            hash == fnv(bytes@.take(i as int)),
        decreases bytes.len() - i,
    {
        proof {
            assert(bytes@.take(i + 1).drop_last() =~= bytes@.take(i as int));
        }
        hash = hash ^ (bytes[i] as u64);
        let product: u128 = (hash as u128) * 0x100000001b3;
        hash = (product % 0x1_0000_0000_0000_0000) as u64;
        i = i + 1;
    }
    proof {
        assert(bytes@.take(bytes@.len() as int) =~= bytes@);
    }
    hex_text(hash, 16)
}

/// The path of the socket `kind` below `data_root`, or one under `/tmp` where that is too long.
pub open spec fn socket_path(data_root: Seq<char>, kind: Seq<char>) -> Seq<char> {
    let preferred = joined(joined(data_root, "run"@), kind + ".sock"@);
    let token = hex(fnv(encode_utf8(data_root)) as nat, 16);
    let fallback = joined("/tmp"@, "zork-"@ + kind + "-"@ + token + ".sock"@);
    if byte_len(preferred) <= UNIX_SOCK_MAX_BYTES {
        preferred
    } else if byte_len(fallback) <= UNIX_SOCK_MAX_BYTES {
        fallback
    } else {
        joined("/tmp"@, "z"@ + token + ".sock"@)
    }
}

/// The path of the socket `kind` of the installation at `data_root`. It fits into a socket
/// address.
pub fn unix_socket_path(data_root: &str, kind: &str) -> (r: String)
    ensures
        r@ == socket_path(data_root@, kind@),
        byte_len(r@) <= UNIX_SOCK_MAX_BYTES,
{
    let run_dir = join_path(data_root, "run");
    let mut name = kind.to_owned();
    name.append(".sock");
    let preferred = join_path(&run_dir, &name);
    if byte_length(&preferred) <= UNIX_SOCK_MAX_BYTES {
        return preferred;
    }
    let token = fnv_hex(data_root.as_bytes());
    let mut fallback_name = "zork-".to_owned();
    fallback_name.append(kind);
    fallback_name.append("-");
    fallback_name.append(&token);
    fallback_name.append(".sock");
    let fallback = join_path("/tmp", &fallback_name);
    if byte_length(&fallback) <= UNIX_SOCK_MAX_BYTES {
        return fallback;
    }
    let short = join_path("/tmp", &join3("z", &token, ".sock"));
    proof {
        lemma_hex(fnv(encode_utf8(data_root@)) as nat, 16);
        reveal_strlit("/tmp");
        reveal_strlit("z");
        reveal_strlit(".sock");
        assert(is_ascii_chars(short@));
        is_ascii_chars_encode_utf8(short@);
    }
    short
}

proof fn lemma_hex(n: nat, width: nat)
    ensures
        hex(n, width).len() == width,
        is_ascii_chars(hex(n, width)),
    decreases width,
{
    if width > 0 {
        lemma_hex(n / 16, (width - 1) as nat);
    }
}

/// An absolute name replaces the base; a relative one stands behind the base, with one slash between
/// them where the base does not end in one.
pub proof fn names_stand_below_their_base(base: Seq<char>, name: Seq<char>)
    ensures
        name.len() > 0 && name[0] == '/' ==> joined(base, name) == name,
        name.len() == 0 || name[0] != '/' ==> {
            &&& base.len() == 0 ==> joined(base, name) == name
            &&& base.len() > 0 && base.last() == '/' ==> joined(base, name) == base + name
            &&& base.len() > 0 && base.last() != '/' ==> joined(base, name) == base + seq!['/']
                + name
        },
{
    assert(base.len() == 0 ==> base + name =~= name);
    assert(base.push('/') =~= base + seq!['/']);
}

/// What follows the last mark holds no mark and ends the text, and stands at its start or right
/// behind a mark.
pub proof fn ends_hold_no_mark(s: Seq<char>, mark: char)
    ensures
        ({
            let end = after_last(s, mark);
            &&& end.len() <= s.len()
            &&& end == s.skip(s.len() - end.len())
            &&& forall|i: int| 0 <= i < end.len() ==> #[trigger] end[i] != mark
            &&& end.len() < s.len() ==> s[s.len() - end.len() - 1] == mark
        }),
    decreases s.len(),
{
    if s.len() == 0 || s.last() == mark {
        assert(s.skip(s.len() as int) =~= Seq::empty());
    } else {
        let rest = s.drop_last();
        ends_hold_no_mark(rest, mark);
        let end = after_last(s, mark);
        assert(end =~= s.skip(s.len() - end.len()));
    }
}

/// Without the marks that it ends in a text is its start up to the last other character.
pub proof fn trailing_marks_are_dropped(s: Seq<char>, mark: char)
    ensures
        ({
            let kept = without_trailing(s, mark);
            &&& kept.len() <= s.len()
            &&& kept == s.take(kept.len() as int)
            &&& forall|i: int| kept.len() <= i < s.len() ==> #[trigger] s[i] == mark
            &&& kept.len() > 0 ==> kept.last() != mark
        }),
    decreases s.len(),
{
    if s.len() > 0 && s.last() == mark {
        let rest = s.drop_last();
        trailing_marks_are_dropped(rest, mark);
        let kept = without_trailing(rest, mark);
        assert(kept =~= s.take(kept.len() as int));
        assert forall|i: int| kept.len() <= i < s.len() implies #[trigger] s[i] == mark by {
            if i < rest.len() {
                assert(rest[i] == mark);
            }
        }
    } else {
        assert(s.take(s.len() as int) =~= s);
    }
}

/// Replacing a character works piece by piece: each one that is replaced becomes the new text, and
/// each other one stays.
pub proof fn characters_are_replaced_one_by_one(
    a: Seq<char>,
    b: Seq<char>,
    c: char,
    from: char,
    into: Seq<char>,
)
    ensures
        replaced(a + b, from, into) == replaced(a, from, into) + replaced(b, from, into),
        replaced(seq![c], from, into) == if c == from {
            into
        } else {
            seq![c]
        },
        replaced(Seq::empty(), from, into).len() == 0,
    decreases b.len(),
{
    assert(seq![c].drop_last() =~= Seq::empty());
    assert(replaced(Seq::empty(), from, into) =~= Seq::<char>::empty());
    assert(Seq::<char>::empty() + into =~= into);
    assert(Seq::<char>::empty().push(c) =~= seq![c]);
    assert(replaced(seq![c], from, into) == if c == from {
        replaced(Seq::empty(), from, into) + into
    } else {
        replaced(Seq::empty(), from, into).push(c)
    });
    assert(replaced(seq![c], from, into) =~= if c == from {
        into
    } else {
        seq![c]
    });
    if b.len() == 0 {
        assert(a + b =~= a);
        assert(replaced(a, from, into) + replaced(b, from, into) =~= replaced(a, from, into));
    } else {
        characters_are_replaced_one_by_one(a, b.drop_last(), c, from, into);
        assert((a + b).drop_last() =~= a + b.drop_last());
        assert(replaced(a + b, from, into) =~= replaced(a, from, into) + replaced(b, from, into));
    }
}

/// The number that hexadecimal digits stand for.
pub open spec fn hex_number(s: Seq<char>) -> nat
    decreases s.len(),
{
    if s.len() == 0 {
        0
    } else {
        let c = s.last();
        hex_number(s.drop_last()) * 16 + if '0' <= c <= '9' {
            (c as u32 - 48) as nat
        } else {
            (c as u32 - 87) as nat
        }
    }
}

/// Hexadecimal digits read back as the number, as far as there are digits, and are `0` to `9` and
/// `a` to `f`.
pub proof fn hexadecimals_read_back(n: nat, width: nat)
    ensures
        hex(n, width).len() == width,
        n < pow16(width) ==> hex_number(hex(n, width)) == n,
        forall|i: int|
            0 <= i < width ==> '0' <= #[trigger] hex(n, width)[i] <= '9' || 'a' <= hex(n, width)[i]
                <= 'f',
    decreases width,
{
    if width > 0 {
        hexadecimals_read_back(n / 16, (width - 1) as nat);
        assert(hex(n, width).drop_last() =~= hex(n / 16, (width - 1) as nat));
        let d = n % 16;
        assert(d < 10 ==> (hex_char(d) as u32) - 48 == d);
        assert(d >= 10 ==> (hex_char(d) as u32) - 87 == d);
    }
}

/// Sixteen to that power.
pub open spec fn pow16(width: nat) -> nat
    decreases width,
{
    if width == 0 {
        1
    } else {
        16 * pow16((width - 1) as nat)
    }
}

/// A hash starts at the offset of FNV-1a; each further byte is mixed in and the sum multiplied by
/// the prime, modulo two to the 64.
pub proof fn hashes_take_byte_after_byte(bytes: Seq<u8>, byte: u8)
    ensures
        fnv(Seq::empty()) == 14695981039346656037u64,
        fnv(bytes.push(byte)) as nat == ((fnv(bytes) ^ (byte as u64)) as nat * 1099511628211)
            % 18446744073709551616,
{
    assert(bytes.push(byte).drop_last() =~= bytes);
}

/// A socket stands in the directory `run` of its installation where the path fits into a socket
/// address. Where it does not it stands in `/tmp`, under a name that the hash of the installation's
/// path tells from others.
pub proof fn sockets_stand_where_they_fit(data_root: Seq<char>, kind: Seq<char>)
    ensures
        ({
            let preferred = joined(joined(data_root, "run"@), kind + ".sock"@);
            let token = hex(fnv(encode_utf8(data_root)) as nat, 16);
            &&& encode_utf8(preferred).len() <= 103 ==> socket_path(data_root, kind) == preferred
            &&& encode_utf8(preferred).len() > 103 ==> {
                let named = "/tmp/zork-"@ + kind + "-"@ + token + ".sock"@;
                let short = "/tmp/z"@ + token + ".sock"@;
                socket_path(data_root, kind) == if encode_utf8(named).len() <= 103 {
                    named
                } else {
                    short
                }
            }
        }),
{
    let token = hex(fnv(encode_utf8(data_root)) as nat, 16);
    reveal_strlit("/tmp");
    reveal_strlit("/tmp/zork-");
    reveal_strlit("zork-");
    reveal_strlit("/tmp/z");
    reveal_strlit("z");
    let a = "zork-"@ + kind + "-"@ + token + ".sock"@;
    let b = "z"@ + token + ".sock"@;
    assert(a[0] == 'z' && b[0] == 'z');
    assert("/tmp"@.last() == 'p');
    assert("/tmp"@.push('/') + "zork-"@ =~= "/tmp/zork-"@);
    assert("/tmp"@.push('/') + "z"@ =~= "/tmp/z"@);
    assert("/tmp"@.push('/') + a =~= ("/tmp"@.push('/') + "zork-"@) + kind + "-"@ + token
        + ".sock"@);
    assert("/tmp"@.push('/') + b =~= ("/tmp"@.push('/') + "z"@) + token + ".sock"@);
}

} // verus!

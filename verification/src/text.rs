//! Text as sequences of characters: the small vocabulary that the rest of the library is
//! written in, each operation with the sequence it stands for.
use vstd::prelude::*;

verus! {

/// `String::push`: appends one character and changes nothing else.
pub assume_specification[ String::push ](s: &mut String, c: char)
    ensures
        final(s)@ == old(s)@.push(c),
;

/// The characters with the Unicode property `White_Space`.
pub open spec fn is_space(c: char) -> bool {
    let n = c as u32;
    ||| 0x09 <= n <= 0x0d
    ||| n == 0x20
    ||| n == 0x85
    ||| n == 0xa0
    ||| n == 0x1680
    ||| 0x2000 <= n <= 0x200a
    ||| n == 0x2028
    ||| n == 0x2029
    ||| n == 0x202f
    ||| n == 0x205f
    ||| n == 0x3000
}

/// `s` without the white space at its start.
pub open spec fn trimmed_start(s: Seq<char>) -> Seq<char>
    decreases s.len(),
{
    if s.len() > 0 && is_space(s[0]) {
        trimmed_start(s.drop_first())
    } else {
        s
    }
}

/// `s` without the white space at its end.
pub open spec fn trimmed_end(s: Seq<char>) -> Seq<char>
    decreases s.len(),
{
    if s.len() > 0 && is_space(s.last()) {
        trimmed_end(s.drop_last())
    } else {
        s
    }
}

/// `s` without the white space at both ends.
pub open spec fn trimmed(s: Seq<char>) -> Seq<char> {
    trimmed_end(trimmed_start(s))
}

/// Whether nothing but white space is in `s`.
pub open spec fn is_blank(s: Seq<char>) -> bool {
    trimmed(s).len() == 0
}

pub open spec fn is_upper(c: char) -> bool {
    'A' <= c <= 'Z'
}

pub open spec fn is_lower(c: char) -> bool {
    'a' <= c <= 'z'
}

pub open spec fn is_digit(c: char) -> bool {
    '0' <= c <= '9'
}

pub open spec fn is_alnum(c: char) -> bool {
    is_upper(c) || is_lower(c) || is_digit(c)
}

/// The ASCII lower-case form of one character.
pub open spec fn lower(c: char) -> char {
    if is_upper(c) {
        ((c as u32) + 32) as char
    } else {
        c
    }
}

/// Whether `part` stands in `s` at position `at`.
pub open spec fn occurs_at(s: Seq<char>, part: Seq<char>, at: int) -> bool {
    0 <= at && at + part.len() <= s.len() && s.subrange(at, at + part.len()) == part
}

/// Whether `part` stands anywhere in `s`.
pub open spec fn has_part(s: Seq<char>, part: Seq<char>) -> bool {
    exists|at: int| occurs_at(s, part, at)
}

pub open spec fn has_prefix(s: Seq<char>, prefix: Seq<char>) -> bool {
    occurs_at(s, prefix, 0)
}

pub open spec fn has_suffix(s: Seq<char>, suffix: Seq<char>) -> bool {
    occurs_at(s, suffix, s.len() - suffix.len())
}

/// The order of texts: by the first character in which they differ, a shorter text before what
/// continues it.
pub open spec fn text_less(a: Seq<char>, b: Seq<char>) -> bool
    decreases b.len(),
{
    if b.len() == 0 {
        false
    } else if a.len() == 0 {
        true
    } else {
        a[0] < b[0] || (a[0] == b[0] && text_less(a.drop_first(), b.drop_first()))
    }
}

/// The decimal digits of `n`, without leading zeros.
pub open spec fn decimal(n: nat) -> Seq<char>
    decreases n,
{
    if n < 10 {
        seq![digit_char(n)]
    } else {
        decimal(n / 10).push(digit_char(n % 10))
    }
}

/// The character of one decimal digit.
pub open spec fn digit_char(d: nat) -> char {
    ((48 + d) as u32) as char
}

/// The `width` lowest decimal digits of `n`, leading zeros kept.
pub open spec fn digits(n: nat, width: nat) -> Seq<char>
    decreases width,
{
    if width == 0 {
        Seq::empty()
    } else {
        digits(n / 10, (width - 1) as nat).push(digit_char(n % 10))
    }
}

/// The parts of `s` between the marks.
pub open spec fn split(s: Seq<char>, mark: char) -> Seq<Seq<char>>
    decreases s.len(),
{
    if s.len() == 0 {
        seq![Seq::<char>::empty()]
    } else {
        let parts = split(s.drop_last(), mark);
        if s.last() == mark {
            parts.push(Seq::empty())
        } else {
            parts.drop_last().push(parts.last().push(s.last()))
        }
    }
}

/// The parts in a row, with `between` between two of them.
pub open spec fn joined_with(parts: Seq<Seq<char>>, between: Seq<char>) -> Seq<char>
    decreases parts.len(),
{
    if parts.len() == 0 {
        Seq::empty()
    } else if parts.len() == 1 {
        parts[0]
    } else {
        joined_with(parts.drop_last(), between) + between + parts.last()
    }
}

/// The views of a list of strings.
pub open spec fn texts(v: Seq<String>) -> Seq<Seq<char>> {
    v.map_values(|s: String| s@)
}

/// Whether two texts hold the same characters.
pub fn same(a: &str, b: &str) -> (r: bool)
    ensures
        r == (a@ == b@),
{
    let left = a.to_owned();
    let right = b.to_owned();
    left == right
}

/// The characters of `s`.
pub fn chars_of(s: &str) -> (r: Vec<char>)
    ensures
        r@ == s@,
{
    let mut out: Vec<char> = Vec::new();
    for c in it: s.chars()
        invariant
            it.seq() == s@,
            out@ == s@.take(it.index() as int),
    {
        out.push(c);
    }
    out
}

/// The text that the characters `from..to` of `v` make.
pub fn text_of(v: &Vec<char>, from: usize, to: usize) -> (r: String)
    requires
        from <= to <= v.len(),
    ensures
        r@ == v@.subrange(from as int, to as int),
{
    let mut out: String = String::new();
    let mut i: usize = from;
    while i < to
        invariant
            from <= i <= to <= v.len(),
            out@ == v@.subrange(from as int, i as int),
        decreases to - i,
    {
        out.push(v[i]);
        i = i + 1;
    }
    out
}

pub fn char_is_space(c: char) -> (r: bool)
    ensures
        r == is_space(c),
{
    let n: u32 = c as u32;
    (0x09 <= n && n <= 0x0d) || n == 0x20 || n == 0x85 || n == 0xa0 || n == 0x1680 || (0x2000 <= n
        && n <= 0x200a) || n == 0x2028 || n == 0x2029 || n == 0x202f || n == 0x205f || n == 0x3000
}

pub fn char_is_digit(c: char) -> (r: bool)
    ensures
        r == is_digit(c),
{
    '0' <= c && c <= '9'
}

pub fn char_is_alnum(c: char) -> (r: bool)
    ensures
        r == is_alnum(c),
{
    ('A' <= c && c <= 'Z') || ('a' <= c && c <= 'z') || ('0' <= c && c <= '9')
}

pub fn char_lower(c: char) -> (r: char)
    ensures
        r == lower(c),
{
    if 'A' <= c && c <= 'Z' {
        let n: u8 = (c as u8) + 32;
        n as char
    } else {
        c
    }
}

/// Texts that agree up to a position are ordered by the characters there.
pub proof fn less_at(a: Seq<char>, b: Seq<char>, at: int)
    requires
        0 <= at < a.len(),
        at < b.len(),
        forall|i: int| 0 <= i < at ==> #[trigger] a[i] == b[i],
        a[at] < b[at],
    ensures
        text_less(a, b),
    decreases at,
{
    if at > 0 {
        let x = a.drop_first();
        let y = b.drop_first();
        assert(a[0] == b[0]);
        assert forall|i: int| 0 <= i < at - 1 implies #[trigger] x[i] == y[i] by {
            assert(a[i + 1] == b[i + 1]);
        }
        less_at(x, y, at - 1);
    }
}

proof fn less_irreflexive(a: Seq<char>)
    ensures
        !text_less(a, a),
    decreases a.len(),
{
    if a.len() > 0 {
        less_irreflexive(a.drop_first());
    }
}

/// The order of texts is total and strict.
pub proof fn less_total(a: Seq<char>, b: Seq<char>)
    ensures
        !(text_less(a, b) && text_less(b, a)),
        !text_less(a, a),
        text_less(a, b) || a == b || text_less(b, a),
    decreases a.len() + b.len(),
{
    less_irreflexive(a);
    if a.len() > 0 && b.len() > 0 {
        less_total(a.drop_first(), b.drop_first());
        if a[0] == b[0] && a.drop_first() == b.drop_first() {
            assert(a =~= seq![a[0]] + a.drop_first());
            assert(b =~= seq![b[0]] + b.drop_first());
        }
    } else if a.len() == 0 && b.len() == 0 {
        assert(a =~= b);
    }
}

/// The order of texts is transitive.
pub proof fn less_transitive(a: Seq<char>, b: Seq<char>, c: Seq<char>)
    requires
        text_less(a, b),
        text_less(b, c),
    ensures
        text_less(a, c),
    decreases a.len(),
{
    if a.len() > 0 && a[0] == b[0] && b[0] == c[0] {
        less_transitive(a.drop_first(), b.drop_first(), c.drop_first());
    }
}

/// Trimming, as one range of positions.
pub proof fn trim_range(s: Seq<char>, from: int, to: int)
    requires
        0 <= from <= to <= s.len(),
        forall|i: int| 0 <= i < from ==> is_space(#[trigger] s[i]),
        forall|i: int| to <= i < s.len() ==> is_space(#[trigger] s[i]),
        from < to ==> !is_space(s[from]) && !is_space(s[to - 1]),
        from == to ==> from == s.len(),
    ensures
        trimmed(s) == s.subrange(from, to),
        trimmed_start(s) == s.subrange(from, s.len() as int),
    decreases s.len(),
{
    trim_start_range(s, from);
    trim_end_range(trimmed_start(s), to - from);
    assert(s.subrange(from, s.len() as int).subrange(0, to - from) =~= s.subrange(from, to));
}

proof fn trim_start_range(s: Seq<char>, from: int)
    requires
        0 <= from <= s.len(),
        forall|i: int| 0 <= i < from ==> is_space(#[trigger] s[i]),
        from < s.len() ==> !is_space(s[from]),
    ensures
        trimmed_start(s) == s.subrange(from, s.len() as int),
    decreases s.len(),
{
    if from > 0 {
        let rest = s.drop_first();
        assert(forall|i: int| 0 <= i < rest.len() ==> rest[i] == s[i + 1]);
        trim_start_range(rest, from - 1);
        assert(rest.subrange(from - 1, rest.len() as int) =~= s.subrange(from, s.len() as int));
    } else {
        assert(s.subrange(0, s.len() as int) =~= s);
    }
}

proof fn trim_end_range(s: Seq<char>, to: int)
    requires
        0 <= to <= s.len(),
        forall|i: int| to <= i < s.len() ==> is_space(#[trigger] s[i]),
        to > 0 ==> !is_space(s[to - 1]),
    ensures
        trimmed_end(s) == s.subrange(0, to),
    decreases s.len(),
{
    if to < s.len() {
        let rest = s.drop_last();
        assert(forall|i: int| 0 <= i < rest.len() ==> rest[i] == s[i]);
        trim_end_range(rest, to);
        assert(rest.subrange(0, to) =~= s.subrange(0, to));
    } else {
        assert(s.subrange(0, to) =~= s);
    }
}

/// `s` without the white space at both ends.
pub fn trim(s: &str) -> (r: String)
    ensures
        r@ == trimmed(s@),
{
    let v = chars_of(s);
    let mut from: usize = 0;
    while from < v.len() && char_is_space(v[from])
        invariant
            from <= v.len(),
            forall|i: int| 0 <= i < from ==> is_space(#[trigger] v@[i]),
        decreases v.len() - from,
    {
        from = from + 1;
    }
    let mut to: usize = v.len();
    while to > from && char_is_space(v[to - 1])
        invariant
            from <= to <= v.len(),
            from < v.len() ==> !is_space(v@[from as int]),
            forall|i: int| to <= i < v.len() ==> is_space(#[trigger] v@[i]),
        decreases to,
    {
        to = to - 1;
    }
    proof {
        trim_range(v@, from as int, to as int);
    }
    text_of(&v, from, to)
}

/// Whether `part` stands in `v` at position `at`.
pub fn occurs(v: &Vec<char>, part: &Vec<char>, at: usize) -> (r: bool)
    ensures
        r == occurs_at(v@, part@, at as int),
{
    if at > v.len() || part.len() > v.len() - at {
        return false;
    }
    let mut i: usize = 0;
    while i < part.len()
        invariant
            at + part.len() <= v.len(),
            i <= part.len(),
            forall|j: int| 0 <= j < i ==> v@[at + j] == #[trigger] part@[j],
        decreases part.len() - i,
    {
        if v[at + i] != part[i] {
            proof {
                assert(v@.subrange(at as int, at + part@.len())[i as int] == v@[at + i]);
            }
            return false;
        }
        i = i + 1;
    }
    proof {
        assert(v@.subrange(at as int, at + part@.len()) =~= part@);
    }
    true
}

/// The first position of `part` in `v` at or after `from`.
pub fn find(v: &Vec<char>, part: &Vec<char>, from: usize) -> (r: Option<usize>)
    ensures
        match r {
            Some(at) => {
                &&& from <= at
                &&& occurs_at(v@, part@, at as int)
                &&& forall|i: int| from <= i < at ==> !occurs_at(v@, part@, i)
            },
            None => forall|i: int| from <= i ==> !occurs_at(v@, part@, i),
        },
{
    let mut at: usize = from;
    while at < v.len()
        invariant
            from <= at,
            forall|i: int| from <= i < at ==> !occurs_at(v@, part@, i),
        decreases v.len() - at,
    {
        if occurs(v, part, at) {
            return Some(at);
        }
        at = at + 1;
    }
    if occurs(v, part, at) {
        return Some(at);
    }
    None
}

/// Whether `part` stands anywhere in `s`.
pub fn contains(s: &str, part: &str) -> (r: bool)
    ensures
        r == has_part(s@, part@),
{
    let v = chars_of(s);
    let p = chars_of(part);
    let found = find(&v, &p, 0);
    proof {
        if found is Some {
            assert(occurs_at(s@, part@, found->0 as int));
        }
    }
    found.is_some()
}

pub fn starts_with(s: &str, prefix: &str) -> (r: bool)
    ensures
        r == has_prefix(s@, prefix@),
{
    let v = chars_of(s);
    let p = chars_of(prefix);
    occurs(&v, &p, 0)
}

pub fn ends_with(s: &str, suffix: &str) -> (r: bool)
    ensures
        r == has_suffix(s@, suffix@),
{
    let v = chars_of(s);
    let p = chars_of(suffix);
    if p.len() > v.len() {
        return false;
    }
    occurs(&v, &p, v.len() - p.len())
}

/// What follows `prefix` in `s`, if `s` starts with it.
pub fn strip_prefix(s: &str, prefix: &str) -> (r: Option<String>)
    ensures
        match r {
            Some(rest) => has_prefix(s@, prefix@) && rest@ == s@.skip(prefix@.len() as int),
            None => !has_prefix(s@, prefix@),
        },
{
    let v = chars_of(s);
    let p = chars_of(prefix);
    if occurs(&v, &p, 0) {
        Some(text_of(&v, p.len(), v.len()))
    } else {
        None
    }
}

/// Whether `a` comes before `b`.
pub fn less(a: &str, b: &str) -> (r: bool)
    ensures
        r == text_less(a@, b@),
{
    let x = chars_of(a);
    let y = chars_of(b);
    proof {
        assert(x@.skip(0) =~= x@);
        assert(y@.skip(0) =~= y@);
    }
    let mut i: usize = 0;
    while i < x.len() && i < y.len() && x[i] == y[i]
        invariant
            i <= x.len(),
            i <= y.len(),
            text_less(x@, y@) == text_less(x@.skip(i as int), y@.skip(i as int)),
        decreases x.len() - i,
    {
        proof {
            assert(x@.skip(i as int).drop_first() =~= x@.skip(i + 1));
            assert(y@.skip(i as int).drop_first() =~= y@.skip(i + 1));
        }
        i = i + 1;
    }
    if i == y.len() {
        false
    } else if i == x.len() {
        true
    } else {
        x[i] < y[i]
    }
}

/// The text of `a` followed by that of `b`.
pub fn join2(a: &str, b: &str) -> (r: String)
    ensures
        r@ == a@ + b@,
{
    let mut out = a.to_owned();
    out.append(b);
    out
}

/// The text of `a`, `b` and `c` in a row.
pub fn join3(a: &str, b: &str, c: &str) -> (r: String)
    ensures
        r@ == a@ + b@ + c@,
{
    let mut out = a.to_owned();
    out.append(b);
    out.append(c);
    out
}

/// The parts of `s` between the marks.
pub fn split_text(s: &str, mark: char) -> (r: Vec<String>)
    ensures
        texts(r@) == split(s@, mark),
{
    let v = chars_of(s);
    let mut parts: Vec<String> = Vec::new();
    let mut current: String = String::new();
    let mut i: usize = 0;
    proof {
        assert(v@.take(0) =~= Seq::<char>::empty());
        assert(texts(parts@).push(current@) =~= split(v@.take(0), mark));
    }
    while i < v.len()
        invariant
            i <= v.len(),
            v@ == s@,
            texts(parts@).push(current@) == split(v@.take(i as int), mark),
        decreases v.len() - i,
    {
        let ghost before = split(v@.take(i as int), mark);
        let ghost earlier = parts@;
        proof {
            assert(v@.take(i + 1).drop_last() =~= v@.take(i as int));
            assert(before.drop_last() =~= texts(parts@));
            assert(before.last() == current@);
        }
        if v[i] == mark {
            parts.push(current);
            current = String::new();
            proof {
                assert(texts(parts@) =~= before);
                assert(current@ =~= Seq::<char>::empty());
            }
        } else {
            current.push(v[i]);
        }
        i = i + 1;
    }
    proof {
        assert(v@.take(v@.len() as int) =~= v@);
    }
    let ghost earlier = texts(parts@);
    parts.push(current);
    proof {
        assert(texts(parts@) =~= earlier.push(current@));
    }
    parts
}

/// The parts in a row, with `between` between two of them.
pub fn join_all(parts: &Vec<String>, between: &str) -> (r: String)
    ensures
        r@ == joined_with(texts(parts@), between@),
{
    let mut out: String = String::new();
    let mut i: usize = 0;
    let ghost all = texts(parts@);
    proof {
        assert(all.take(0) =~= Seq::<Seq<char>>::empty());
    }
    while i < parts.len()
        invariant
            i <= parts.len(),
            all == texts(parts@),
            out@ == joined_with(all.take(i as int), between@),
        decreases parts.len() - i,
    {
        proof {
            assert(all.take(i + 1).drop_last() =~= all.take(i as int));
            assert(all.take(i + 1).last() == parts@[i as int]@);
        }
        if i > 0 {
            out.append(between);
        }
        out.append(&parts[i]);
        proof {
            if i == 0 {
                assert(out@ =~= parts@[0]@);
            }
        }
        i = i + 1;
    }
    proof {
        assert(all.take(all.len() as int) =~= all);
    }
    out
}

/// The decimal digits of `n`.
pub fn decimal_text(n: u64) -> (r: String)
    ensures
        r@ == decimal(n as nat),
    decreases n,
{
    if n < 10 {
        let mut out: String = String::new();
        out.push(digit_text(n));
        out
    } else {
        let mut out = decimal_text(n / 10);
        out.push(digit_text(n % 10));
        out
    }
}

/// The character of one decimal digit.
pub fn digit_text(d: u64) -> (r: char)
    requires
        d < 10,
    ensures
        r == digit_char(d as nat),
{
    let code: u8 = 48 + (d as u8);
    code as char
}

/// The `width` lowest decimal digits of `n`.
pub fn digits_text(n: u64, width: usize) -> (r: String)
    ensures
        r@ == digits(n as nat, width as nat),
    decreases width,
{
    if width == 0 {
        String::new()
    } else {
        let mut out = digits_text(n / 10, width - 1);
        out.push(digit_text(n % 10));
        out
    }
}

/// The number that decimal digits stand for.
pub open spec fn number_of(s: Seq<char>) -> nat
    decreases s.len(),
{
    if s.len() == 0 {
        0
    } else {
        (number_of(s.drop_last()) * 10 + ((s.last() as u32) - 48)) as nat
    }
}

/// `s` without the plus sign that it may start with.
pub open spec fn without_plus(s: Seq<char>) -> Seq<char> {
    if s.len() > 0 && s[0] == '+' {
        s.drop_first()
    } else {
        s
    }
}

/// Whether `s` is decimal digits, at least one.
pub open spec fn is_decimal(s: Seq<char>) -> bool {
    s.len() > 0 && forall|i: int| 0 <= i < s.len() ==> is_digit(#[trigger] s[i])
}

/// The number in `s` as a `u32`: decimal digits, with or without a plus sign.
pub open spec fn u32_of(s: Seq<char>) -> Option<u32> {
    let body = without_plus(s);
    if is_decimal(body) && number_of(body) <= u32::MAX {
        Some(number_of(body) as u32)
    } else {
        None
    }
}

/// The number in `s` as a `u64`: decimal digits, with or without a plus sign.
pub open spec fn u64_of(s: Seq<char>) -> Option<u64> {
    let body = without_plus(s);
    if is_decimal(body) && number_of(body) <= u64::MAX {
        Some(number_of(body) as u64)
    } else {
        None
    }
}

/// Reads a `u64` in decimal.
pub fn parse_u64(s: &str) -> (r: Option<u64>)
    ensures
        r == u64_of(s@),
{
    let v = chars_of(s);
    let start: usize = if v.len() > 0 && v[0] == '+' {
        1
    } else {
        0
    };
    let ghost body = without_plus(v@);
    proof {
        assert(body =~= v@.skip(start as int));
    }
    if start == v.len() {
        return None;
    }
    let mut value: u128 = 0;
    let mut too_big: bool = false;
    let mut i: usize = start;
    while i < v.len()
        invariant
            start <= i <= v.len(),
            v@ == s@,
            body == v@.skip(start as int),
            body == without_plus(s@),
            forall|j: int| 0 <= j < i - start ==> is_digit(#[trigger] body[j]),
            !too_big ==> value <= u64::MAX && value == number_of(body.take(i - start)),
            too_big ==> number_of(body.take(i - start)) > u64::MAX,
        decreases v.len() - i,
    {
        let c: char = v[i];
        proof {
            assert(body[i - start] == c);
            assert(body.take(i - start + 1).drop_last() =~= body.take(i - start));
        }
        if !char_is_digit(c) {
            proof {
                assert(!is_digit(body[i - start]));
            }
            return None;
        }
        if !too_big {
            value = value * 10 + ((c as u8) - 48) as u128;
            if value > u64::MAX as u128 {
                too_big = true;
            }
        }
        i = i + 1;
    }
    proof {
        assert(body.take(body.len() as int) =~= body);
    }
    if too_big {
        None
    } else {
        Some(value as u64)
    }
}

/// Reads a `u32` in decimal.
pub fn parse_u32(s: &str) -> (r: Option<u32>)
    ensures
        r == u32_of(s@),
{
    match parse_u64(s) {
        Some(value) => if value <= u32::MAX as u64 {
            Some(value as u32)
        } else {
            None
        },
        None => None,
    }
}

/// A number that is written in decimal digits reads back as the number.
pub proof fn decimals_read_back(n: nat)
    ensures
        number_of(decimal(n)) == n,
        decimal(n).len() > 0,
        forall|i: int| 0 <= i < decimal(n).len() ==> '0' <= #[trigger] decimal(n)[i] <= '9',
        n > 0 ==> decimal(n)[0] != '0',
    decreases n,
{
    if n < 10 {
        assert(decimal(n).drop_last() =~= Seq::<char>::empty());
        reveal_with_fuel(number_of, 2);
        assert((digit_char(n) as u32) - 48 == n);
    } else {
        decimals_read_back(n / 10);
        assert(decimal(n).drop_last() =~= decimal(n / 10));
        assert((digit_char(n % 10) as u32) - 48 == n % 10);
        assert(decimal(n)[0] == decimal(n / 10)[0]);
    }
}

/// Where the text without its white space starts and ends.
proof fn lemma_bounds(s: Seq<char>) -> (bounds: (int, int))
    ensures
        0 <= bounds.0 <= bounds.1 <= s.len(),
        forall|i: int| 0 <= i < bounds.0 ==> is_space(#[trigger] s[i]),
        forall|i: int| bounds.1 <= i < s.len() ==> is_space(#[trigger] s[i]),
        bounds.0 < bounds.1 ==> !is_space(s[bounds.0]) && !is_space(s[bounds.1 - 1]),
        bounds.0 == bounds.1 ==> bounds.0 == s.len(),
    decreases s.len(),
{
    if s.len() == 0 {
        (0, 0)
    } else if is_space(s.last()) {
        let rest = s.drop_last();
        let (from, to) = lemma_bounds(rest);
        assert forall|i: int| 0 <= i < rest.len() implies #[trigger] s[i] == rest[i] by {}
        if from == to {
            (s.len() as int, s.len() as int)
        } else {
            (from, to)
        }
    } else {
        let from = lemma_first_mark(s);
        (from, s.len() as int)
    }
}

proof fn lemma_first_mark(s: Seq<char>) -> (at: int)
    requires
        s.len() > 0,
        !is_space(s.last()),
    ensures
        0 <= at < s.len(),
        !is_space(s[at]),
        forall|i: int| 0 <= i < at ==> is_space(#[trigger] s[i]),
    decreases s.len(),
{
    if is_space(s[0]) {
        let rest = s.drop_first();
        assert(rest.last() == s.last());
        let at = lemma_first_mark(rest);
        assert forall|i: int| 0 <= i < at + 1 implies is_space(#[trigger] s[i]) by {
            if i > 0 {
                assert(rest[i - 1] == s[i]);
            }
        }
        at + 1
    } else {
        0
    }
}

/// Trimming takes away white space at both ends and nothing else: what is left is a piece of the
/// text that neither starts nor ends in white space, and around it there is only white space. A text
/// is blank exactly where it is white space throughout.
pub proof fn trimming_takes_white_space_only(s: Seq<char>)
    ensures
        exists|from: int, to: int|
            {
                &&& 0 <= from <= to <= s.len()
                &&& trimmed(s) == #[trigger] s.subrange(from, to)
                &&& forall|i: int| 0 <= i < from || to <= i < s.len() ==> is_space(#[trigger] s[i])
            },
        trimmed(s).len() > 0 ==> !is_space(trimmed(s)[0]) && !is_space(trimmed(s).last()),
        is_blank(s) <==> forall|i: int| 0 <= i < s.len() ==> is_space(#[trigger] s[i]),
{
    let (from, to) = lemma_bounds(s);
    trim_range(s, from, to);
    assert(trimmed(s) == s.subrange(from, to));
    if from < to {
        assert(trimmed(s)[0] == s[from]);
        assert(trimmed(s).last() == s[to - 1]);
    }
}

/// Among the ASCII characters the white space is the space, the tabulators, the line break, the form
/// feed and the carriage return.
pub proof fn ascii_white_space(c: char)
    requires
        (c as u32) < 128,
    ensures
        is_space(c) <==> c == ' ' || c == '\t' || c == '\n' || c == '\r' || c as u32 == 11 || c as u32
            == 12,
{
}

/// Splitting cuts at each mark and loses nothing else: no part holds a mark, there is one part more
/// than there are marks, and the parts with a mark between them are the text.
pub proof fn splitting_cuts_at_the_marks(s: Seq<char>, mark: char)
    ensures
        ({
            let parts = split(s, mark);
            &&& parts.len() == s.filter(|c: char| c == mark).len() + 1
            &&& joined_with(parts, seq![mark]) == s
            &&& forall|i: int, j: int|
                0 <= i < parts.len() && 0 <= j < parts[i].len() ==> #[trigger] parts[i][j] != mark
        }),
    decreases s.len(),
{
    reveal(Seq::filter);
    let parts = split(s, mark);
    if s.len() == 0 {
        assert(joined_with(parts, seq![mark]) =~= s);
    } else {
        let rest = s.drop_last();
        let before = split(rest, mark);
        splitting_cuts_at_the_marks(rest, mark);
        assert(s =~= rest.push(s.last()));
        if s.last() == mark {
            assert(parts.drop_last() =~= before);
            assert(joined_with(parts, seq![mark]) =~= s);
        } else {
            assert(parts.drop_last() =~= before.drop_last());
            assert(joined_with(parts, seq![mark]) =~= s);
        }
        assert forall|i: int, j: int|
            0 <= i < parts.len() && 0 <= j < parts[i].len() implies #[trigger] parts[i][j]
            != mark by {
            if i < before.len() - 1 {
                assert(parts[i] == before[i]);
                assert(before[i][j] != mark);
            } else if s.last() == mark {
                if i < before.len() {
                    assert(parts[i] == before[i]);
                    assert(before[i][j] != mark);
                }
            } else {
                assert(parts[i] == before.last().push(s.last()));
                if j < before.last().len() {
                    assert(before[before.len() - 1][j] != mark);
                }
            }
        }
    }
}

/// A number that is written in decimal digits is read, with or without a plus sign, if it fits. An
/// empty text, one with anything else in it, and a number that does not fit are refused.
pub proof fn numbers_are_read(n: nat, s: Seq<char>)
    ensures
        n <= u64::MAX ==> u64_of(decimal(n)) == Some(n as u64) && u64_of(seq!['+'] + decimal(n))
            == Some(n as u64),
        n > u64::MAX ==> u64_of(decimal(n)) is None,
        n <= u32::MAX ==> u32_of(decimal(n)) == Some(n as u32) && u32_of(seq!['+'] + decimal(n))
            == Some(n as u32),
        n > u32::MAX ==> u32_of(decimal(n)) is None,
        u64_of(Seq::empty()) is None && u32_of(Seq::empty()) is None,
        forall|i: int|
            0 < i < s.len() && !('0' <= #[trigger] s[i] <= '9') ==> u64_of(s) is None && u32_of(
                s,
            ) is None,
        s.len() > 0 && !('0' <= s[0] <= '9' || s[0] == '+') ==> u64_of(s) is None && u32_of(s) is
            None,
{
    decimals_read_back(n);
    let text = decimal(n);
    assert(text[0] != '+');
    assert((seq!['+'] + text).drop_first() =~= text);
    assert((seq!['+'] + text)[0] == '+');
    assert(is_decimal(text)) by {
        assert forall|i: int| 0 <= i < text.len() implies is_digit(#[trigger] text[i]) by {
            assert('0' <= decimal(n)[i] <= '9');
        }
    }
    assert forall|i: int| 0 < i < s.len() && !('0' <= #[trigger] s[i] <= '9') implies u64_of(s) is
        None && u32_of(s) is None by {
        let body = without_plus(s);
        if s[0] == '+' {
            assert(body[i - 1] == s[i]);
        } else {
            assert(body[i] == s[i]);
        }
    }
    if s.len() > 0 && !('0' <= s[0] <= '9' || s[0] == '+') {
        assert(!is_digit(without_plus(s)[0]));
    }
}

/// A text comes before every text that continues it, and of two that differ the one with the smaller
/// character at the first place of difference comes first.
pub proof fn texts_are_ordered_by_their_first_difference(
    start: Seq<char>,
    a: Seq<char>,
    b: Seq<char>,
    x: char,
    y: char,
)
    requires
        x < y,
    ensures
        b.len() > 0 ==> text_less(start, start + b),
        text_less(start.push(x) + a, start.push(y) + b),
    decreases start.len(),
{
    if start.len() == 0 {
        assert((start + b) =~= b);
        assert((start.push(x) + a)[0] == x && (start.push(y) + b)[0] == y);
    } else {
        let rest = start.drop_first();
        texts_are_ordered_by_their_first_difference(rest, a, b, x, y);
        assert((start + b).drop_first() =~= rest + b);
        assert((start.push(x) + a).drop_first() =~= rest.push(x) + a);
        assert((start.push(y) + b).drop_first() =~= rest.push(y) + b);
        assert((start + b)[0] == start[0]);
        assert((start.push(x) + a)[0] == start[0] && (start.push(y) + b)[0] == start[0]);
    }
}

/// A text holds each of its pieces, starts with its starts and ends with its ends; what it holds is
/// a piece of it.
pub proof fn texts_hold_their_pieces(a: Seq<char>, part: Seq<char>, b: Seq<char>)
    ensures
        has_part(a + part + b, part),
        has_prefix(part + b, part),
        has_suffix(a + part, part),
        forall|s: Seq<char>| #[trigger]
            has_part(s, part) ==> exists|before: Seq<char>, behind: Seq<char>|
                s == #[trigger] (before + part + behind),
{
    let s = a + part + b;
    assert(s.subrange(a.len() as int, (a.len() + part.len()) as int) =~= part);
    assert(occurs_at(s, part, a.len() as int));
    assert((part + b).subrange(0, part.len() as int) =~= part);
    assert((a + part).subrange(a.len() as int, (a + part).len() as int) =~= part);
    assert forall|s: Seq<char>| #[trigger] has_part(s, part) implies exists|
        before: Seq<char>,
        behind: Seq<char>,
    |
        s == #[trigger] (before + part + behind) by {
        let at = choose|at: int| occurs_at(s, part, at);
        let before = s.take(at);
        let behind = s.skip(at + part.len());
        assert(s =~= before + s.subrange(at, at + part.len()) + behind);
        assert(s == before + part + behind);
    }
}

/// Capital ASCII letters have their small letter as lower-case form, and every other character has
/// itself; letters and digits are the ASCII ones.
pub proof fn ascii_letters_have_small_forms(c: char)
    ensures
        'A' <= c <= 'Z' ==> lower(c) as u32 == c as u32 + ('a' as u32 - 'A' as u32),
        !('A' <= c <= 'Z') ==> lower(c) == c,
        is_alnum(c) <==> 'A' <= c <= 'Z' || 'a' <= c <= 'z' || '0' <= c <= '9',
{
}

} // verus!

//! Bytes in pages and text from bytes.
use vstd::prelude::*;
use vstd::utf8::{encode_utf8, valid_utf8};

use crate::sse::utf8_text;

verus! {

/// A part of a file, and where the next one starts.
#[derive(Debug)]
pub struct FilePage {
    pub bytes: Vec<u8>,
    pub offset: u64,
    pub total_size: u64,
    pub next_offset: Option<u64>,
}

/// What a page holds.
pub struct PageModel {
    pub bytes: Seq<u8>,
    pub offset: u64,
    pub total_size: nat,
    pub next_offset: Option<nat>,
}

impl View for FilePage {
    type V = PageModel;

    open spec fn view(&self) -> PageModel {
        PageModel {
            bytes: self.bytes@,
            offset: self.offset,
            total_size: self.total_size as nat,
            next_offset: match self.next_offset {
                Some(next) => Some(next as nat),
                None => None,
            },
        }
    }
}

/// Where a page of at most `limit` of `total` bytes from `offset` on starts and ends.
pub open spec fn span_of(total: nat, offset: u64, limit: u64) -> (nat, nat) {
    let start = if offset < total {
        offset as nat
    } else {
        total
    };
    let end = if start + limit < total {
        start + limit as nat
    } else {
        total
    };
    (start, end)
}

/// Where the page behind one that ends at `end` starts, if there is one.
pub open spec fn next_of(total: nat, end: nat) -> Option<nat> {
    if end < total {
        Some(end)
    } else {
        None
    }
}

/// At most `limit` of `bytes` from `offset` on. The page says where it starts as it was asked, even
/// behind the end.
pub open spec fn page_of(bytes: Seq<u8>, offset: u64, limit: u64) -> PageModel {
    let (start, end) = span_of(bytes.len(), offset, limit);
    PageModel {
        bytes: bytes.subrange(start as int, end as int),
        offset,
        total_size: bytes.len(),
        next_offset: next_of(bytes.len(), end),
    }
}

/// The bytes `from..to`.
pub fn copy_range(bytes: &Vec<u8>, from: usize, to: usize) -> (r: Vec<u8>)
    requires
        from <= to <= bytes.len(),
    ensures
        r@ == bytes@.subrange(from as int, to as int),
{
    let mut out: Vec<u8> = Vec::new();
    let mut i: usize = from;
    while i < to
        invariant
            from <= i <= to <= bytes.len(),
            out@ == bytes@.subrange(from as int, i as int),
        decreases to - i,
    {
        out.push(bytes[i]);
        i = i + 1;
    }
    out
}

/// Where a page starts and ends.
pub fn page_span(total: u64, offset: u64, limit: u64) -> (r: (u64, u64))
    ensures
        (r.0 as nat, r.1 as nat) == span_of(total as nat, offset, limit),
        r.0 <= r.1 <= total,
{
    let start: u64 = if offset < total {
        offset
    } else {
        total
    };
    let end: u64 = if limit < total - start {
        start + limit
    } else {
        total
    };
    (start, end)
}

/// The page whose bytes were read from where `page_span` says.
pub fn page_read(bytes: Vec<u8>, total: u64, offset: u64, limit: u64) -> (r: FilePage)
    ensures
        r@ == (PageModel {
            bytes: bytes@,
            offset,
            total_size: total as nat,
            next_offset: next_of(total as nat, span_of(total as nat, offset, limit).1),
        }),
        forall|all: Seq<u8>|
            all.len() == total && bytes@ == (#[trigger] page_of(all, offset, limit)).bytes ==> r@
                == page_of(all, offset, limit),
{
    let (_, end) = page_span(total, offset, limit);
    FilePage {
        bytes,
        offset,
        total_size: total,
        next_offset: if end < total {
            Some(end)
        } else {
            None
        },
    }
}

/// At most `limit` of `bytes` from `offset` on.
pub fn page_bytes(bytes: &Vec<u8>, offset: u64, limit: u64) -> (r: FilePage)
    requires
        bytes.len() <= u64::MAX,
    ensures
        r@ == page_of(bytes@, offset, limit),
{
    let total: u64 = bytes.len() as u64;
    let (start, end) = page_span(total, offset, limit);
    page_read(copy_range(bytes, start as usize, end as usize), total, offset, limit)
}

/// What a reader gets who follows the pages from `offset` to the last.
pub open spec fn followed(bytes: Seq<u8>, offset: u64, limit: u64) -> Seq<u8>
    recommends
        limit > 0,
        bytes.len() <= u64::MAX,
    decreases bytes.len() - offset,
{
    let page = page_of(bytes, offset, limit);
    match page.next_offset {
        Some(next) => if offset < next && next <= bytes.len() && next <= u64::MAX {
            page.bytes + followed(bytes, next as u64, limit)
        } else {
            page.bytes
        },
        None => page.bytes,
    }
}

/// A reader who starts anywhere and follows `next_offset` until it is absent gets everything from
/// there on, each byte once.
pub proof fn pages_give_everything(bytes: Seq<u8>, offset: u64, limit: u64)
    requires
        limit > 0,
        offset <= bytes.len() <= u64::MAX,
    ensures
        followed(bytes, offset, limit) == bytes.skip(offset as int),
    decreases bytes.len() - offset,
{
    let page = page_of(bytes, offset, limit);
    match page.next_offset {
        Some(next) => {
            pages_give_everything(bytes, next as u64, limit);
            assert(page.bytes + bytes.skip(next as int) =~= bytes.skip(offset as int));
        },
        None => {
            assert(page.bytes =~= bytes.skip(offset as int));
        },
    }
}

/// The text that `String::from_utf8_lossy` makes of bytes.
pub uninterp spec fn lossy_text(bytes: Seq<u8>) -> Seq<char>;

/// `String::from_utf8_lossy`: the bytes as text, with replacement characters where they are no
/// UTF-8; bytes that are UTF-8 are taken as they are.
#[verifier::external_body]
pub(crate) fn text_from_bytes(bytes: &Vec<u8>) -> (r: String)
    ensures
        r@ == lossy_text(bytes@),
        valid_utf8(bytes@) ==> encode_utf8(r@) == bytes@,
{
    String::from_utf8_lossy(bytes).into_owned()
}

/// The longest end of `bytes` that is UTF-8.
pub open spec fn text_suffix(bytes: Seq<u8>) -> Seq<u8>
    decreases bytes.len(),
{
    if bytes.len() == 0 || valid_utf8(bytes) {
        bytes
    } else {
        text_suffix(bytes.drop_first())
    }
}

/// Where the last `max_bytes` of `total` bytes start.
pub open spec fn tail_from(total: nat, max_bytes: u64) -> nat {
    if max_bytes < total {
        (total - max_bytes) as nat
    } else {
        0
    }
}

pub fn tail_start(total: u64, max_bytes: u64) -> (r: u64)
    ensures
        r == tail_from(total as nat, max_bytes),
{
    if max_bytes < total {
        total - max_bytes
    } else {
        0
    }
}

/// The end of `bytes`, at most `max_bytes` long, from the first point on at which it is UTF-8.
pub open spec fn tail_of(bytes: Seq<u8>, max_bytes: u64) -> Seq<u8> {
    text_suffix(bytes.skip(tail_from(bytes.len(), max_bytes) as int))
}

/// The end of `bytes`, at most `max_bytes` long, without the rest of a character that it cuts.
pub fn tail_bytes(bytes: &Vec<u8>, max_bytes: u64) -> (r: Vec<u8>)
    requires
        bytes.len() <= u64::MAX,
    ensures
        r@ == tail_of(bytes@, max_bytes),
{
    let total: usize = bytes.len();
    let mut start: usize = tail_start(total as u64, max_bytes) as usize;
    loop
        invariant
            start <= total,
            total == bytes.len(),
            tail_of(bytes@, max_bytes) == text_suffix(bytes@.skip(start as int)),
        decreases total - start,
    {
        let rest = copy_range(bytes, start, total);
        proof {
            assert(rest@ =~= bytes@.skip(start as int));
            vstd::utf8::encode_utf8_valid_utf8(Seq::empty());
        }
        if start == total {
            return rest;
        }
        let ghost suffix = rest@;
        match utf8_text(copy_range(bytes, start, total)) {
            Some(text) => {
                proof {
                    vstd::utf8::encode_utf8_valid_utf8(text@);
                    assert(bytes@.subrange(start as int, total as int) =~= suffix);
                }
                return rest;
            },
            None => {
                proof {
                    assert(bytes@.subrange(start as int, total as int) =~= suffix);
                    assert(suffix.drop_first() =~= bytes@.skip(start + 1));
                }
            },
        }
        start = start + 1;
    }
}

/// A page holds the bytes from its offset on, as many as are asked for and there are, and tells the
/// size of the whole; there is a next page exactly where bytes are left, and it starts behind this
/// one.
pub proof fn pages_hold_what_is_asked_for(bytes: Seq<u8>, offset: u64, limit: u64)
    ensures
        ({
            let page = page_of(bytes, offset, limit);
            let left = if offset < bytes.len() {
                bytes.len() - offset
            } else {
                0
            };
            &&& page.bytes.len() == if limit < left {
                limit as int
            } else {
                left
            }
            &&& forall|i: int|
                0 <= i < page.bytes.len() ==> #[trigger] page.bytes[i] == bytes[offset + i]
            &&& page.offset == offset
            &&& page.total_size == bytes.len()
            &&& page.next_offset is Some <==> limit < left
            &&& page.next_offset matches Some(next) ==> next == offset + page.bytes.len()
        }),
{
}

/// The end that is shown of some bytes is their end, no longer than it may be, and UTF-8; no longer
/// end that may be shown is UTF-8.
pub proof fn tails_are_the_longest_text(bytes: Seq<u8>, max_bytes: u64)
    ensures
        ({
            let tail = tail_of(bytes, max_bytes);
            &&& tail.len() <= bytes.len()
            &&& tail.len() <= max_bytes
            &&& tail == bytes.skip(bytes.len() - tail.len())
            &&& valid_utf8(tail) || tail.len() == 0
            &&& forall|n: int|
                tail.len() < n <= bytes.len() && n <= max_bytes ==> !valid_utf8(
                    #[trigger] bytes.skip(bytes.len() - n),
                )
        }),
{
    let from = tail_from(bytes.len(), max_bytes) as int;
    let end = bytes.skip(from);
    lemma_text_suffix(end);
    let tail = text_suffix(end);
    assert(end.skip(end.len() - tail.len()) =~= bytes.skip(bytes.len() - tail.len()));
    assert forall|n: int| tail.len() < n <= bytes.len() && n <= max_bytes implies !valid_utf8(
        #[trigger] bytes.skip(bytes.len() - n),
    ) by {
        assert(end.skip(end.len() - n) =~= bytes.skip(bytes.len() - n));
    }
}

proof fn lemma_text_suffix(bytes: Seq<u8>)
    ensures
        ({
            let tail = text_suffix(bytes);
            &&& tail.len() <= bytes.len()
            &&& tail == bytes.skip(bytes.len() - tail.len())
            &&& valid_utf8(tail) || tail.len() == 0
            &&& forall|n: int|
                tail.len() < n <= bytes.len() ==> !valid_utf8(#[trigger] bytes.skip(bytes.len() - n))
        }),
    decreases bytes.len(),
{
    if bytes.len() == 0 || valid_utf8(bytes) {
        assert(bytes.skip(0) =~= bytes);
    } else {
        let rest = bytes.drop_first();
        lemma_text_suffix(rest);
        let tail = text_suffix(bytes);
        assert(rest.skip(rest.len() - tail.len()) =~= bytes.skip(bytes.len() - tail.len()));
        assert forall|n: int| tail.len() < n <= bytes.len() implies !valid_utf8(
            #[trigger] bytes.skip(bytes.len() - n),
        ) by {
            if n == bytes.len() {
                assert(bytes.skip(0) =~= bytes);
            } else {
                assert(rest.skip(rest.len() - n) =~= bytes.skip(bytes.len() - n));
            }
        }
    }
}

} // verus!

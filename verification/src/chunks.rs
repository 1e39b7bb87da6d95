//! Splitting a buffered body into bounded chunks.
//!
//! A body that is valid UTF-8 is cut only where a character starts, as long
//! as the limit leaves room for one; any other body is cut every `limit`
//! bytes.

use crate::error::ProxyError;
use vstd::prelude::*;
use vstd::slice::*;
use vstd::utf8::*;

verus! {

/// Whether a body may be cut before the byte at `at` without parting a
/// character: the byte there does not continue a multi-byte sequence.
pub open spec fn is_boundary(body: Seq<u8>, at: int) -> bool {
    at <= 0 || at >= body.len() || !is_continuation_byte(body[at])
}

/// The last boundary in `1..=limit`, or 0 where there is none.
pub open spec fn last_boundary(body: Seq<u8>, limit: int) -> int
    decreases limit,
{
    if limit <= 0 {
        0
    } else if is_boundary(body, limit) {
        limit
    } else {
        last_boundary(body, limit - 1)
    }
}

/// The length of the first chunk of a body that is not empty.
///
/// A body that fits is one chunk. A raw body is cut at the limit. A text body
/// is cut at the last boundary within the limit; where a single character is
/// wider than the limit there is none, and the cut falls at the limit.
pub open spec fn first_cut(body: Seq<u8>, limit: int, text: bool) -> int {
    if body.len() <= limit {
        body.len() as int
    } else if text && last_boundary(body, limit) > 0 {
        last_boundary(body, limit)
    } else {
        limit
    }
}

/// The chunks of a body, in order.
pub open spec fn chunks_of(body: Seq<u8>, limit: int, text: bool) -> Seq<Seq<u8>>
    decreases body.len(),
    when limit > 0
    via chunks_of_decreases
{
    if body.len() == 0 {
        Seq::empty()
    } else {
        let n = first_cut(body, limit, text);
        seq![body.subrange(0, n)] + chunks_of(body.subrange(n, body.len() as int), limit, text)
    }
}

#[via_fn]
proof fn chunks_of_decreases(body: Seq<u8>, limit: int, text: bool) {
    if body.len() != 0 {
        lemma_first_cut_bounds(body, limit, text);
    }
}

/// The last boundary lies within the limit.
pub proof fn lemma_last_boundary_bounds(body: Seq<u8>, limit: int)
    ensures
        0 <= last_boundary(body, limit),
        limit >= 0 ==> last_boundary(body, limit) <= limit,
        last_boundary(body, limit) > 0 ==> is_boundary(body, last_boundary(body, limit)),
        forall|k: int|
            last_boundary(body, limit) < k <= limit ==> !(#[trigger] is_boundary(body, k)),
    decreases limit,
{
    if limit > 0 && !is_boundary(body, limit) {
        lemma_last_boundary_bounds(body, limit - 1);
    }
}

/// The first chunk of a body that is not empty holds at least one byte and at
/// most `limit`.
pub proof fn lemma_first_cut_bounds(body: Seq<u8>, limit: int, text: bool)
    requires
        body.len() > 0,
        limit > 0,
    ensures
        0 < first_cut(body, limit, text) <= limit,
        first_cut(body, limit, text) <= body.len(),
{
    lemma_last_boundary_bounds(body, limit);
}

/// Joined in order, the chunks are the body again; chunking what they join
/// to therefore gives the same chunks.
pub proof fn lemma_chunks_join(body: Seq<u8>, limit: int, text: bool)
    requires
        limit > 0,
    ensures
        chunks_of(body, limit, text).flatten() == body,
        chunks_of(chunks_of(body, limit, text).flatten(), limit, text) == chunks_of(
            body,
            limit,
            text,
        ),
    decreases body.len(),
{
    if body.len() != 0 {
        lemma_first_cut_bounds(body, limit, text);
        let n = first_cut(body, limit, text);
        let head = body.subrange(0, n);
        let tail = body.subrange(n, body.len() as int);
        let rest = chunks_of(tail, limit, text);
        lemma_chunks_join(tail, limit, text);
        let all = seq![head] + rest;
        assert(all.first() == head);
        assert(all.drop_first() == rest);
        assert(head + tail == body);
    }
}

/// No chunk is empty and none is longer than the limit.
pub proof fn lemma_chunks_bounded(body: Seq<u8>, limit: int, text: bool)
    requires
        limit > 0,
    ensures
        forall|i: int|
            0 <= i < chunks_of(body, limit, text).len() ==> 0 < (#[trigger] chunks_of(
                body,
                limit,
                text,
            )[i]).len() <= limit,
        body.len() > 0 ==> chunks_of(body, limit, text).len() > 0,
    decreases body.len(),
{
    if body.len() != 0 {
        lemma_first_cut_bounds(body, limit, text);
        let n = first_cut(body, limit, text);
        let tail = body.subrange(n, body.len() as int);
        lemma_chunks_bounded(tail, limit, text);
        let rest = chunks_of(tail, limit, text);
        let all = chunks_of(body, limit, text);
        assert forall|i: int| 0 <= i < all.len() implies 0 < (#[trigger] all[i]).len()
            <= limit by {
            if i > 0 {
                assert(all[i] == rest[i - 1]);
            }
        }
    }
}

/// Whether every cut of a text body falls at the limit: at each `limit`-th
/// byte a character starts, or none starts anywhere in the window before it.
pub open spec fn cuts_fall_on_limit(body: Seq<u8>, limit: int) -> bool
    decreases body.len(),
    when limit > 0
{
    body.len() <= limit || ((last_boundary(body, limit) == limit || last_boundary(body, limit)
        == 0) && cuts_fall_on_limit(body.subrange(limit, body.len() as int), limit))
}

/// The cuts of a body of ASCII alone fall on the limit: every byte of it
/// starts a character.
pub proof fn lemma_ascii_cuts_fall_on_limit(body: Seq<u8>, limit: int)
    requires
        limit > 0,
        forall|i: int| 0 <= i < body.len() ==> #[trigger] body[i] < 0x80,
    ensures
        cuts_fall_on_limit(body, limit),
    decreases body.len(),
{
    if body.len() > limit {
        let tail = body.subrange(limit, body.len() as int);
        assert(is_boundary(body, limit));
        assert forall|i: int| 0 <= i < tail.len() implies #[trigger] tail[i] < 0x80 by {
            assert(tail[i] == body[limit + i]);
        }
        lemma_ascii_cuts_fall_on_limit(tail, limit);
    }
}

/// Every chunk but the last is exactly `limit` bytes long: for a raw body
/// always, for a text body where its cuts fall on the limit.
pub proof fn lemma_chunks_uniform(body: Seq<u8>, limit: int, text: bool)
    requires
        limit > 0,
        text ==> cuts_fall_on_limit(body, limit),
    ensures
        forall|i: int|
            0 <= i < chunks_of(body, limit, text).len() - 1 ==> (#[trigger] chunks_of(
                body,
                limit,
                text,
            )[i]).len() == limit,
    decreases body.len(),
{
    if body.len() != 0 {
        lemma_first_cut_bounds(body, limit, text);
        let n = first_cut(body, limit, text);
        let tail = body.subrange(n, body.len() as int);
        let rest = chunks_of(tail, limit, text);
        let all = chunks_of(body, limit, text);
        if body.len() <= limit {
            assert(tail.len() == 0);
            assert(rest.len() == 0);
        } else {
            assert(n == limit);
            lemma_chunks_uniform(tail, limit, text);
            assert forall|i: int| 0 <= i < all.len() - 1 implies (#[trigger] all[i]).len()
                == limit by {
                if i > 0 {
                    assert(all[i] == rest[i - 1]);
                }
            }
        }
    }
}

/// A text body has all its chunks but the last at the limit only where its
/// cuts fall on the limit.
pub proof fn lemma_uniform_only_on_limit(body: Seq<u8>, limit: int)
    requires
        limit > 0,
        forall|i: int|
            0 <= i < chunks_of(body, limit, true).len() - 1 ==> (#[trigger] chunks_of(
                body,
                limit,
                true,
            )[i]).len() == limit,
    ensures
        cuts_fall_on_limit(body, limit),
    decreases body.len(),
{
    if body.len() > limit {
        lemma_first_cut_bounds(body, limit, true);
        lemma_last_boundary_bounds(body, limit);
        let n = first_cut(body, limit, true);
        let tail = body.subrange(n, body.len() as int);
        let rest = chunks_of(tail, limit, true);
        let all = chunks_of(body, limit, true);
        lemma_chunks_bounded(tail, limit, true);
        assert(all[0] == body.subrange(0, n));
        assert(n == limit);
        assert forall|i: int| 0 <= i < rest.len() - 1 implies (#[trigger] rest[i]).len()
            == limit by {
            assert(all[i + 1] == rest[i]);
        }
        lemma_uniform_only_on_limit(tail, limit);
    }
}

/// Whether every character of a text body is at most `limit` bytes wide.
pub open spec fn characters_fit(body: Seq<u8>, limit: int) -> bool {
    forall|at: int|
        0 <= at < body.len() && #[trigger] is_char_boundary(body, at) ==> length_of_first_scalar(
            body.subrange(at, body.len() as int),
        ) <= limit
}

/// No character is wider than four bytes.
pub proof fn lemma_four_bytes_fit(body: Seq<u8>, limit: int)
    requires
        limit >= 4,
    ensures
        characters_fit(body, limit),
{
}

/// A text body whose characters fit is cut only between characters: each
/// chunk is valid UTF-8 by itself.
pub proof fn lemma_text_chunks_whole(body: Seq<u8>, limit: int)
    requires
        limit > 0,
        valid_utf8(body),
        characters_fit(body, limit),
    ensures
        forall|i: int|
            0 <= i < chunks_of(body, limit, true).len() ==> valid_utf8(
                #[trigger] chunks_of(body, limit, true)[i],
            ),
    decreases body.len(),
{
    if body.len() != 0 {
        lemma_first_cut_bounds(body, limit, true);
        let n = first_cut(body, limit, true);
        let head = body.subrange(0, n);
        let tail = body.subrange(n, body.len() as int);
        let rest = chunks_of(tail, limit, true);
        let all = chunks_of(body, limit, true);
        assert(is_char_boundary(body, n)) by {
            if body.len() <= limit {
                is_char_boundary_start_end_of_seq(body);
            } else {
                lemma_cut_between_characters(body, limit);
            }
        }
        valid_utf8_split(body, n);
        assert(characters_fit(tail, limit)) by {
            assert forall|at: int|
                0 <= at < tail.len() && #[trigger] is_char_boundary(
                    tail,
                    at,
                ) implies length_of_first_scalar(tail.subrange(at, tail.len() as int))
                <= limit by {
                is_char_boundary_iff_not_is_continuation_byte(tail, at);
                is_char_boundary_iff_not_is_continuation_byte(body, n + at);
                assert(tail.subrange(at, tail.len() as int) == body.subrange(
                    n + at,
                    body.len() as int,
                ));
            }
        }
        lemma_text_chunks_whole(tail, limit);
        assert forall|i: int| 0 <= i < all.len() implies valid_utf8(#[trigger] all[i]) by {
            if i > 0 {
                assert(all[i] == rest[i - 1]);
            }
        }
    }
}

/// In a text body that is longer than the limit and whose first character
/// fits, the first cut falls where a character starts.
proof fn lemma_cut_between_characters(body: Seq<u8>, limit: int)
    requires
        limit > 0,
        valid_utf8(body),
        characters_fit(body, limit),
        body.len() > limit,
    ensures
        is_char_boundary(body, first_cut(body, limit, true)),
{
    let width = length_of_first_scalar(body);
    assert(is_char_boundary(body, 0));
    assert(body.subrange(0, body.len() as int) == body);
    assert(0 < width <= limit);
    assert(is_char_boundary(body, width)) by {
        reveal_with_fuel(is_char_boundary, 2);
    }
    is_char_boundary_iff_not_is_continuation_byte(body, width);
    assert(is_boundary(body, width));
    lemma_last_boundary_bounds(body, limit);
    let k = last_boundary(body, limit);
    assert(k >= width);
    is_char_boundary_iff_not_is_continuation_byte(body, k);
}

/// The chunks held by a vector, each as its bytes.
pub open spec fn chunk_views(chunks: Seq<Vec<u8>>) -> Seq<Seq<u8>> {
    Seq::new(chunks.len(), |i: int| chunks[i]@)
}

fn continues_character(byte: u8) -> (b: bool)
    ensures
        b == is_continuation_byte(byte),
{
    0x80 <= byte && byte <= 0xbf
}

/// Where the chunk that starts at `start` ends.
fn cut_after(body: &[u8], start: usize, limit: usize, text: bool) -> (end: usize)
    requires
        start < body@.len(),
        limit > 0,
    ensures
        end == start + first_cut(
            body@.subrange(start as int, body@.len() as int),
            limit as int,
            text,
        ),
        start < end <= body@.len(),
{
    let ghost rest = body@.subrange(start as int, body@.len() as int);
    proof {
        lemma_first_cut_bounds(rest, limit as int, text);
    }
    if body.len() - start <= limit {
        return body.len();
    }
    if text {
        let mut k: usize = limit;
        while k > 0 && continues_character(body[start + k])
            invariant
                k <= limit,
                start + limit < body@.len() <= usize::MAX,
                rest == body@.subrange(start as int, body@.len() as int),
                last_boundary(rest, limit as int) == last_boundary(rest, k as int),
            decreases k,
        {
            assert(rest[k as int] == body@[start + k]);
            k = k - 1;
        }
        proof {
            if k > 0 {
                assert(rest[k as int] == body@[start + k]);
            }
        }
        if k > 0 {
            return start + k;
        }
    }
    start + limit
}

/// Splits a body into its chunks: cut on character boundaries where `text`
/// is set, every `limit` bytes where it is not.
pub fn split_body(body: &[u8], limit: usize, text: bool) -> (chunks: Vec<Vec<u8>>)
    requires
        limit > 0,
    ensures
        chunk_views(chunks@) == chunks_of(body@, limit as int, text),
{
    let mut chunks: Vec<Vec<u8>> = Vec::new();
    let mut start: usize = 0;
    assert(body@.subrange(0, body@.len() as int) == body@);
    while start < body.len()
        invariant
            limit > 0,
            start <= body@.len(),
            chunk_views(chunks@) + chunks_of(
                body@.subrange(start as int, body@.len() as int),
                limit as int,
                text,
            ) == chunks_of(body@, limit as int, text),
        decreases body@.len() - start,
    {
        let end = cut_after(body, start, limit, text);
        let part = slice_to_vec(slice_subrange(body, start, end));
        proof {
            let rest = body@.subrange(start as int, body@.len() as int);
            let n = end - start;
            assert(rest.subrange(0, n) == part@);
            assert(rest.subrange(n, rest.len() as int) == body@.subrange(
                end as int,
                body@.len() as int,
            ));
            assert(chunk_views(chunks@.push(part)) == chunk_views(chunks@) + seq![part@]);
        }
        chunks.push(part);
        start = end;
    }
    chunks
}

/// Whether bytes are valid UTF-8.
///
/// Calls `std::str::from_utf8`, which succeeds exactly on valid UTF-8; the
/// contract says so over `vstd`'s definition of it, and is taken on trust.
#[verifier::external_body]
pub(crate) fn is_utf8(bytes: &[u8]) -> (valid: bool)
    ensures
        valid == valid_utf8(bytes@),
{
    std::str::from_utf8(bytes).is_ok()
}

/// A body in chunks.
#[derive(Debug)]
pub struct ChunkedBody {
    /// The chunks, in the order of the body.
    pub chunks: Vec<Vec<u8>>,
    /// `Some(NonUtf8Body)` where the body was not text and was cut as raw
    /// bytes.
    pub fallback: Option<ProxyError>,
}

/// What [`rechunk`] reports beside the chunks.
pub open spec fn fallback_of(body: Seq<u8>) -> Option<ProxyError> {
    if valid_utf8(body) {
        None
    } else {
        Some(ProxyError::NonUtf8Body)
    }
}

/// Splits a buffered body into chunks of at most `max_chunk_size` bytes.
///
/// A body that is valid UTF-8 is cut only where a character starts, unless
/// a character is wider than the limit. A body that is not is cut every
/// `max_chunk_size` bytes, and the result says so.
pub fn rechunk(body: &[u8], max_chunk_size: usize) -> (out: ChunkedBody)
    requires
        max_chunk_size > 0,
    ensures
        chunk_views(out.chunks@) == chunks_of(body@, max_chunk_size as int, valid_utf8(body@)),
        out.fallback == fallback_of(body@),
{
    let text = is_utf8(body);
    let chunks = split_body(body, max_chunk_size, text);
    let fallback = if text {
        None
    } else {
        Some(ProxyError::NonUtf8Body)
    };
    ChunkedBody { chunks, fallback }
}

} // verus!

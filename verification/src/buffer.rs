//! Mutation of one length-bounded byte buffer: extend it, cut a span out of
//! it, or nudge one of its bytes.

use vstd::prelude::*;
use crate::stream::{
    draw_fraction, fill_bytes, is_limit_for, uniform_i8, uniform_index, uniform_len, Pcg32,
};

verus! {

/// Limit on the draw for the first available of extend and splice: three
/// tenths, the weight of either.
pub const BUF_FIRST_LIMIT: u64 = 2_702_159_776_422_297;

/// Limit on the draw for splice where extend is available too: six tenths,
/// the two weights together.
pub const BUF_SECOND_LIMIT: u64 = 5_404_319_552_844_595;

/// The two limits stand for the probabilities 3/10 and 6/10.
pub proof fn lemma_buffer_limits()
    ensures
        is_limit_for(BUF_FIRST_LIMIT, 3, 10),
        is_limit_for(BUF_SECOND_LIMIT, 6, 10),
{
}

/// Largest amount by which a byte is nudged, in either direction.
pub const BYTE_DELTA: i8 = 10;

/// The three ways a buffer can change.
#[derive(Clone, Copy, Debug, PartialEq, Eq, Structural)]
pub enum BufferEdit {
    /// Append random bytes.
    Extend,
    /// Cut out one contiguous span.
    Splice,
    /// Add a small signed amount to one byte.
    Nudge,
}

/// Which edit a probability draw selects for a buffer of length `len` bounded
/// by `[min_len, max_len]`.
///
/// Extend and splice each weigh 0.3 and are tried in that order; an outcome
/// that is unavailable takes no share of the draw, so the next one starts
/// where the last available one ended. Whatever is left goes to the nudge.
pub open spec fn buffer_edit_for(draw: u64, len: int, min_len: int, max_len: int) -> BufferEdit {
    if len < max_len && draw <= BUF_FIRST_LIMIT {
        BufferEdit::Extend
    } else if len > min_len && draw <= (if len < max_len {
        BUF_SECOND_LIMIT
    } else {
        BUF_FIRST_LIMIT
    }) {
        BufferEdit::Splice
    } else {
        BufferEdit::Nudge
    }
}

/// Only an available edit is ever selected: extending needs room below the
/// maximum length, splicing needs room above the minimum length.
pub proof fn lemma_buffer_edit_available(draw: u64, len: int, min_len: int, max_len: int)
    ensures
        buffer_edit_for(draw, len, min_len, max_len) == BufferEdit::Extend ==> len < max_len,
        buffer_edit_for(draw, len, min_len, max_len) == BufferEdit::Splice ==> len > min_len,
{
}

/// Selects the edit for a probability draw.
pub fn choose_buffer_edit(draw: u64, len: usize, min_len: usize, max_len: usize) -> (edit:
    BufferEdit)
    ensures
        edit == buffer_edit_for(draw, len as int, min_len as int, max_len as int),
{
    let can_extend: bool = len < max_len;
    if can_extend && draw <= BUF_FIRST_LIMIT {
        return BufferEdit::Extend;
    }
    let limit: u64 = if can_extend {
        BUF_SECOND_LIMIT
    } else {
        BUF_FIRST_LIMIT
    };
    if len > min_len && draw <= limit {
        return BufferEdit::Splice;
    }
    BufferEdit::Nudge
}

/// A byte plus a signed amount, modulo 256.
pub open spec fn wrapped_sum(byte: u8, delta: int) -> u8 {
    ((byte as int + delta) % 256) as u8
}

/// Adds a signed amount to a byte, wrapping around at both ends of the byte
/// range.
pub fn add_delta(byte: u8, delta: i8) -> (sum: u8)
    ensures
        sum == wrapped_sum(byte, delta as int),
{
    let wide: i16 = byte as i16 + delta as i16;
    if wide < 0 {
        (wide + 256) as u8
    } else if wide >= 256 {
        (wide - 256) as u8
    } else {
        wide as u8
    }
}

/// What is left of `before` once the bytes of `[begin, end)` are cut out.
pub open spec fn without_span(before: Seq<u8>, begin: int, end: int) -> Seq<u8> {
    before.subrange(0, begin) + before.subrange(end, before.len() as int)
}

/// `after` is `before` with some random bytes appended, at most up to
/// `max_len` bytes in all.
pub open spec fn is_extension(before: Seq<u8>, after: Seq<u8>, max_len: int) -> bool {
    &&& before.len() < max_len
    &&& before.len() <= after.len() <= max_len
    &&& after.subrange(0, before.len() as int) == before
}

/// `after` is `before` with one non-empty span cut out, at least `min_len`
/// bytes staying.
pub open spec fn is_splice(before: Seq<u8>, after: Seq<u8>, min_len: int) -> bool {
    exists|begin: int, end: int|
        {
            &&& 0 <= begin < end <= before.len()
            &&& end - begin <= before.len() - min_len
            &&& after == #[trigger] without_span(before, begin, end)
        }
}

/// `after` is `before` with one byte moved by at most [`BYTE_DELTA`] in
/// either direction, modulo 256.
pub open spec fn is_nudge(before: Seq<u8>, after: Seq<u8>) -> bool {
    exists|at: int, delta: int|
        {
            &&& 0 <= at < before.len()
            &&& -BYTE_DELTA <= delta <= BYTE_DELTA
            &&& after == #[trigger] before.update(at, wrapped_sum(before[at], delta))
        }
}

/// Everything one mutation can make of a buffer.
pub open spec fn is_buffer_outcome(
    before: Seq<u8>,
    after: Seq<u8>,
    min_len: int,
    max_len: int,
) -> bool {
    ||| is_extension(before, after, max_len)
    ||| is_splice(before, after, min_len)
    ||| is_nudge(before, after)
    ||| before.len() == 0 && after == before
}

/// No outcome of a buffer mutation leaves the length bounds that the buffer
/// was in.
pub proof fn lemma_buffer_outcome_in_bounds(
    before: Seq<u8>,
    after: Seq<u8>,
    min_len: int,
    max_len: int,
)
    requires
        min_len <= before.len() <= max_len,
        is_buffer_outcome(before, after, min_len, max_len),
    ensures
        min_len <= after.len() <= max_len,
{
}

/// A nudge needs a byte to work on: it never applies to an empty buffer, and
/// it keeps the length.
pub proof fn lemma_nudge_keeps_length(before: Seq<u8>, after: Seq<u8>)
    requires
        is_nudge(before, after),
    ensures
        before.len() > 0,
        after.len() == before.len(),
{
}

/// Cuts the bytes of `[begin, end)` out of the buffer.
pub fn remove_span(buf: &mut Vec<u8>, begin: usize, end: usize)
    requires
        begin <= end <= old(buf)@.len(),
    ensures
        final(buf)@ == without_span(old(buf)@, begin as int, end as int),
{
    let mut kept: Vec<u8> = Vec::new();
    let mut i: usize = 0;
    while i < begin
        invariant
            i <= begin <= end <= buf@.len(),
            buf@ == old(buf)@,
            kept@ == buf@.subrange(0, i as int),
        decreases begin - i,
    {
        kept.push(buf[i]);
        i += 1;
    }
    let mut j: usize = end;
    while j < buf.len()
        invariant
            begin <= end <= j <= buf@.len(),
            buf@ == old(buf)@,
            kept@ == buf@.subrange(0, begin as int) + buf@.subrange(end as int, j as int),
        decreases buf@.len() - j,
    {
        kept.push(buf[j]);
        j += 1;
    }
    *buf = kept;
}

/// Nudges one byte, chosen uniformly, by an amount drawn uniformly from
/// `[-BYTE_DELTA, BYTE_DELTA]`, wrapping modulo 256. An empty slice is left
/// as it is, and nothing is drawn for it.
pub fn mutate_bytes(bytes: &mut [u8], rng: &mut Pcg32)
    ensures
        final(bytes)@.len() == old(bytes)@.len(),
        old(bytes)@.len() == 0 ==> final(bytes)@ == old(bytes)@,
        old(bytes)@.len() > 0 ==> is_nudge(old(bytes)@, final(bytes)@),
{
    if bytes.len() == 0 {
        return;
    }
    let at: usize = uniform_index(rng, 0, bytes.len());
    let delta: i8 = uniform_i8(rng, -BYTE_DELTA, BYTE_DELTA);
    let moved: u8 = add_delta(bytes[at], delta);
    bytes[at] = moved;
    assert(bytes@ == old(bytes)@.update(
        at as int,
        wrapped_sum(old(bytes)@[at as int], delta as int),
    ));
}

/// Mutates a buffer whose length lies in `[min_len, max_len]`.
///
/// One draw selects the edit (see [`buffer_edit_for`]). Extending appends
/// between zero and `max_len - len` random bytes. Splicing picks a start
/// anywhere in the buffer and cuts out a span of at least one byte that
/// leaves at least `min_len` bytes. Otherwise one byte is nudged, and an
/// empty buffer stays empty.
pub fn mutate_buf(buf: &mut Vec<u8>, min_len: usize, max_len: usize, rng: &mut Pcg32)
    requires
        min_len <= old(buf)@.len() <= max_len,
    ensures
        min_len <= final(buf)@.len() <= max_len,
        is_buffer_outcome(old(buf)@, final(buf)@, min_len as int, max_len as int),
{
    let draw: u64 = draw_fraction(rng);
    match choose_buffer_edit(draw, buf.len(), min_len, max_len) {
        BufferEdit::Extend => {
            let extend_len: usize = uniform_len(rng, 0, max_len - buf.len());
            let mut extra: Vec<u8> = vec![0u8; extend_len];
            fill_bytes(rng, &mut extra);
            buf.extend_from_slice(&extra);
            assert(buf@.subrange(0, old(buf)@.len() as int) == old(buf)@);
        },
        BufferEdit::Splice => {
            let len: usize = buf.len();
            let max_span: usize = len - min_len;
            let begin: usize = uniform_index(rng, 0, len);
            let bound: usize = if max_span < len - begin {
                begin + max_span
            } else {
                len
            };
            let end: usize = uniform_index(rng, begin, bound) + 1;
            remove_span(buf, begin, end);
        },
        BufferEdit::Nudge => {
            mutate_bytes(buf, rng);
        },
    }
}

} // verus!

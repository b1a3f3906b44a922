//! The wire format of a histogram: a header of 40 bytes, and the counts up to
//! the slot of the largest value, each run of empty slots as one number.

use vstd::prelude::*;
use vstd::slice::slice_subrange;
use crate::count::HistogramCount;
use crate::error::DecodeError;
use crate::histogram::{is_valid_configuration, SimpleHdrHistogram};
use crate::layout::{counts_len_of, lemma_layout_bounds, valid_parameters};
use crate::state::{HistogramState, sum_to};
use crate::varint::{
    lemma_varint_bytes_len,
    lemma_varint_parse_bounds,
    varint_bytes,
    varint_parse,
    varint_read,
    varint_write,
    zig_zag_decode,
    zig_zag_decoded,
    zig_zag_encode,
    zig_zag_of,
};

verus! {

/// The tag of the format, less the size of a count.
pub const ENCODING_COOKIE_BASE: u32 = 0x1c84_9303;

/// The number of bytes of the header.
pub const HEADER_LEN: usize = 40;

/// The first four bytes of a histogram whose counts have `word_size` bytes:
/// the tag of the format, with the size of a count in bits 4 to 7.
pub open spec fn cookie_of(word_size: nat) -> u32 {
    (ENCODING_COOKIE_BASE + 16 * word_size) as u32
}

/// The four bytes of a 32-bit number, highest first.
#[verifier::opaque]
pub open spec fn u32_be(v: u32) -> Seq<u8> {
    seq![
        (v / 0x100_0000) as u8,
        ((v / 0x1_0000) % 0x100) as u8,
        ((v / 0x100) % 0x100) as u8,
        (v % 0x100) as u8,
    ]
}

/// The eight bytes of a 64-bit number, highest first.
#[verifier::opaque]
pub open spec fn u64_be(v: u64) -> Seq<u8> {
    u32_be((v / 0x1_0000_0000) as u32) + u32_be((v % 0x1_0000_0000) as u32)
}

/// The 32-bit number whose four bytes, highest first, start at byte `at`.
#[verifier::opaque]
pub open spec fn u32_from_be(s: Seq<u8>, at: int) -> u32 {
    (s[at] * 0x100_0000 + s[at + 1] * 0x1_0000 + s[at + 2] * 0x100 + s[at + 3]) as u32
}

/// The 64-bit number whose eight bytes, highest first, start at byte `at`.
#[verifier::opaque]
pub open spec fn u64_from_be(s: Seq<u8>, at: int) -> u64 {
    (u32_from_be(s, at) * 0x1_0000_0000 + u32_from_be(s, at + 4)) as u64
}

/// The 32 bits of a signed number, as an unsigned one.
pub open spec fn unsigned_of(v: i32) -> u32 {
    if v >= 0 {
        v as u32
    } else {
        (v + 0x1_0000_0000) as u32
    }
}

/// The signed number that 32 bits stand for.
pub open spec fn signed_of(v: u32) -> i32 {
    if v < 0x8000_0000 {
        v as i32
    } else {
        (v - 0x1_0000_0000) as i32
    }
}

/// The 64 bits of a count, as a signed number: a count of `2^63` or more
/// comes out negative.
pub open spec fn count_as_signed(count: nat) -> i64 {
    if count <= i64::MAX {
        count as i64
    } else {
        (count - 0x1_0000_0000_0000_0000) as i64
    }
}

/// The number of empty slots from slot `from` up to the first slot that
/// holds a count, or up to `limit`.
pub open spec fn zero_run(counts: Seq<nat>, from: int, limit: int) -> nat
    decreases limit - from,
{
    if from >= limit || from < 0 || from >= counts.len() || counts[from] != 0 {
        0
    } else {
        1 + zero_run(counts, from + 1, limit)
    }
}

/// The counts of the slots from `from` up to `limit`, as bytes: for each run
/// of empty slots the zig-zag code of minus its length, and for each other
/// slot the zig-zag code of its count, as numbers of variable length.
pub open spec fn payload_bytes(counts: Seq<nat>, from: int, limit: int) -> Seq<u8>
    decreases limit - from,
    via payload_bytes_decreases
{
    if from >= limit || from < 0 || from >= counts.len() {
        Seq::empty()
    } else if counts[from] == 0 {
        varint_bytes(zig_zag_of((-(1 + zero_run(counts, from + 1, limit))) as i64))
            + payload_bytes(counts, from + 1 + zero_run(counts, from + 1, limit), limit)
    } else {
        varint_bytes(zig_zag_of(count_as_signed(counts[from]))) + payload_bytes(
            counts,
            from + 1,
            limit,
        )
    }
}

#[via_fn]
proof fn payload_bytes_decreases(counts: Seq<nat>, from: int, limit: int) {
    lemma_zero_run_bound(counts, from + 1, limit);
}

/// A run of empty slots ends within the limit.
pub proof fn lemma_zero_run_bound(counts: Seq<nat>, from: int, limit: int)
    ensures
        from <= limit ==> zero_run(counts, from, limit) <= limit - from,
    decreases limit - from,
{
    if from < limit {
        lemma_zero_run_bound(counts, from + 1, limit);
    }
}

/// The number of slots that are written: up to and with the slot at which
/// the largest value is looked up.
pub open spec fn encoded_slots(h: HistogramState) -> int {
    h.clamped_index(h.max_value) + 1
}

/// The header of a histogram whose counts have `word_size` bytes and take
/// `payload_len` bytes: the tag, the length of the payload, the rotation,
/// the number of significant digits, the smallest discernible and the
/// highest trackable value, and eight bytes that are 0.
pub open spec fn header_bytes(h: HistogramState, word_size: nat, payload_len: nat) -> Seq<u8> {
    u32_be(cookie_of(word_size)) + u32_be(payload_len as u32) + u32_be(
        unsigned_of(h.normalizing_index_offset),
    ) + u32_be(h.significant_value_digits) + u64_be(h.lowest_discernible_value) + u64_be(
        h.highest_trackable_value,
    ) + u64_be(0)
}

/// The bytes of a histogram whose counts have `word_size` bytes.
pub open spec fn encoded_bytes(h: HistogramState, word_size: nat) -> Seq<u8> {
    let payload = payload_bytes(h.counts, 0, encoded_slots(h));
    header_bytes(h, word_size, payload.len()) + payload
}

/// A run of empty slots starts at a slot that is empty, ends within the
/// limit, holds empty slots only, and ends at the limit or before a slot that
/// holds a count.
pub proof fn lemma_zero_run(counts: Seq<nat>, from: int, limit: int)
    requires
        0 <= from < limit <= counts.len(),
    ensures
        0 <= zero_run(counts, from, limit) <= limit - from,
        counts[from] == 0 ==> zero_run(counts, from, limit) >= 1,
        forall|i: int| from <= i < from + zero_run(counts, from, limit) ==> counts[i] == 0,
        from + zero_run(counts, from, limit) < limit ==> counts[from + zero_run(
            counts,
            from,
            limit,
        )] != 0,
    decreases limit - from,
{
    if counts[from] == 0 {
        if from + 1 < limit {
            lemma_zero_run(counts, from + 1, limit);
        } else {
            assert(zero_run(counts, from + 1, limit) == 0);
        }
    }
}

/// The counts of the slots from `from` up to `limit` take at most nine
/// bytes a slot.
pub proof fn lemma_payload_len(counts: Seq<nat>, from: int, limit: int)
    requires
        0 <= from <= limit <= counts.len(),
    ensures
        payload_bytes(counts, from, limit).len() <= 9 * (limit - from),
    decreases limit - from,
{
    if from < limit {
        lemma_zero_run(counts, from, limit);
        if counts[from] == 0 {
            let z = 1 + zero_run(counts, from + 1, limit);
            lemma_varint_bytes_len(zig_zag_of((-z) as i64) as nat, 0);
            lemma_payload_len(counts, from + z, limit);
        } else {
            lemma_varint_bytes_len(zig_zag_of(count_as_signed(counts[from])) as nat, 0);
            lemma_payload_len(counts, from + 1, limit);
        }
    }
}

/// Appends the four bytes of a 32-bit number, highest first.
fn push_u32_be(buf: &mut Vec<u8>, v: u32)
    ensures
        final(buf)@ == old(buf)@ + u32_be(v),
{
    buf.push((v / 0x100_0000) as u8);
    buf.push(((v / 0x1_0000) % 0x100) as u8);
    buf.push(((v / 0x100) % 0x100) as u8);
    buf.push((v % 0x100) as u8);
    proof {
        reveal(u32_be);
        assert(buf@ =~= old(buf)@ + u32_be(v));
    }
}

/// Appends the eight bytes of a 64-bit number, highest first.
fn push_u64_be(buf: &mut Vec<u8>, v: u64)
    ensures
        final(buf)@ == old(buf)@ + u64_be(v),
{
    push_u32_be(buf, (v / 0x1_0000_0000) as u32);
    push_u32_be(buf, (v % 0x1_0000_0000) as u32);
    proof {
        reveal(u64_be);
        assert(buf@ =~= old(buf)@ + u64_be(v));
    }
}

/// The 32-bit number whose four bytes, highest first, start at byte `at`.
fn read_u32_be(bytes: &[u8], at: usize) -> (r: u32)
    requires
        at + 4 <= bytes@.len(),
    ensures
        r == u32_from_be(bytes@, at as int),
{
    proof {
        reveal(u32_from_be);
    }
    (bytes[at] as u32) * 0x100_0000 + (bytes[at + 1] as u32) * 0x1_0000 + (bytes[at + 2] as u32)
        * 0x100 + (bytes[at + 3] as u32)
}

/// The 64-bit number whose eight bytes, highest first, start at byte `at`.
fn read_u64_be(bytes: &[u8], at: usize) -> (r: u64)
    requires
        at + 8 <= bytes@.len(),
    ensures
        r == u64_from_be(bytes@, at as int),
{
    proof {
        reveal(u64_from_be);
    }
    let n = bytes.len();
    (read_u32_be(bytes, at) as u64) * 0x1_0000_0000 + (read_u32_be(bytes, at + 4) as u64)
}

/// The 64 bits of a count, as a signed number.
fn signed_count(count: u64) -> (r: i64)
    ensures
        r == count_as_signed(count as nat),
{
    if count <= 0x7fff_ffff_ffff_ffff {
        count as i64
    } else {
        // the bits of a count of 2^63 or more read as a negative number
        (count - 0x8000_0000_0000_0000) as i64 + i64::MIN
    }
}

/// Appends the bytes of a histogram to `buf`.
pub fn encode<T: HistogramCount>(histogram: &SimpleHdrHistogram<T>, buf: &mut Vec<u8>)
    requires
        histogram.wf(),
    ensures
        final(buf)@ == old(buf)@ + encoded_bytes(histogram@, T::spec_word_size()),
{
    let ghost h = histogram@;
    let ghost counts = h.counts;
    proof {
        histogram.lemma_wf_state();
        lemma_layout_bounds(
            h.lowest_discernible_value,
            h.highest_trackable_value,
            h.significant_value_digits,
        );
    }
    let len = histogram.counts_len();
    let max_index = histogram.counts_array_index(histogram.get_max());
    let limit: usize = if max_index < len {
        max_index + 1
    } else {
        len
    };
    let mut payload: Vec<u8> = Vec::new();
    let mut src_index: usize = 0;
    while src_index < limit
        invariant
            histogram.wf(),
            histogram@ == h,
            counts == h.counts,
            len == counts.len(),
            limit <= len,
            len <= 65 * 0x20000,
            src_index <= limit,
            forall|i: int| 0 <= i < counts.len() ==> counts[i] <= T::spec_max_value(),
            payload@ + payload_bytes(counts, src_index as int, limit as int) == payload_bytes(
                counts,
                0,
                limit as int,
            ),
        decreases limit - src_index,
    {
        let ghost start = src_index as int;
        let ghost before = payload@;
        let count: u64 = match histogram.get_count_at_index(src_index) {
            Ok(c) => c.as_u64(),
            Err(_) => 0,
        };
        src_index += 1;
        if count == 0 {
            // scan forward while the slots are empty
            let mut zeros_count: i64 = 1;
            loop
                invariant
                    histogram.wf(),
                    histogram@ == h,
                    counts == h.counts,
                    len == counts.len(),
                    limit <= len,
                    len <= 65 * 0x20000,
                    start < src_index <= limit,
                    zeros_count == src_index - start,
                    forall|i: int| start <= i < src_index ==> counts[i] == 0,
                    counts[start] == 0,
                    zero_run(counts, start, limit as int) == zeros_count + zero_run(
                        counts,
                        src_index as int,
                        limit as int,
                    ),
                ensures
                    src_index >= limit || counts[src_index as int] != 0,
                decreases limit - src_index,
            {
                if src_index >= limit {
                    break ;
                }
                let next: u64 = match histogram.get_count_at_index(src_index) {
                    Ok(c) => c.as_u64(),
                    Err(_) => 0,
                };
                if next != 0 {
                    break ;
                }
                zeros_count += 1;
                src_index += 1;
            }
            varint_write(zig_zag_encode(-zeros_count), &mut payload);
            proof {
                assert(zero_run(counts, src_index as int, limit as int) == 0);
                assert(zero_run(counts, start, limit as int) == 1 + zero_run(
                    counts,
                    start + 1,
                    limit as int,
                ));
                assert(before + payload_bytes(counts, start, limit as int) =~= payload@
                    + payload_bytes(counts, src_index as int, limit as int));
            }
        } else {
            varint_write(zig_zag_encode(signed_count(count)), &mut payload);
            proof {
                assert(before + payload_bytes(counts, start, limit as int) =~= payload@
                    + payload_bytes(counts, src_index as int, limit as int));
            }
        }
    }
    proof {
        lemma_payload_len(counts, 0, limit as int);
        assert(payload@ =~= payload_bytes(counts, 0, limit as int));
    }
    let offset = histogram.get_normalizing_index_offset();
    let offset_bits: u32 = if offset >= 0 {
        offset as u32
    } else {
        (offset as i64 + 0x1_0000_0000) as u32
    };
    let ghost old_buf = buf@;
    push_u32_be(buf, ENCODING_COOKIE_BASE + 16 * (T::word_size() as u32));
    push_u32_be(buf, payload.len() as u32);
    push_u32_be(buf, offset_bits);
    push_u32_be(buf, histogram.get_significant_value_digits());
    push_u64_be(buf, histogram.get_lowest_discernible_value());
    push_u64_be(buf, histogram.get_highest_trackable_value());
    push_u64_be(buf, 0);
    let mut i: usize = 0;
    while i < payload.len()
        invariant
            i <= payload@.len(),
            buf@ == old_buf + header_bytes(h, T::spec_word_size(), payload@.len()) + payload@.take(
                i as int,
            ),
        decreases payload@.len() - i,
    {
        buf.push(payload[i]);
        proof {
            assert(payload@.take(i as int).push(payload@[i as int]) =~= payload@.take(i as int + 1));
            assert(buf@ =~= old_buf + header_bytes(h, T::spec_word_size(), payload@.len())
                + payload@.take(i as int + 1));
        }
        i += 1;
    }
    proof {
        assert(payload@.take(payload@.len() as int) =~= payload@);
        assert(buf@ =~= old_buf + encoded_bytes(h, T::spec_word_size()));
    }
}

/// The counts after the numbers of the payload from byte `at` on were read
/// into the slots from slot `dst` on: a negative number skips as many slots
/// as it says, any other number is the count of one slot. Reading ends where
/// the payload or the array ends.
pub open spec fn filled_counts(
    payload: Seq<u8>,
    at: int,
    counts: Seq<nat>,
    dst: int,
    max_count: nat,
) -> Result<Seq<nat>, DecodeError>
    decreases payload.len() - at,
    via filled_counts_decreases
{
    if at < 0 || at >= payload.len() || dst < 0 || dst >= counts.len() {
        Ok(counts)
    } else {
        match varint_parse(payload, at) {
            None => Err(DecodeError::MalformedVarint),
            Some((code, end)) => {
                let number = zig_zag_decoded(code as u64);
                if number < 0 {
                    if dst - number > counts.len() {
                        Err(DecodeError::CountOutOfRange)
                    } else {
                        filled_counts(payload, end, counts, dst - number, max_count)
                    }
                } else if number > max_count {
                    Err(DecodeError::CountOutOfRange)
                } else {
                    filled_counts(
                        payload,
                        end,
                        counts.update(dst, number as nat),
                        dst + 1,
                        max_count,
                    )
                }
            },
        }
    }
}

#[via_fn]
proof fn filled_counts_decreases(
    payload: Seq<u8>,
    at: int,
    counts: Seq<nat>,
    dst: int,
    max_count: nat,
) {
    if varint_parse(payload, at).is_some() {
        lemma_varint_parse_bounds(payload, at, 0);
    }
}

/// The histogram that a byte string stands for, if its counts have
/// `word_size` bytes and are at most `max_count` each; or why it stands for
/// none.
pub open spec fn decoded(bytes: Seq<u8>, word_size: nat, max_count: nat) -> Result<
    HistogramState,
    DecodeError,
> {
    let payload_len = u32_from_be(bytes, 4);
    let offset = signed_of(u32_from_be(bytes, 8));
    let digits = u32_from_be(bytes, 12);
    let lowest = u64_from_be(bytes, 16);
    let highest = u64_from_be(bytes, 24);
    let len = counts_len_of(lowest, highest, digits);
    if bytes.len() < HEADER_LEN {
        Err(DecodeError::TruncatedInput)
    } else if u32_from_be(bytes, 0) != cookie_of(word_size) {
        Err(DecodeError::InvalidCookie)
    } else if !valid_parameters(lowest, highest, digits) || !(-len < offset < len) {
        Err(DecodeError::InvalidParameters)
    } else if bytes.len() < HEADER_LEN + payload_len {
        Err(DecodeError::TruncatedInput)
    } else {
        match filled_counts(
            bytes.subrange(HEADER_LEN as int, HEADER_LEN + payload_len),
            0,
            Seq::new(len, |i: int| 0nat),
            0,
            max_count,
        ) {
            Err(e) => Err(e),
            Ok(counts) => if sum_to(counts, counts.len() as int) > u64::MAX {
                Err(DecodeError::CountOutOfRange)
            } else {
                Ok(HistogramState::from_counts(lowest, highest, digits, offset, counts))
            },
        }
    }
}

/// Filling counts keeps the number of slots.
pub proof fn lemma_filled_counts_len(
    payload: Seq<u8>,
    at: int,
    counts: Seq<nat>,
    dst: int,
    max_count: nat,
)
    ensures
        filled_counts(payload, at, counts, dst, max_count).is_ok() ==> filled_counts(
            payload,
            at,
            counts,
            dst,
            max_count,
        ).unwrap().len() == counts.len(),
    decreases payload.len() - at,
{
    if !(at < 0 || at >= payload.len() || dst < 0 || dst >= counts.len()) {
        match varint_parse(payload, at) {
            None => {},
            Some((code, end)) => {
                lemma_varint_parse_bounds(payload, at, 0);
                let number = zig_zag_decoded(code as u64);
                if number < 0 {
                    if dst - number <= counts.len() {
                        lemma_filled_counts_len(payload, end, counts, dst - number, max_count);
                    }
                } else if number <= max_count {
                    lemma_filled_counts_len(
                        payload,
                        end,
                        counts.update(dst, number as nat),
                        dst + 1,
                        max_count,
                    );
                }
            },
        }
    }
}

/// The histogram that a byte string stands for.
pub fn decode<T: HistogramCount>(bytes: &[u8]) -> (r: Result<SimpleHdrHistogram<T>, DecodeError>)
    ensures
        match decoded(bytes@, T::spec_word_size(), T::spec_max_value()) {
            Ok(state) => r.is_ok() && r.unwrap().wf() && r.unwrap()@ == state,
            Err(e) => r matches Err(why) && why == e,
        },
{
    if bytes.len() < HEADER_LEN {
        return Err(DecodeError::TruncatedInput);
    }
    let cookie = read_u32_be(bytes, 0);
    if cookie != ENCODING_COOKIE_BASE + 16 * (T::word_size() as u32) {
        return Err(DecodeError::InvalidCookie);
    }
    let payload_len = read_u32_be(bytes, 4);
    let offset_bits = read_u32_be(bytes, 8);
    let offset: i32 = if offset_bits < 0x8000_0000 {
        offset_bits as i32
    } else {
        (offset_bits as i64 - 0x1_0000_0000) as i32
    };
    let digits = read_u32_be(bytes, 12);
    let lowest = read_u64_be(bytes, 16);
    let highest = read_u64_be(bytes, 24);
    if !is_valid_configuration(lowest, highest, digits) {
        return Err(DecodeError::InvalidParameters);
    }
    proof {
        lemma_layout_bounds(lowest, highest, digits);
    }
    // an empty histogram tells the number of slots
    let shape = SimpleHdrHistogram::<T>::new(lowest, highest, digits);
    let len = shape.counts_len();
    if !(-(len as i64) < offset as i64 && (offset as i64) < len as i64) {
        return Err(DecodeError::InvalidParameters);
    }
    if bytes.len() - HEADER_LEN < payload_len as usize {
        return Err(DecodeError::TruncatedInput);
    }
    let payload = slice_subrange(bytes, HEADER_LEN, HEADER_LEN + payload_len as usize);
    let mut counts: Vec<T> = Vec::new();
    let mut i: usize = 0;
    while i < len
        invariant
            i <= len,
            counts@.len() == i,
            forall|j: int| 0 <= j < i ==> (#[trigger] counts@[j]).value() == 0,
        decreases len - i,
    {
        counts.push(T::zero());
        i += 1;
    }
    let ghost zeros = Seq::new(len as nat, |i: int| 0nat);
    let ghost max_count = T::spec_max_value();
    proof {
        assert(counts@.map_values(|c: T| c.value()) =~= zeros);
    }
    let ghost outcome = decoded(bytes@, T::spec_word_size(), T::spec_max_value());
    proof {
        assert(outcome == (match filled_counts(payload@, 0, zeros, 0, max_count) {
            Err(e) => Err(e),
            Ok(filled) => if sum_to(filled, filled.len() as int) > u64::MAX {
                Err(DecodeError::CountOutOfRange)
            } else {
                Ok(HistogramState::from_counts(lowest, highest, digits, offset, filled))
            },
        }));
    }
    let mut position: usize = 0;
    let mut dst_index: usize = 0;
    while position < payload.len() && dst_index < len
        invariant
            outcome == decoded(bytes@, T::spec_word_size(), T::spec_max_value()),
            outcome == (match filled_counts(payload@, 0, zeros, 0, max_count) {
                Err(e) => Err(e),
                Ok(filled) => if sum_to(filled, filled.len() as int) > u64::MAX {
                    Err(DecodeError::CountOutOfRange)
                } else {
                    Ok(HistogramState::from_counts(lowest, highest, digits, offset, filled))
                },
            }),
            counts@.len() == len,
            dst_index <= len,
            position <= payload@.len(),
            len <= 65 * 0x20000,
            max_count == T::spec_max_value(),
            filled_counts(payload@, 0, zeros, 0, max_count) == filled_counts(
                payload@,
                position as int,
                counts@.map_values(|c: T| c.value()),
                dst_index as int,
                max_count,
            ),
        decreases payload@.len() - position,
    {
        let ghost before = counts@.map_values(|c: T| c.value());
        proof {
            if varint_parse(payload@, position as int).is_some() {
                lemma_varint_parse_bounds(payload@, position as int, 0);
            }
        }
        let code = match varint_read(payload, &mut position) {
            Ok(code) => code,
            Err(_) => {
                return Err(DecodeError::MalformedVarint);
            },
        };
        let number = zig_zag_decode(code);
        if number < 0 {
            // a run of empty slots
            if dst_index as i128 - number as i128 > len as i128 {
                return Err(DecodeError::CountOutOfRange);
            }
            dst_index = (dst_index as i128 - number as i128) as usize;
        } else {
            match T::from_u64(number as u64) {
                Some(count) => {
                    counts.set(dst_index, count);
                    proof {
                        assert(counts@.map_values(|c: T| c.value()) =~= before.update(
                            dst_index as int,
                            number as nat,
                        ));
                    }
                    dst_index += 1;
                },
                None => {
                    return Err(DecodeError::CountOutOfRange);
                },
            }
        }
    }
    proof {
        lemma_filled_counts_len(payload@, 0, zeros, 0, max_count);
    }
    match SimpleHdrHistogram::from_counts(lowest, highest, digits, offset, counts) {
        Some(histogram) => Ok(histogram),
        None => Err(DecodeError::CountOutOfRange),
    }
}

} // verus!

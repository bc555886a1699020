//! Persistent byte-range cache over one remote, range-addressable resource.
//!
//! The cache keeps an ordered index of the byte spans already stored on disk,
//! keyed by their offset; span contents live in one backing file per span.
//! A read request is served as a state machine: the cache decides, from the
//! cursor position and the index, whether the next piece comes from a stored
//! span or must be fetched from the network, and the embedding shell performs
//! the file and network work and feeds the bytes back.  The index is held in
//! a sled tree so it survives restarts; every index operation the logic needs
//! goes through a small trusted wrapper with a stated contract.

use vstd::prelude::*;
use vstd::std_specs::iter::IteratorSpec;

verus! {

/// Failure of a range-cache operation.
#[derive(Clone, Copy, PartialEq, Eq, Structural, Debug)]
pub enum CacheError {
    /// The origin answered a range request with a status other than 206.
    RangeRequestsUnsupported,
    /// The origin sent more bytes than the range asked for.
    ResponseBodyTooLong {
        /// How many bytes came back.
        actual: u64,
        /// How many bytes were requested.
        expected: u64,
    },
    /// The transport failed.
    Network,
    /// The persistent span index failed.
    Index,
}

/// Big-endian bytes of `v`, most significant first, as the index keys use.
pub open spec fn spec_u64_be_bytes(v: u64) -> Seq<u8> {
    seq![
        (v >> 56) as u8,
        (v >> 48) as u8,
        (v >> 40) as u8,
        (v >> 32) as u8,
        (v >> 24) as u8,
        (v >> 16) as u8,
        (v >> 8) as u8,
        v as u8,
    ]
}

/// The value read back from eight big-endian bytes.
pub open spec fn spec_u64_from_be(b: Seq<u8>) -> u64 {
    (((b[0] as u64) << 56) | ((b[1] as u64) << 48) | ((b[2] as u64) << 40) | ((b[3] as u64) << 32)
        | ((b[4] as u64) << 24) | ((b[5] as u64) << 16) | ((b[6] as u64) << 8) | (b[7] as u64)) as u64
}

/// Encodes an offset as its eight big-endian bytes, which order the index
/// numerically under byte-wise key comparison.
pub fn encode_u64(v: u64) -> (r: [u8; 8])
    ensures
        r@ == spec_u64_be_bytes(v),
{
    let r: [u8; 8] = [
        (v >> 56) as u8,
        (v >> 48) as u8,
        (v >> 40) as u8,
        (v >> 32) as u8,
        (v >> 24) as u8,
        (v >> 16) as u8,
        (v >> 8) as u8,
        v as u8,
    ];
    proof {
        assert(r@ =~= spec_u64_be_bytes(v));
    }
    r
}

/// Reads a value back from its eight big-endian bytes.
pub fn decode_u64(b: &[u8]) -> (r: u64)
    requires
        b@.len() >= 8,
    ensures
        r == spec_u64_from_be(b@.take(8)),
{
    let r = ((b[0] as u64) << 56) | ((b[1] as u64) << 48) | ((b[2] as u64) << 40) | ((b[3]
        as u64) << 32) | ((b[4] as u64) << 24) | ((b[5] as u64) << 16) | ((b[6] as u64) << 8) | (
    b[7] as u64);
    proof {
        assert(b@.take(8)[0] == b@[0] && b@.take(8)[1] == b@[1] && b@.take(8)[2] == b@[2]
            && b@.take(8)[3] == b@[3] && b@.take(8)[4] == b@[4] && b@.take(8)[5] == b@[5]
            && b@.take(8)[6] == b@[6] && b@.take(8)[7] == b@[7]);
    }
    r
}

/// Encodes a span length for storage as an index value.
pub fn encode_len(v: u64) -> (r: Vec<u8>)
    ensures
        r@ == spec_u64_be_bytes(v),
{
    let b = encode_u64(v);
    let mut r: Vec<u8> = Vec::new();
    let mut i: usize = 0;
    while i < 8
        invariant
            0 <= i <= 8,
            r@ =~= b@.take(i as int),
        decreases 8 - i,
    {
        r.push(b[i]);
        proof {
            assert(r@ =~= b@.take(i as int + 1));
        }
        i += 1;
    }
    proof {
        assert(b@.take(8) =~= b@);
    }
    r
}

/// Reads a span length back from an index value.
pub fn decode_len(b: &[u8]) -> (r: u64)
    requires
        b@.len() >= 8,
    ensures
        r == spec_u64_from_be(b@.take(8)),
{
    decode_u64(b)
}

/// Decoding eight big-endian bytes returns the encoded value.
pub proof fn lemma_u64_be_round_trip(v: u64)
    ensures
        spec_u64_from_be(spec_u64_be_bytes(v)) == v,
{
    let b = spec_u64_be_bytes(v);
    assert(spec_u64_from_be(b) == ((((v >> 56) as u8) as u64) << 56) | ((((v >> 48) as u8)
        as u64) << 48) | ((((v >> 40) as u8) as u64) << 40) | ((((v >> 32) as u8) as u64) << 32)
        | ((((v >> 24) as u8) as u64) << 24) | ((((v >> 16) as u8) as u64) << 16) | ((((v >> 8)
        as u8) as u64) << 8) | ((v as u8) as u64));
    assert(((((v >> 56) as u8) as u64) << 56) | ((((v >> 48) as u8) as u64) << 48) | ((((v >> 40)
        as u8) as u64) << 40) | ((((v >> 32) as u8) as u64) << 32) | ((((v >> 24) as u8)
        as u64) << 24) | ((((v >> 16) as u8) as u64) << 16) | ((((v >> 8) as u8) as u64) << 8) | ((
    v as u8) as u64) == v) by (bit_vector);
}

/// Replaces every character that is not an ASCII letter or digit with an
/// underscore — one output byte per input character — yielding the bytes of
/// a name safe for use as a file-system path component.
pub fn sanitize_for_fs(input: &str) -> (r: Vec<u8>)
    ensures
        r@.len() == input@.len(),
        forall|i: int|
            0 <= i < input@.len() ==> r@[i] == spec_sanitize_char(#[trigger] input@[i]),
{
    let mut r: Vec<u8> = Vec::new();
    let mut it = input.chars();
    proof {
        assert(it.remaining() == input@);
    }
    loop
        invariant
            it.obeys_prophetic_iter_laws(),
            it.decrease() is Some,
            r@.len() <= input@.len(),
            it.remaining() == input@.subrange(r@.len() as int, input@.len() as int),
            forall|i: int|
                0 <= i < r@.len() ==> r@[i] == spec_sanitize_char(#[trigger] input@[i]),
        ensures
            r@.len() == input@.len(),
            forall|i: int|
                0 <= i < r@.len() ==> r@[i] == spec_sanitize_char(#[trigger] input@[i]),
        decreases it.decrease()->0,
    {
        match it.next() {
            Some(c) => {
                proof {
                    assert(c == input@[r@.len() as int]);
                }
                let u = c as u32;
                let mapped: u8 = if (u >= 97 && u <= 122) || (u >= 65 && u <= 90) || (u >= 48 && u
                    <= 57) {
                    u as u8
                } else {
                    95
                };
                proof {
                    assert(mapped == spec_sanitize_char(c));
                }
                r.push(mapped);
                proof {
                    assert(it.remaining() =~= input@.subrange(
                        r@.len() as int,
                        input@.len() as int,
                    ));
                }
            },
            None => {
                break;
            },
        }
    }
    r
}

/// What one character of a sanitised name becomes: itself when an ASCII
/// letter or digit, an underscore otherwise.
pub open spec fn spec_sanitize_char(c: char) -> u8 {
    if (97 <= c as u32 <= 122) || (65 <= c as u32 <= 90) || (48 <= c as u32 <= 57) {
        (c as u32) as u8
    } else {
        95
    }
}

#[verifier::external_type_specification]
#[verifier::external_body]
pub struct ExSledTree(sled::Tree);

#[verifier::external_type_specification]
#[verifier::external_body]
pub struct ExSledError(sled::Error);

/// The spans the tree records: the map from each key of exactly eight
/// bytes, read big-endian, to the first eight bytes of its value, read the
/// same way.  The contracts below speak of one handle; the cache owns the
/// only handle that mutates its tree.
pub uninterp spec fn tree_spans(t: sled::Tree) -> Map<u64, u64>;

/// Relies on sled::Tree::insert: stores the span length under the eight-byte
/// big-endian encoding of its offset, so byte-wise key order is numeric
/// order.  The tree is this library's own index: every key it holds is such
/// an eight-byte offset.
#[verifier::external_body]
fn span_index_insert(t: &mut sled::Tree, offset: u64, length: u64) -> (r: Result<
    (),
    sled::Error,
>)
    ensures
        r is Ok ==> tree_spans(*final(t)) == tree_spans(*old(t)).insert(offset, length),
{
    match t.insert(offset.to_be_bytes(), length.to_be_bytes().to_vec()) {
        Ok(_) => Ok(()),
        Err(e) => Err(e),
    }
}

/// Relies on sled::Tree::remove: drops the entry stored under the offset's
/// eight-byte big-endian key.
#[verifier::external_body]
fn span_index_remove(t: &mut sled::Tree, offset: u64) -> (r: Result<(), sled::Error>)
    ensures
        r is Ok ==> tree_spans(*final(t)) == tree_spans(*old(t)).remove(offset),
{
    match t.remove(offset.to_be_bytes()) {
        Ok(_) => Ok(()),
        Err(e) => Err(e),
    }
}

/// Relies on sled::Tree::range over big-endian keys: the last entry of the
/// range up to `at`'s key is the span with the greatest offset at or below
/// `at`.  The tree is this library's own index, so keys are exactly eight
/// bytes; an entry keyed otherwise, or with a short value, is answered as
/// an index error rather than read as a span.
#[verifier::external_body]
fn span_at_or_below(t: &sled::Tree, at: u64) -> (r: Result<Option<(u64, u64)>, sled::Error>)
    ensures
        r matches Ok(Some((o, l))) ==> tree_spans(*t).contains_pair(o, l) && o <= at && (forall|
            o2: u64,
        |
            #[trigger] tree_spans(*t).dom().contains(o2) && o2 <= at ==> o2 <= o),
        r matches Ok(None) ==> forall|o2: u64|
            #[trigger] tree_spans(*t).dom().contains(o2) ==> o2 > at,
{
    match t.range(..=at.to_be_bytes()).next_back() {
        None => Ok(None),
        Some(Err(e)) => Err(e),
        Some(Ok((k, v))) if k.len() == 8 && v.len() >= 8 => {
            let mut ka = [0u8; 8];
            ka.copy_from_slice(&k[..8]);
            let mut va = [0u8; 8];
            va.copy_from_slice(&v[..8]);
            Ok(Some((u64::from_be_bytes(ka), u64::from_be_bytes(va))))
        },
        Some(Ok(_)) => Err(sled::Error::Unsupported("malformed span index entry".to_string())),
    }
}

/// Relies on sled::Tree::range over big-endian keys: the first entry of the
/// range from `at`'s key on is the span with the least offset at or above
/// `at`.  The tree is this library's own index, so keys are exactly eight
/// bytes; an entry keyed otherwise, or with a short value, is answered as
/// an index error rather than read as a span.
#[verifier::external_body]
fn span_at_or_above(t: &sled::Tree, at: u64) -> (r: Result<Option<(u64, u64)>, sled::Error>)
    ensures
        r matches Ok(Some((o, l))) ==> tree_spans(*t).contains_pair(o, l) && o >= at && (forall|
            o2: u64,
        |
            #[trigger] tree_spans(*t).dom().contains(o2) && o2 >= at ==> o <= o2),
        r matches Ok(None) ==> forall|o2: u64|
            #[trigger] tree_spans(*t).dom().contains(o2) ==> o2 < at,
{
    match t.range(at.to_be_bytes()..).next() {
        None => Ok(None),
        Some(Err(e)) => Err(e),
        Some(Ok((k, v))) if k.len() == 8 && v.len() >= 8 => {
            let mut ka = [0u8; 8];
            ka.copy_from_slice(&k[..8]);
            let mut va = [0u8; 8];
            va.copy_from_slice(&v[..8]);
            Ok(Some((u64::from_be_bytes(ka), u64::from_be_bytes(va))))
        },
        Some(Ok(_)) => Err(sled::Error::Unsupported("malformed span index entry".to_string())),
    }
}

/// The span starting at `o` is in the index and `o` is the greatest recorded
/// offset at or below `at`.
pub open spec fn is_greatest_at_or_below(spans: Map<u64, u64>, at: u64, o: u64) -> bool {
    &&& spans.dom().contains(o)
    &&& o <= at
    &&& forall|o2: u64| #[trigger] spans.dom().contains(o2) && o2 <= at ==> o2 <= o
}

/// The span starting at `o` is in the index and `o` is the least recorded
/// offset at or above `at`.
pub open spec fn is_least_at_or_above(spans: Map<u64, u64>, at: u64, o: u64) -> bool {
    &&& spans.dom().contains(o)
    &&& o >= at
    &&& forall|o2: u64| #[trigger] spans.dom().contains(o2) && o2 >= at ==> o <= o2
}

/// Either no recorded span starts at or below `at`, or the last one to do so
/// ends at or before `at` — so nothing recorded from below reaches `at`.
pub open spec fn below_clear(spans: Map<u64, u64>, at: u64) -> bool {
    ||| forall|o2: u64| #[trigger] spans.dom().contains(o2) ==> o2 > at
    ||| exists|o1: u64|
        #[trigger] is_greatest_at_or_below(spans, at, o1) && o1 + spans[o1] <= at
}

/// Some recorded span covers position `pos`.
pub open spec fn covering(spans: Map<u64, u64>, pos: int) -> bool {
    exists|o: u64| #[trigger] spans.dom().contains(o) && o <= pos < o + spans[o]
}

/// Recorded spans do not overlap: each ends before the next begins.
pub open spec fn spans_disjoint(spans: Map<u64, u64>) -> bool {
    forall|o1: u64, o2: u64|
        #![trigger spans.dom().contains(o1), spans.dom().contains(o2)]
        spans.dom().contains(o1) && spans.dom().contains(o2) && o1 < o2 ==> o1 + spans[o1] <= o2
}

/// Every recorded span holds at least one byte, as every span this cache
/// records does.
pub open spec fn spans_positive(spans: Map<u64, u64>) -> bool {
    forall|o: u64| #[trigger] spans.dom().contains(o) ==> 1 <= spans[o]
}

/// What the index lookup at `at` may legitimately answer.
pub open spec fn next_span_ok(spans: Map<u64, u64>, at: u64, opt: Option<(u64, u64)>) -> bool {
    match opt {
        Some((o, l)) => spans.contains_pair(o, l) && {
            ||| (is_greatest_at_or_below(spans, at, o) && at < o + l)
            ||| (is_least_at_or_above(spans, at, o) && below_clear(spans, at))
        },
        None => (forall|o2: u64| #[trigger] spans.dom().contains(o2) ==> o2 < at) && below_clear(
            spans,
            at,
        ),
    }
}

/// When nothing recorded from below reaches `at` and no recorded span
/// starts within `(at, p]`, position `p` is uncovered — provided the
/// recorded spans are disjoint.
pub proof fn lemma_below_clear_uncovered(spans: Map<u64, u64>, at: u64, p: int)
    requires
        spans_disjoint(spans),
        below_clear(spans, at),
        at <= p,
        forall|o2: u64| #[trigger] spans.dom().contains(o2) && o2 > at ==> o2 > p,
    ensures
        !covering(spans, p),
{
    if covering(spans, p) {
        let o = choose|o: u64|
            #[trigger] spans.dom().contains(o) && o <= p && p < o + spans[o];
        assert(o <= at) by {
            if o > at {
                assert(o > p);
            }
        }
        if forall|o2: u64| #[trigger] spans.dom().contains(o2) ==> o2 > at {
            assert(spans.dom().contains(o));
        } else {
            let o1 = choose|o1: u64|
                #[trigger] is_greatest_at_or_below(spans, at, o1) && o1 + spans[o1] <= at;
            assert(spans.dom().contains(o) && o <= at);
            assert(o <= o1);
            if o == o1 {
                assert(false);
            } else {
                assert(o + spans[o] <= o1);
                assert(false);
            }
        }
    }
}

/// The byte-range cache: an ordered, durable index of stored spans for one
/// remote resource.  Span bytes themselves live in per-span files managed by
/// the embedding shell.
pub struct RangeCache {
    tree: sled::Tree,
}

impl RangeCache {
    /// The spans the index currently records, as offset to length.
    pub closed spec fn spans(self) -> Map<u64, u64> {
        tree_spans(self.tree)
    }

    /// Wraps an opened index tree.
    pub fn new(tree: sled::Tree) -> (r: RangeCache)
        ensures
            r.spans() == tree_spans(tree),
    {
        RangeCache { tree }
    }

    /// Finds the span that covers or follows `at`: the span with the
    /// greatest recorded offset at or below `at` if it still extends past
    /// `at`, else the first span recorded at or after `at`.
    pub fn get_next_range_at_or_after(&self, at: u64) -> (r: Result<
        Option<(u64, u64)>,
        CacheError,
    >)
        ensures
            r matches Ok(opt) ==> next_span_ok(self.spans(), at, opt),
    {
        let below = match span_at_or_below(&self.tree, at) {
            Ok(v) => v,
            Err(_) => {
                return Err(CacheError::Index);
            },
        };
        if let Some((o, l)) = below {
            if l > at - o {
                return Ok(Some((o, l)));
            }
        }
        let above = match span_at_or_above(&self.tree, at) {
            Ok(v) => v,
            Err(_) => {
                return Err(CacheError::Index);
            },
        };
        proof {
            if below is Some {
                let (o, l) = below->Some_0;
                assert(is_greatest_at_or_below(self.spans(), at, o) && o + self.spans()[o] <= at);
            }
        }
        Ok(above)
    }

    /// Records a freshly stored span in the index.  Recording happens only
    /// after the span's bytes are safely on disk, so an aborted fetch never
    /// leaves a falsely recorded span.
    pub fn record_range(&mut self, offset: u64, length: u64) -> (r: Result<(), CacheError>)
        requires
            1 <= length,
        ensures
            r is Ok ==> final(self).spans() == old(self).spans().insert(offset, length),
    {
        match span_index_insert(&mut self.tree, offset, length) {
            Ok(()) => Ok(()),
            Err(_) => Err(CacheError::Index),
        }
    }

    /// Drops a stale index entry whose backing file has gone missing; the
    /// next step of the read then fetches the bytes afresh.
    pub fn remove_stale(&mut self, offset: u64) -> (r: Result<(), CacheError>)
        ensures
            r is Ok ==> final(self).spans() == old(self).spans().remove(offset),
    {
        match span_index_remove(&mut self.tree, offset) {
            Ok(()) => Ok(()),
            Err(_) => Err(CacheError::Index),
        }
    }

    /// Decides the next step of an in-progress read: done, read a sub-range
    /// of a stored span from its backing file, or fetch a gap from the
    /// network.  Pieces are always taken in increasing offset order.
    pub fn next_step(&self, rr: &RangeRead) -> (r: Result<ReadStep, CacheError>)
        requires
            rr.wf(),
        ensures
            r matches Ok(step) ==> step_valid(self.spans(), *rr, step),
            rr.cursor == rr.spec_end() ==> r == Ok::<ReadStep, CacheError>(ReadStep::Done),
    {
        if rr.cursor == rr.offset + rr.length {
            return Ok(ReadStep::Done);
        }
        let end = rr.offset + rr.length;
        let found = self.get_next_range_at_or_after(rr.cursor)?;
        let ghost spans = self.spans();
        match found {
            None => {
                proof {
                    lemma_gap_uncovered_if(spans, rr.cursor, end as int);
                }
                Ok(ReadStep::Fetch { offset: rr.cursor, length: end - rr.cursor })
            },
            Some((s, l)) => {
                if s > rr.cursor {
                    let gap = if s < end {
                        s - rr.cursor
                    } else {
                        end - rr.cursor
                    };
                    proof {
                        lemma_gap_uncovered_if(spans, rr.cursor, rr.cursor + gap);
                    }
                    Ok(ReadStep::Fetch { offset: rr.cursor, length: gap })
                } else if l > rr.cursor - s {
                    let in_span = l - (rr.cursor - s);
                    let remaining = end - rr.cursor;
                    let take = if in_span < remaining {
                        in_span
                    } else {
                        remaining
                    };
                    Ok(
                        ReadStep::ReadSpan {
                            span_offset: s,
                            span_length: l,
                            skip: rr.cursor - s,
                            take,
                        },
                    )
                } else {
                    // a zero-length entry at the cursor; recorded spans all
                    // hold a byte, so nothing is lost fetching the rest
                    proof {
                        assert(spans.contains_pair(s, l) && l == 0);
                    }
                    Ok(ReadStep::Fetch { offset: rr.cursor, length: end - rr.cursor })
                }
            },
        }
    }
}

/// One step of serving a read request.
#[derive(Clone, Copy, PartialEq, Eq, Structural, Debug)]
pub enum ReadStep {
    /// The requested range is fully assembled.
    Done,
    /// Fetch `length` bytes from the network starting at `offset`, store
    /// them as a new span, record the span, and append them to the read.
    Fetch {
        /// First byte to fetch.
        offset: u64,
        /// How many bytes to fetch.
        length: u64,
    },
    /// Read `take` bytes at offset `skip` within the backing file of the
    /// recorded span `(span_offset, span_length)` and append them.
    ReadSpan {
        /// Offset the span was recorded at.
        span_offset: u64,
        /// Recorded length of the span.
        span_length: u64,
        /// Where in the span the needed bytes start.
        skip: u64,
        /// How many bytes are needed from the span.
        take: u64,
    },
}

/// What a legitimate next step of a read looks like, against the recorded
/// spans and the read's cursor.
pub open spec fn step_valid(spans: Map<u64, u64>, rr: RangeRead, step: ReadStep) -> bool {
    match step {
        ReadStep::Done => rr.cursor == rr.spec_end(),
        ReadStep::Fetch { offset, length } => {
            &&& rr.cursor < rr.spec_end()
            &&& offset == rr.cursor
            &&& 1 <= length
            &&& offset + length <= rr.spec_end()
            &&& (spans_disjoint(spans) && spans_positive(spans) ==> forall|p: int|
                offset <= p < offset + length ==> !covering(spans, p))
            &&& (spans_disjoint(spans) && spans_positive(spans) ==> forall|o2: u64|
                #[trigger] spans.dom().contains(o2) ==> !(offset < o2 < offset + length))
        },
        ReadStep::ReadSpan { span_offset, span_length, skip, take } => {
            &&& rr.cursor < rr.spec_end()
            &&& spans.contains_pair(span_offset, span_length)
            &&& span_offset <= rr.cursor < span_offset + span_length
            &&& skip == rr.cursor - span_offset
            &&& take == vstd::math::min(span_offset + span_length, rr.spec_end()) - rr.cursor
            &&& 1 <= take
            &&& rr.cursor + take <= rr.spec_end()
        },
    }
}

/// Recording the span a fetch step stored keeps the index non-overlapping
/// and its spans non-empty: a fetched gap neither covers a recorded byte
/// nor straddles a recorded span's start.
pub proof fn lemma_record_fetch_keeps_disjoint(
    spans: Map<u64, u64>,
    rr: RangeRead,
    offset: u64,
    length: u64,
)
    requires
        spans_disjoint(spans),
        spans_positive(spans),
        step_valid(spans, rr, ReadStep::Fetch { offset, length }),
    ensures
        spans_disjoint(spans.insert(offset, length)),
        spans_positive(spans.insert(offset, length)),
{
    let new = spans.insert(offset, length);
    assert(!covering(spans, offset as int));
    assert(!spans.dom().contains(offset)) by {
        if spans.dom().contains(offset) {
            assert(1 <= spans[offset]);
            assert(covering(spans, offset as int));
        }
    }
    assert forall|o1: u64, o2: u64|
        #![trigger new.dom().contains(o1), new.dom().contains(o2)]
        new.dom().contains(o1) && new.dom().contains(o2) && o1 < o2 implies o1 + new[o1]
        <= o2 by {
        if o1 == offset {
            assert(spans.dom().contains(o2));
            assert(!(offset < o2 < offset + length));
        } else if o2 == offset {
            assert(spans.dom().contains(o1));
            assert(o1 + spans[o1] <= offset) by {
                if o1 + spans[o1] > offset {
                    assert(o1 <= (offset as int) < o1 + spans[o1]);
                    assert(covering(spans, offset as int));
                }
            }
        } else {
            assert(spans.dom().contains(o1) && spans.dom().contains(o2));
        }
    }
}

/// Bridges [`below_clear`] to non-coverage of a whole gap under
/// disjointness, in the conditional form [`step_valid`] carries: nothing up
/// to `hi` (exclusive) is covered when no recorded span starts in
/// `(at, hi)`.
proof fn lemma_gap_uncovered_if(spans: Map<u64, u64>, at: u64, hi: int)
    requires
        below_clear(spans, at),
        at <= hi,
        forall|o2: u64| #[trigger] spans.dom().contains(o2) && o2 > at ==> o2 >= hi,
    ensures
        spans_disjoint(spans) && spans_positive(spans) ==> forall|p: int|
            at <= p < hi ==> !covering(spans, p),
{
    if spans_disjoint(spans) && spans_positive(spans) {
        assert forall|p: int| at <= p < hi implies !covering(spans, p) by {
            lemma_below_clear_uncovered(spans, at, p);
        }
    }
}

/// The state of one read request while its pieces are assembled.
pub struct RangeRead {
    /// First byte asked for.
    pub offset: u64,
    /// How many bytes were asked for.
    pub length: u64,
    /// Next byte still to be produced.
    pub cursor: u64,
    /// Bytes assembled so far, covering `offset .. cursor`.
    pub out: Vec<u8>,
}

impl RangeRead {
    /// One past the last byte asked for.
    pub open spec fn spec_end(self) -> int {
        self.offset + self.length
    }

    /// The cursor lies within the request and the output holds exactly the
    /// bytes up to it.
    pub open spec fn wf(self) -> bool {
        &&& self.offset <= self.cursor
        &&& self.cursor <= self.spec_end() <= u64::MAX
        &&& self.out@.len() == self.cursor - self.offset
    }

    /// The bytes assembled so far are exactly the source's bytes between the
    /// request's start and the cursor.
    pub open spec fn assembled(self, source: Seq<u8>) -> bool {
        self.out@ == source.subrange(self.offset as int, self.cursor as int)
    }

    /// Starts assembling the range `offset .. offset + length`.
    pub fn begin(offset: u64, length: u64) -> (r: RangeRead)
        requires
            offset + length <= u64::MAX,
        ensures
            r.wf(),
            r.offset == offset,
            r.length == length,
            r.cursor == offset,
            forall|source: Seq<u8>| offset <= source.len() ==> r.assembled(source),
    {
        let r = RangeRead { offset, length, cursor: offset, out: Vec::new() };
        proof {
            assert forall|source: Seq<u8>| offset <= source.len() implies r.assembled(source) by {
                assert(r.out@ =~= source.subrange(offset as int, offset as int));
            }
        }
        r
    }

    /// Whether every requested byte has been assembled.
    pub fn is_complete(&self) -> (r: bool)
        requires
            self.wf(),
        ensures
            r == (self.cursor == self.spec_end()),
    {
        self.cursor == self.offset + self.length
    }

    /// Appends the next piece of the range.  Whatever source the pieces are
    /// drawn from: if the bytes so far matched it and this piece is its next
    /// `data.len()` bytes, the extended bytes match it too.
    pub fn apply_chunk(&mut self, data: Vec<u8>)
        requires
            old(self).wf(),
            old(self).cursor + data@.len() <= old(self).spec_end(),
        ensures
            final(self).wf(),
            final(self).offset == old(self).offset,
            final(self).length == old(self).length,
            final(self).cursor == old(self).cursor + data@.len(),
            final(self).out@ == old(self).out@ + data@,
            forall|source: Seq<u8>|
                old(self).assembled(source) && final(self).cursor <= source.len() && data@
                    == source.subrange(
                    old(self).cursor as int,
                    old(self).cursor + data@.len(),
                ) ==> final(self).assembled(source),
    {
        let ghost prev = *self;
        let ghost dg = data@;
        let n = data.len();
        let mut data = data;
        self.out.append(&mut data);
        self.cursor = self.cursor + n as u64;
        proof {
            assert(self.out@ == prev.out@ + dg);
            assert forall|source: Seq<u8>|
                prev.assembled(source) && self.cursor <= source.len() && dg == source.subrange(
                    prev.cursor as int,
                    prev.cursor + dg.len(),
                ) implies self.assembled(source) by {
                assert(self.out@ =~= source.subrange(self.offset as int, self.cursor as int));
            }
        }
    }

    /// Hands out the fully assembled bytes.
    pub fn finish(self) -> (r: Vec<u8>)
        requires
            self.wf(),
            self.cursor == self.spec_end(),
        ensures
            r@ == self.out@,
            r@.len() == self.length,
    {
        self.out
    }
}

/// Turns a span-file step whose backing file has gone missing into the fetch
/// of exactly the bytes that were wanted from the file.  The caller removes
/// the stale index entry first.
pub fn stale_fallback_step(step: ReadStep) -> (r: ReadStep)
    requires
        step is ReadSpan,
        step->ReadSpan_span_offset + step->ReadSpan_skip + step->ReadSpan_take <= u64::MAX,
    ensures
        r == (ReadStep::Fetch {
            offset: (step->ReadSpan_span_offset + step->ReadSpan_skip) as u64,
            length: step->ReadSpan_take,
        }),
{
    match step {
        ReadStep::ReadSpan { span_offset, span_length: _, skip, take } => ReadStep::Fetch {
            offset: span_offset + skip,
            length: take,
        },
        _ => step,
    }
}

/// The last byte of the range `offset .. offset + length`, inclusive, as a
/// `Range: bytes={first}-{last}` header names it; nothing for an empty
/// range or one that runs past the address space.
pub fn range_end_inclusive(offset: u64, length: u64) -> (r: Option<u64>)
    ensures
        r is Some <==> 1 <= length && offset + length - 1 <= u64::MAX,
        r matches Some(e) ==> e == offset + length - 1,
{
    if length == 0 {
        return None;
    }
    offset.checked_add(length - 1)
}

/// Validates the answer to an HTTP range request: anything but 206 Partial
/// Content means the origin does not support range requests, and a body
/// longer than asked for is refused.
pub fn check_range_response(status: u16, body: Vec<u8>, expected: u64) -> (r: Result<
    Vec<u8>,
    CacheError,
>)
    ensures
        status != 206 ==> r == Err::<Vec<u8>, CacheError>(CacheError::RangeRequestsUnsupported),
        status == 206 && body@.len() > expected ==> r == Err::<Vec<u8>, CacheError>(
            CacheError::ResponseBodyTooLong { actual: body@.len() as u64, expected },
        ),
        status == 206 && body@.len() <= expected ==> (r matches Ok(b) && b@ == body@),
{
    if status != 206 {
        return Err(CacheError::RangeRequestsUnsupported);
    }
    if body.len() as u64 > expected {
        return Err(
            CacheError::ResponseBodyTooLong { actual: body.len() as u64, expected },
        );
    }
    Ok(body)
}

/// When a read has assembled every requested byte, and each piece handed to
/// it matched a common source — a fetched piece being the source's bytes at
/// the fetched range, a span-file piece being the file's recorded bytes,
/// themselves the source's — the result is exactly the source's bytes over
/// the requested range, whatever order and overlap earlier reads had.
pub proof fn lemma_read_exact(rr: RangeRead, source: Seq<u8>)
    requires
        rr.wf(),
        rr.cursor == rr.spec_end(),
        rr.assembled(source),
    ensures
        rr.out@ == source.subrange(rr.offset as int, rr.offset + rr.length),
{
}

/// Every position of the range `from .. to` lies in some recorded span.
pub open spec fn covered_range(spans: Map<u64, u64>, from: int, to: int) -> bool {
    forall|p: int| from <= p < to ==> covering(spans, p)
}

/// The induction step behind reading once and never fetching again: with
/// the consumed positions `offset .. cursor` recorded, performing the
/// decided step — and, for a fetch, recording the stored span — leaves the
/// consumed positions of the extended read recorded too.  Iterated over a
/// whole read, the full range ends recorded, and a later identical read
/// meets [`lemma_no_redundant_fetch`].
pub proof fn lemma_step_extends_coverage(spans: Map<u64, u64>, rr: RangeRead, step: ReadStep)
    requires
        spans_disjoint(spans),
        spans_positive(spans),
        step_valid(spans, rr, step),
        covered_range(spans, rr.offset as int, rr.cursor as int),
    ensures
        step matches ReadStep::Fetch { offset, length } ==> covered_range(
            spans.insert(offset, length),
            rr.offset as int,
            rr.cursor + length,
        ),
        step matches ReadStep::ReadSpan { take, .. } ==> covered_range(
            spans,
            rr.offset as int,
            rr.cursor + take,
        ),
{
    match step {
        ReadStep::Fetch { offset, length } => {
            let new = spans.insert(offset, length);
            assert(!spans.dom().contains(offset)) by {
                if spans.dom().contains(offset) {
                    assert(1 <= spans[offset]);
                    assert(covering(spans, offset as int));
                    assert(!covering(spans, offset as int));
                }
            }
            assert forall|p: int| rr.offset <= p < rr.cursor + length implies covering(
                new,
                p,
            ) by {
                if p < rr.cursor {
                    assert(covering(spans, p));
                    let o = choose|o: u64|
                        #[trigger] spans.dom().contains(o) && o <= p && p < o + spans[o];
                    assert(new.dom().contains(o) && new[o] == spans[o]);
                } else {
                    assert(new.dom().contains(offset));
                    assert(offset <= p < offset + new[offset]);
                }
            }
        },
        ReadStep::ReadSpan { span_offset, span_length, skip: _, take } => {
            assert forall|p: int| rr.offset <= p < rr.cursor + take implies covering(
                spans,
                p,
            ) by {
                if p >= rr.cursor {
                    assert(spans.dom().contains(span_offset));
                    assert(span_offset <= p && p < span_offset + spans[span_offset]);
                }
            }
        },
        ReadStep::Done => {
        },
    }
}

/// While the recorded spans are disjoint, hold at least a byte each, and
/// the whole requested range is already recorded — as it is after a
/// completed read of the same range — no step of the read fetches from the
/// network: at most one fetch ever happens for a given span.
pub proof fn lemma_no_redundant_fetch(
    spans: Map<u64, u64>,
    rr: RangeRead,
    step: ReadStep,
)
    requires
        spans_disjoint(spans),
        spans_positive(spans),
        rr.wf(),
        covered_range(spans, rr.offset as int, rr.spec_end()),
        rr.offset <= rr.cursor <= rr.spec_end(),
        step_valid(spans, rr, step),
    ensures
        !(step is Fetch),
{
    if step is Fetch {
        assert(rr.cursor < rr.spec_end());
        assert(covering(spans, rr.cursor as int));
        assert(!covering(spans, rr.cursor as int));
    }
}

} // verus!

//! The frame scanner: the control loop that turns a byte source into a
//! sequence of scanned items.
//!
//! Each call of [`Scanner::next`] accumulates bytes until one whole frame is
//! available, decodes it, degrades a content error to a recoverable
//! [`ScannedItem::Unknown`], and flushes trailing partial data at
//! end-of-stream. What a step produces is pinned down by [`spec_step`], a
//! function of the unprocessed bytes alone, and a whole scan by [`spec_scan`].

use vstd::prelude::*;

use crate::accumulator::Accumulator;
use crate::codec;
use crate::codec::Frame;
use crate::codec::spec_decode;
use crate::codec::spec_encode;
use crate::codec::spec_required;
use crate::error::ScanError;
use crate::source::ByteSource;

verus! {

/// Size of each physical read: how many bytes one read call may hand over.
pub const READ_CHUNK: usize = 4096;

/// Initial accumulator capacity: the largest whole frame the wire format
/// allows (3 header bytes, a payload of at most 0xFFFF bytes, 1 checksum
/// byte). A performance hint only, not a cap.
pub const BUFFER_CAPACITY: usize = 0xFFFF + 4;

/// One item of the scanned sequence: a decoded frame, or an unknown chunk
/// carrying the raw bytes that could not be decoded and the error that
/// caused their rejection.
#[derive(Debug)]
pub enum ScannedItem {
    /// A successfully decoded frame.
    Event(Frame),
    /// Raw bytes that could not be decoded, with the cause.
    Unknown(Vec<u8>, ScanError),
}

/// What one scanner step does, as a function of the unprocessed bytes.
pub ghost enum Step {
    /// No bytes are left: the sequence ends.
    End,
    /// The head of the stream cannot be sized: the scan fails fatally.
    BadHeader,
    /// A whole valid frame is at the head: it is decoded, consuming `used`
    /// bytes.
    Decoded { payload: Seq<u8>, used: nat },
    /// The first `count` bytes are handed over as one `Unknown` item.
    Skip { count: nat, error: ScanError },
}

/// The outcome of one scanner step on the unprocessed bytes `p`.
///
/// When `p` cannot even fill the frame at its head (`p` is shorter than the
/// announced byte count), the source is exhausted mid-frame and the whole of
/// `p` is flushed as one `Unknown` item with a `Truncated` cause. When the
/// frame is complete but its content invalid, exactly the announced bytes
/// are skipped, which bounds how much bad data one step discards.
pub open spec fn spec_step(p: Seq<u8>) -> Step {
    if p.len() == 0 {
        Step::End
    } else {
        match spec_required(p) {
            None => Step::BadHeader,
            Some(r) => if p.len() < r {
                Step::Skip { count: p.len(), error: ScanError::Truncated }
            } else {
                match spec_decode(p) {
                    Some(payload) => Step::Decoded { payload, used: r },
                    None => Step::Skip { count: r, error: ScanError::BadChecksum },
                }
            },
        }
    }
}

/// Whether the window `b` does not yet decide a step: its header announces
/// a byte count the window has not reached, so only more bytes (or
/// end-of-stream) can settle what happens next.
pub open spec fn needs_more(b: Seq<u8>) -> bool {
    spec_required(b) matches Some(rq) && b.len() < rq
}

/// One item of the predicted scan outcome.
pub ghost enum SpecItem {
    /// A frame decoded to this payload.
    Decoded(Seq<u8>),
    /// Bytes handed over raw, with the cause of their rejection.
    Unknown(Seq<u8>, ScanError),
}

/// The predicted outcome of scanning a whole byte stream: the emitted items,
/// the bytes left unconsumed (empty unless the scan stops fatally), and the
/// fatal error if one stops it.
pub ghost struct ScanOutcome {
    /// The items emitted, in order.
    pub items: Seq<SpecItem>,
    /// The bytes not attributed to any item.
    pub leftover: Seq<u8>,
    /// `Some` exactly when the scan stops on a fatal sizing error.
    pub fatal: Option<ScanError>,
}

/// What scanning the byte stream `p` to exhaustion yields, step by step.
pub open spec fn spec_scan(p: Seq<u8>) -> ScanOutcome
    decreases p.len(),
{
    match spec_step(p) {
        Step::End => ScanOutcome {
            items: Seq::empty(),
            leftover: Seq::empty(),
            fatal: None,
        },
        Step::BadHeader => ScanOutcome {
            items: Seq::empty(),
            leftover: p,
            fatal: Some(ScanError::BadHeader),
        },
        Step::Decoded { payload, used } => {
            let rest = spec_scan(p.skip(used as int));
            ScanOutcome {
                items: seq![SpecItem::Decoded(payload)] + rest.items,
                leftover: rest.leftover,
                fatal: rest.fatal,
            }
        },
        Step::Skip { count, error } => {
            let rest = spec_scan(p.skip(count as int));
            ScanOutcome {
                items: seq![SpecItem::Unknown(p.take(count as int), error)] + rest.items,
                leftover: rest.leftover,
                fatal: rest.fatal,
            }
        },
    }
}

/// The bytes an item accounts for: a decoded frame stands for its own
/// encoding, an unknown chunk for the raw bytes it carries.
pub open spec fn consumed_of(item: SpecItem) -> Seq<u8> {
    match item {
        SpecItem::Decoded(payload) => spec_encode(payload),
        SpecItem::Unknown(raw, _) => raw,
    }
}

/// The concatenation, in order, of the bytes all of `items` account for.
pub open spec fn spec_consumed(items: Seq<SpecItem>) -> Seq<u8>
    decreases items.len(),
{
    if items.len() == 0 {
        Seq::empty()
    } else {
        consumed_of(items[0]) + spec_consumed(items.skip(1))
    }
}

/// Conservation: every byte of the stream ends up in exactly one emitted
/// item, in order, none duplicated or dropped — concatenating the bytes the
/// items account for, and the leftover of a fatally stopped scan, restores
/// the stream.
pub proof fn lemma_conservation(p: Seq<u8>)
    ensures
        spec_consumed(spec_scan(p).items) + spec_scan(p).leftover =~= p,
    decreases p.len(),
{
    let out = spec_scan(p);
    match spec_step(p) {
        Step::End => {
            assert(p.len() == 0);
        },
        Step::BadHeader => {
            assert(out.items.len() == 0);
        },
        Step::Decoded { payload, used } => {
            codec::lemma_required_bounds(p);
            codec::lemma_decode_canonical(p);
            let rest = p.skip(used as int);
            lemma_conservation(rest);
            assert(out.items[0] == SpecItem::Decoded(payload));
            assert(out.items.skip(1) =~= spec_scan(rest).items);
            assert(consumed_of(out.items[0]) == p.take(used as int));
            assert(spec_consumed(out.items) + out.leftover =~= p.take(used as int) + (
            spec_consumed(spec_scan(rest).items) + spec_scan(rest).leftover));
            assert(p.take(used as int) + rest =~= p);
        },
        Step::Skip { count, error } => {
            codec::lemma_required_bounds(p);
            let rest = p.skip(count as int);
            lemma_conservation(rest);
            assert(out.items[0] == SpecItem::Unknown(p.take(count as int), error));
            assert(out.items.skip(1) =~= spec_scan(rest).items);
            assert(spec_consumed(out.items) + out.leftover =~= p.take(count as int) + (
            spec_consumed(spec_scan(rest).items) + spec_scan(rest).leftover));
            assert(p.take(count as int) + rest =~= p);
        },
    }
}

/// Progress: on a non-empty stream a step never stalls — it either fails
/// fatally or consumes at least one byte, so a scan cannot loop forever
/// without reading more data or emitting an item.
pub proof fn lemma_step_progress(p: Seq<u8>)
    requires
        p.len() > 0,
    ensures
        match spec_step(p) {
            Step::End => false,
            Step::BadHeader => true,
            Step::Decoded { payload, used } => 0 < used <= p.len(),
            Step::Skip { count, error } => 0 < count <= p.len(),
        },
{
    codec::lemma_required_bounds(p);
}

/// Ownership independence: the predicted item sequence is a function of the
/// byte content alone, so two sources of the same bytes — one borrowed, one
/// owned, or of any two types — scan to identical outcomes.
pub proof fn lemma_ownership_independence<S1: ByteSource, S2: ByteSource>(a: &S1, b: &S2)
    requires
        a.remaining() == b.remaining(),
    ensures
        spec_scan(a.remaining()) == spec_scan(b.remaining()),
{
}

/// A source that is exhausted from the start yields an empty item sequence.
pub proof fn lemma_empty_source()
    ensures
        spec_scan(Seq::<u8>::empty()).items =~= Seq::<SpecItem>::empty(),
        spec_scan(Seq::<u8>::empty()).leftover =~= Seq::<u8>::empty(),
        spec_scan(Seq::<u8>::empty()).fatal is None,
{
}

/// Peeling: a stream that starts with one whole encoded frame scans to that
/// frame followed by the scan of whatever comes after it.
pub proof fn lemma_scan_frame_prefix(payload: Seq<u8>, rest: Seq<u8>)
    requires
        payload.len() <= 0xFFFF,
    ensures
        ({
            let w = spec_encode(payload) + rest;
            &&& spec_scan(w).items =~= seq![SpecItem::Decoded(payload)] + spec_scan(rest).items
            &&& spec_scan(w).leftover == spec_scan(rest).leftover
            &&& spec_scan(w).fatal == spec_scan(rest).fatal
        }),
{
    let w = spec_encode(payload) + rest;
    codec::lemma_encode_required(payload, rest);
    codec::lemma_encode_decode(payload, rest);
    let r = payload.len() + 4;
    assert(spec_step(w) == Step::Decoded { payload, used: r as nat });
    assert(w.skip(r as int) =~= rest);
}

/// A lone partial frame — bytes that do not reach the count their header
/// announces — is flushed as exactly one `Unknown` item with a `Truncated`
/// cause, and the scan then ends cleanly.
pub proof fn lemma_trailing_partial(t: Seq<u8>)
    requires
        t.len() > 0,
        spec_required(t) matches Some(r) && t.len() < r,
    ensures
        spec_scan(t).items =~= seq![SpecItem::Unknown(t, ScanError::Truncated)],
        spec_scan(t).leftover =~= Seq::<u8>::empty(),
        spec_scan(t).fatal is None,
{
    assert(spec_step(t) == Step::Skip { count: t.len(), error: ScanError::Truncated });
    assert(t.skip(t.len() as int) =~= Seq::<u8>::empty());
    assert(t.take(t.len() as int) =~= t);
    lemma_empty_source();
}

/// The concatenation of the encodings of `ps`, in order.
pub open spec fn spec_encode_all(ps: Seq<Seq<u8>>) -> Seq<u8>
    decreases ps.len(),
{
    if ps.len() == 0 {
        Seq::empty()
    } else {
        spec_encode(ps[0]) + spec_encode_all(ps.skip(1))
    }
}

/// Whether every payload of `ps` fits the two-byte length field.
pub open spec fn all_fit(ps: Seq<Seq<u8>>) -> bool {
    forall|i: int| 0 <= i < ps.len() ==> (#[trigger] ps[i]).len() <= 0xFFFF
}

/// The items `ps` is expected to scan to: one decoded frame per payload.
pub open spec fn decoded_items(ps: Seq<Seq<u8>>) -> Seq<SpecItem> {
    ps.map_values(|q: Seq<u8>| SpecItem::Decoded(q))
}

/// A source producing any number of valid frames followed by bytes that do
/// not reach their announced count scans to the decoded frames followed by
/// exactly one `Unknown` item carrying the leftover bytes, then ends.
pub proof fn lemma_frames_then_partial(ps: Seq<Seq<u8>>, t: Seq<u8>)
    requires
        all_fit(ps),
        t.len() > 0,
        spec_required(t) matches Some(r) && t.len() < r,
    ensures
        ({
            let w = spec_encode_all(ps) + t;
            &&& spec_scan(w).items =~= decoded_items(ps) + seq![
                SpecItem::Unknown(t, ScanError::Truncated),
            ]
            &&& spec_scan(w).leftover =~= Seq::<u8>::empty()
            &&& spec_scan(w).fatal is None
        }),
    decreases ps.len(),
{
    let w = spec_encode_all(ps) + t;
    if ps.len() == 0 {
        assert(w =~= t);
        lemma_trailing_partial(t);
        assert(decoded_items(ps) =~= Seq::<SpecItem>::empty());
    } else {
        let tail = spec_encode_all(ps.skip(1)) + t;
        lemma_frames_then_partial(ps.skip(1), t);
        lemma_scan_frame_prefix(ps[0], tail);
        assert(w =~= spec_encode(ps[0]) + tail);
        assert(decoded_items(ps) =~= seq![SpecItem::Decoded(ps[0])] + decoded_items(ps.skip(1)));
    }
}

/// A frame whose size is determinable but whose content fails to decode
/// yields one `Unknown` item whose payload is exactly the announced bytes,
/// and scanning resumes on the bytes after them.
pub proof fn lemma_corrupt_sized_frame(p: Seq<u8>)
    requires
        spec_required(p) matches Some(r) && p.len() >= r,
        spec_decode(p) is None,
    ensures
        spec_required(p) matches Some(r) ==> ({
            let rest = p.skip(r as int);
            &&& spec_scan(p).items =~= seq![
                SpecItem::Unknown(p.take(r as int), ScanError::BadChecksum),
            ] + spec_scan(rest).items
            &&& spec_scan(p).leftover == spec_scan(rest).leftover
            &&& spec_scan(p).fatal == spec_scan(rest).fatal
        }),
{
    codec::lemma_required_bounds(p);
}

/// Two-frame round trip: the concatenation of two encoded frames scans to
/// exactly those two frames, in order, consuming all bytes.
pub proof fn lemma_two_frame_round_trip(a: Seq<u8>, b: Seq<u8>)
    requires
        a.len() <= 0xFFFF,
        b.len() <= 0xFFFF,
    ensures
        ({
            let w = spec_encode(a) + spec_encode(b);
            &&& spec_scan(w).items =~= seq![SpecItem::Decoded(a), SpecItem::Decoded(b)]
            &&& spec_scan(w).leftover =~= Seq::<u8>::empty()
            &&& spec_scan(w).fatal is None
        }),
{
    let w = spec_encode(a) + spec_encode(b);
    lemma_scan_frame_prefix(a, spec_encode(b));
    assert(spec_encode(b) + Seq::<u8>::empty() =~= spec_encode(b));
    lemma_scan_frame_prefix(b, Seq::<u8>::empty());
    lemma_empty_source();
    assert(spec_scan(w).items =~= seq![SpecItem::Decoded(a), SpecItem::Decoded(b)]);
}

/// Look for frames in an input stream.
pub struct Scanner<S: ByteSource> {
    buffer: Accumulator,
    reader: S,
}

/// A scanner's pending bytes are its buffered bytes followed by the bytes
/// its source has not yet handed over.
pub proof fn lemma_pending_split<S: ByteSource>(sc: &Scanner<S>)
    ensures
        sc.pending() == sc.buffered() + sc.unread(),
{
}

/// The predicted counterpart of one emitted item.
pub open spec fn item_view(item: ScannedItem) -> SpecItem {
    match item {
        ScannedItem::Event(f) => SpecItem::Decoded(f@),
        ScannedItem::Unknown(raw, e) => SpecItem::Unknown(raw@, e),
    }
}

/// The predicted counterparts of a sequence of emitted items.
pub open spec fn items_view(items: Seq<ScannedItem>) -> Seq<SpecItem> {
    items.map_values(|it: ScannedItem| item_view(it))
}

/// Scan a readable source, yielding its contents as `ScannedItem`s; pull
/// items one at a time with [`Scanner::next`].
pub fn iter_stream<S: ByteSource>(reader: S) -> (r: Scanner<S>)
    ensures
        r.pending() == reader.remaining(),
        r.buffered() =~= Seq::<u8>::empty(),
        r.unread() == reader.remaining(),
        r.reliable() == reader.infallible(),
{
    let buffer = Accumulator::with_capacity(BUFFER_CAPACITY);
    proof {
        assert(buffer@ + reader.remaining() =~= reader.remaining());
    }
    Scanner { buffer, reader }
}

impl<S: ByteSource> Scanner<S> {
    /// The bytes read from the source but not yet attributed to an item,
    /// followed by the bytes the source has not yet handed over: everything
    /// the scanner has still to process.
    pub closed spec fn pending(self) -> Seq<u8> {
        self.buffer@ + self.reader.remaining()
    }

    /// The bytes already read from the source and held in the accumulator,
    /// not yet attributed to an item.
    pub closed spec fn buffered(self) -> Seq<u8> {
        self.buffer@
    }

    /// Whether this scanner reads from a source that can never fail.
    pub closed spec fn reliable(self) -> bool {
        self.reader.infallible()
    }

    /// The bytes the source has not yet handed over.
    pub closed spec fn unread(self) -> Seq<u8> {
        self.reader.remaining()
    }

    /// Produce the next scanned item, or `None` at the end of the sequence.
    ///
    /// The step is exactly [`spec_step`] of the pending bytes, except that a
    /// read may fail with `Io`, which consumes nothing. `Io` can come only
    /// when the buffered bytes do not decide the step — that is, only when a
    /// read was genuinely needed — and never from a source that cannot fail;
    /// when the buffered bytes do decide, the source is not read at all.
    pub fn next(&mut self) -> (r: Option<Result<ScannedItem, ScanError>>)
        ensures
            final(self).reliable() == old(self).reliable(),
            old(self).reliable() ==> !(r matches Some(Err(e)) && e == ScanError::Io),
            (r matches Some(Err(e)) && e == ScanError::Io) ==> needs_more(old(self).buffered()),
            !needs_more(old(self).buffered()) ==> final(self).unread() == old(self).unread(),
            ({
                let p = old(self).pending();
                match r {
                    None => spec_step(p) == Step::End && final(self).pending() == p,
                    Some(step) => match step {
                        Err(e) => (e == ScanError::Io || spec_step(p) == Step::BadHeader
                            && e == ScanError::BadHeader) && final(self).pending() == p,
                        Ok(item) => match spec_step(p) {
                            Step::Decoded { payload, used } => item matches ScannedItem::Event(f)
                                && f@ == payload && final(self).pending() == p.skip(used as int),
                            Step::Skip { count, error } => item matches ScannedItem::Unknown(
                                raw,
                                e,
                            ) && raw@ == p.take(count as int) && e == error
                                && final(self).pending() == p.skip(count as int),
                            _ => false,
                        },
                    },
                }
            }),
    {
        let ghost p = self.pending();
        loop
            invariant
                p == old(self).pending(),
                self.buffer@ + self.reader.remaining() =~= p,
                self.reader.infallible() == old(self).reader.infallible(),
                self.reader.remaining() == old(self).reader.remaining() || needs_more(
                    old(self).buffered(),
                ),
                old(self).buffered().is_prefix_of(self.buffer@),
                self.buffer@.len() > old(self).buffered().len() ==> needs_more(
                    old(self).buffered(),
                ),
            ensures
                self.buffer@ + self.reader.remaining() =~= p,
                3 <= self.buffer@.len(),
                spec_required(self.buffer@) matches Some(req) && req <= self.buffer@.len(),
            decreases self.reader.remaining().len(),
        {
            let required = match codec::required_bytes(self.buffer.contiguous_view()) {
                Ok(v) => v,
                Err(e) => {
                    proof {
                        let m = self.buffer@.len() as int;
                        assert(p.take(m) =~= self.buffer@);
                        codec::lemma_required_prefix(p, m);
                    }
                    return Some(Err(e));
                },
            };
            if self.buffer.len() >= required {
                break;
            }
            let ghost buf_before = self.buffer@;
            let ghost rem_before = self.reader.remaining();
            match self.reader.read_chunk(READ_CHUNK) {
                Ok(chunk) => {
                    if chunk.len() == 0 {
                        // End of source: the remaining bytes, if any, are a
                        // partial frame that can never be completed.
                        proof {
                            assert(p =~= self.buffer@);
                        }
                        if self.buffer.is_empty() {
                            return None;
                        }
                        let blen = self.buffer.len();
                        let raw = self.buffer.drain_prefix(blen);
                        proof {
                            assert(raw@ =~= p.take(p.len() as int));
                            assert(self.buffer@ + self.reader.remaining() =~= p.skip(
                                p.len() as int,
                            ));
                        }
                        return Some(Ok(ScannedItem::Unknown(raw, ScanError::Truncated)));
                    }
                    self.buffer.append(&chunk);
                    proof {
                        let cl = chunk@.len() as int;
                        assert(chunk@ == rem_before.take(cl));
                        assert(self.reader.remaining() == rem_before.skip(cl));
                        assert(self.buffer@ =~= buf_before + chunk@);
                        assert(rem_before.take(cl) + rem_before.skip(cl) =~= rem_before);
                        assert(self.buffer@ + self.reader.remaining() =~= p);
                    }
                },
                Err(e) => {
                    return Some(Err(e));
                },
            }
        }
        // Enough bytes are buffered for the frame at the head: decode it.
        proof {
            let m = self.buffer@.len() as int;
            assert(p.take(m) =~= self.buffer@);
            codec::lemma_required_prefix(p, m);
            codec::lemma_decode_prefix(p, m);
        }
        match codec::decode(self.buffer.contiguous_view()) {
            Ok((frame, used)) => {
                self.buffer.drain_prefix(used);
                proof {
                    assert(self.buffer@ + self.reader.remaining() =~= p.skip(used as int));
                }
                Some(Ok(ScannedItem::Event(frame)))
            },
            Err(e) => {
                // The frame was sized but its content is invalid: skip
                // exactly the sized bytes as one recoverable item. Were the
                // sizing itself to fail here, fall back to one byte so that
                // the scan still makes progress.
                let n = match codec::required_bytes(self.buffer.contiguous_view()) {
                    Ok(v) => v,
                    Err(_) => 1,
                };
                let raw = self.buffer.drain_prefix(n);
                proof {
                    assert(raw@ =~= p.take(n as int));
                    assert(self.buffer@ + self.reader.remaining() =~= p.skip(n as int));
                }
                Some(Ok(ScannedItem::Unknown(raw, e)))
            },
        }
    }
}

/// Scan a source to exhaustion, collecting every item in order.
///
/// The collected items are exactly what [`spec_scan`] predicts for the
/// source's content: all of them on a clean end or a fatal `BadHeader`, and
/// a prefix of them when a read fails with `Io` part-way.
#[verifier::loop_isolation(false)]
pub fn scan_all<S: ByteSource>(reader: S) -> (r: (Vec<ScannedItem>, Option<ScanError>))
    ensures
        reader.infallible() ==> r.1 != Some(ScanError::Io),
        ({
            let out = spec_scan(reader.remaining());
            match r.1 {
                None => items_view(r.0@) == out.items && out.fatal is None,
                Some(e) => (e == ScanError::BadHeader && items_view(r.0@) == out.items
                    && out.fatal == Some(ScanError::BadHeader)) || (e == ScanError::Io
                    && items_view(r.0@) == out.items.take(r.0@.len() as int)),
            }
        }),
{
    let ghost whole = reader.remaining();
    let mut scanner = iter_stream(reader);
    let mut items: Vec<ScannedItem> = Vec::new();
    loop
        invariant
            scanner.reliable() == reader.infallible(),
            items_view(items@) + spec_scan(scanner.pending()).items =~= spec_scan(whole).items,
            spec_scan(scanner.pending()).fatal == spec_scan(whole).fatal,
        decreases scanner.pending().len(),
    {
        let ghost pend = scanner.pending();
        match scanner.next() {
            None => {
                proof {
                    assert(spec_scan(pend).items =~= Seq::<SpecItem>::empty());
                    assert(items_view(items@) =~= spec_scan(whole).items);
                }
                return (items, None);
            },
            Some(Ok(item)) => {
                proof {
                    lemma_step_progress(pend);
                    let x = item_view(item);
                    match spec_step(pend) {
                        Step::Decoded { payload, used } => {
                            assert(spec_scan(pend).items =~= seq![x] + spec_scan(
                                scanner.pending(),
                            ).items);
                        },
                        Step::Skip { count, error } => {
                            assert(spec_scan(pend).items =~= seq![x] + spec_scan(
                                scanner.pending(),
                            ).items);
                        },
                        _ => {
                            assert(false);
                        },
                    }
                    assert(items_view(items@.push(item)) =~= items_view(items@) + seq![x]);
                }
                items.push(item);
                proof {
                    assert(items_view(items@) + spec_scan(scanner.pending()).items =~= spec_scan(
                        whole,
                    ).items);
                }
            },
            Some(Err(e)) => {
                proof {
                    if e == ScanError::Io {
                        assert(items_view(items@).len() == items@.len());
                        assert(items_view(items@) =~= spec_scan(whole).items.take(items@.len() as int));
                    } else {
                        assert(spec_step(pend) == Step::BadHeader);
                        assert(spec_scan(pend).items =~= Seq::<SpecItem>::empty());
                        assert(items_view(items@) =~= spec_scan(whole).items);
                    }
                }
                return (items, Some(e));
            },
        }
    }
}

/// Appending one item extends the accounted bytes at the end.
pub proof fn lemma_consumed_push(items: Seq<SpecItem>, x: SpecItem)
    ensures
        spec_consumed(items.push(x)) =~= spec_consumed(items) + consumed_of(x),
    decreases items.len(),
{
    if items.len() == 0 {
        assert(items.push(x)[0] == x);
        assert(items.push(x).skip(1) =~= Seq::<SpecItem>::empty());
        assert(spec_consumed(items.push(x)) =~= consumed_of(x) + spec_consumed(
            Seq::<SpecItem>::empty(),
        ));
    } else {
        assert(items.push(x)[0] == items[0]);
        assert(items.push(x).skip(1) =~= items.skip(1).push(x));
        lemma_consumed_push(items.skip(1), x);
        assert(spec_consumed(items.push(x)) =~= consumed_of(items[0]) + (spec_consumed(
            items.skip(1),
        ) + consumed_of(x)));
        assert(spec_consumed(items) =~= consumed_of(items[0]) + spec_consumed(items.skip(1)));
    }
}

/// Rebuild a byte stream from emitted items, as a full-fidelity consumer
/// would: each decoded frame contributes its encoding, each unknown chunk
/// its raw bytes, in order.
pub fn reconstruct(items: &Vec<ScannedItem>) -> (r: Vec<u8>)
    ensures
        r@ =~= spec_consumed(items_view(items@)),
{
    let mut out: Vec<u8> = Vec::new();
    let mut i: usize = 0;
    while i < items.len()
        invariant
            i <= items@.len(),
            out@ =~= spec_consumed(items_view(items@.take(i as int))),
        decreases items@.len() - i,
    {
        proof {
            assert(items_view(items@.take(i + 1)) =~= items_view(items@.take(i as int)).push(
                item_view(items@[i as int]),
            ));
            lemma_consumed_push(items_view(items@.take(i as int)), item_view(items@[i as int]));
        }
        match &items[i] {
            ScannedItem::Event(f) => {
                f.encode_into(&mut out);
            },
            ScannedItem::Unknown(raw, e) => {
                let ghost base = out@;
                let mut j: usize = 0;
                while j < raw.len()
                    invariant
                        j <= raw@.len(),
                        out@ =~= base + raw@.take(j as int),
                    decreases raw@.len() - j,
                {
                    out.push(raw[j]);
                    proof {
                        assert(raw@.take(j + 1) =~= raw@.take(j as int).push(raw@[j as int]));
                    }
                    j = j + 1;
                }
                proof {
                    assert(raw@.take(raw@.len() as int) =~= raw@);
                }
            },
        }
        i = i + 1;
    }
    proof {
        assert(items@.take(items@.len() as int) =~= items@);
    }
    out
}

} // verus!

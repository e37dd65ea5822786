//! The wire format: a marker byte, a two-byte big-endian payload length, the
//! payload, and one XOR checksum byte.
//!
//! `spec_required` and `spec_decode` are the mathematical model of the framing
//! oracle consumed by the scanner: given a byte window, how many bytes a
//! decode attempt needs, and what a complete window decodes to.

use vstd::prelude::*;

use crate::error::ScanError;

verus! {

/// First byte of every frame.
pub const MAGIC: u8 = 0xB3;

/// XOR of all bytes of `s` (0 for the empty sequence).
pub open spec fn xor_sum(s: Seq<u8>) -> u8
    decreases s.len(),
{
    if s.len() == 0 {
        0
    } else {
        xor_sum(s.drop_last()) ^ s.last()
    }
}

/// How many total bytes a decode attempt needs, given the window `w`, or
/// `None` when the head of the window cannot be a frame header.
///
/// With fewer than 3 bytes the header (marker + 2 length bytes) is not yet
/// complete, so 3 bytes are needed before anything can be decided. A complete
/// frame is the 3 header bytes, the payload, and 1 checksum byte.
pub open spec fn spec_required(w: Seq<u8>) -> Option<nat> {
    if w.len() < 3 {
        Some(3nat)
    } else if w[0] != MAGIC {
        None
    } else {
        Some(4 + (w[1] as nat) * 256 + (w[2] as nat))
    }
}

/// What a window decodes to: the payload of the frame at its head, or `None`
/// when the header is unrecognizable, the window is shorter than the frame,
/// or the checksum does not match.
pub open spec fn spec_decode(w: Seq<u8>) -> Option<Seq<u8>> {
    match spec_required(w) {
        None => None,
        Some(r) => if w.len() < r || w.len() < 3 {
            None
        } else {
            let payload = w.subrange(3, r - 1);
            if xor_sum(payload) == w[r - 1] {
                Some(payload)
            } else {
                None
            }
        },
    }
}

/// The encoding of a payload `p` of at most 0xFFFF bytes.
pub open spec fn spec_encode(p: Seq<u8>) -> Seq<u8>
    recommends
        p.len() <= 0xFFFF,
{
    seq![MAGIC, (p.len() / 256) as u8, (p.len() % 256) as u8] + p + seq![xor_sum(p)]
}

/// A decoded frame: the payload carried by one well-formed wire frame.
#[derive(Debug)]
pub struct Frame {
    payload: Vec<u8>,
}

impl View for Frame {
    type V = Seq<u8>;

    closed spec fn view(&self) -> Seq<u8> {
        self.payload@
    }
}

impl Frame {
    /// The length field of the wire format is two bytes, so a frame's payload
    /// can never exceed 0xFFFF bytes. Every `Frame` satisfies this.
    #[verifier::type_invariant]
    pub open spec fn wf(self) -> bool {
        self@.len() <= 0xFFFF
    }

    /// Wrap a payload small enough for the two-byte length field.
    pub fn new(payload: Vec<u8>) -> (r: Frame)
        requires
            payload@.len() <= 0xFFFF,
        ensures
            r@ == payload@,
            r.wf(),
    {
        Frame { payload }
    }

    /// The carried payload.
    pub fn payload(&self) -> (r: &Vec<u8>)
        ensures
            r@ == self@,
    {
        &self.payload
    }

    /// Append this frame's encoding to `out`.
    pub fn encode_into(&self, out: &mut Vec<u8>)
        ensures
            final(out)@ =~= old(out)@ + spec_encode(self@),
    {
        proof {
            use_type_invariant(self);
        }
        let len: usize = self.payload.len();
        out.push(MAGIC);
        out.push((len / 256) as u8);
        out.push((len % 256) as u8);
        let mut i: usize = 0;
        while i < self.payload.len()
            invariant
                i <= self.payload@.len(),
                self.payload@.len() == len,
                len <= 0xFFFF,
                out@ =~= old(out)@ + seq![
                    MAGIC,
                    (len as nat / 256) as u8,
                    (len as nat % 256) as u8,
                ] + self.payload@.take(i as int),
            decreases self.payload@.len() - i,
        {
            out.push(self.payload[i]);
            proof {
                assert(self.payload@.take(i + 1) =~= self.payload@.take(i as int).push(
                    self.payload@[i as int],
                ));
            }
            i = i + 1;
        }
        let check = xor_range(&self.payload, 0, self.payload.len());
        out.push(check);
        proof {
            assert(self.payload@.take(self.payload@.len() as int) =~= self.payload@);
            assert(self.payload@.subrange(0, self.payload@.len() as int) =~= self.payload@);
        }
    }

    /// This frame's encoding as a fresh byte vector.
    pub fn to_vec(&self) -> (r: Vec<u8>)
        ensures
            r@ =~= spec_encode(self@),
    {
        let mut out: Vec<u8> = Vec::new();
        self.encode_into(&mut out);
        out
    }
}

/// The byte count announced by a header never lies below 3, and a window at
/// least as long as a well-formed header announces at least 4 bytes.
pub proof fn lemma_required_bounds(w: Seq<u8>)
    ensures
        spec_required(w) matches Some(r) ==> 3 <= r,
        w.len() >= 3 ==> (spec_required(w) matches Some(r) ==> 4 <= r),
{
}

/// The announced byte count depends only on the first 3 bytes of the window:
/// any prefix of `w` that still holds the header announces the same count.
pub proof fn lemma_required_prefix(w: Seq<u8>, m: int)
    requires
        3 <= m <= w.len(),
    ensures
        spec_required(w.take(m)) == spec_required(w),
{
    assert(w.take(m)[0] == w[0]);
    assert(w.take(m)[1] == w[1]);
    assert(w.take(m)[2] == w[2]);
}

/// A decode reads only the announced bytes: any prefix of `w` that holds the
/// whole frame decodes to the same payload.
pub proof fn lemma_decode_prefix(w: Seq<u8>, m: int)
    requires
        spec_required(w) matches Some(r) && r <= m <= w.len(),
    ensures
        spec_decode(w.take(m)) == spec_decode(w),
{
    let r = spec_required(w).unwrap();
    lemma_required_bounds(w);
    lemma_required_prefix(w, m);
    assert(w.take(m).subrange(3, r - 1) =~= w.subrange(3, r - 1));
    assert(w.take(m)[r - 1] == w[r - 1]);
}

/// An encoded frame announces exactly its own length, whatever follows it.
pub proof fn lemma_encode_required(p: Seq<u8>, rest: Seq<u8>)
    requires
        p.len() <= 0xFFFF,
    ensures
        spec_required(spec_encode(p) + rest) == Some((p.len() + 4) as nat),
        spec_encode(p).len() == p.len() + 4,
{
    let w = spec_encode(p) + rest;
    let l = p.len() as int;
    assert(w[0] == MAGIC);
    assert(w[1] == (l / 256) as u8);
    assert(w[2] == (l % 256) as u8);
    vstd::arithmetic::div_mod::lemma_fundamental_div_mod(l, 256);
    assert(l / 256 <= 255) by {
        vstd::arithmetic::div_mod::lemma_div_is_ordered(l, 0xFFFF, 256);
    }
    assert(0 <= l % 256 < 256) by {
        vstd::arithmetic::div_mod::lemma_mod_bound(l, 256);
    }
    assert((w[1] as nat) == l / 256);
    assert((w[2] as nat) == l % 256);
}

/// Round trip: decoding an encoded frame, whatever follows it, yields the
/// frame's own payload back.
pub proof fn lemma_encode_decode(p: Seq<u8>, rest: Seq<u8>)
    requires
        p.len() <= 0xFFFF,
    ensures
        spec_decode(spec_encode(p) + rest) == Some(p),
{
    let w = spec_encode(p) + rest;
    let r = p.len() + 4;
    lemma_encode_required(p, rest);
    assert(w.subrange(3, r - 1) =~= p);
    assert(w[r - 1] == xor_sum(p));
}

/// Canonical bytes: when a window decodes, the bytes the frame consumed are
/// exactly the encoding of the decoded payload. This is what lets a consumer
/// reconstruct the original stream from the emitted items.
pub proof fn lemma_decode_canonical(w: Seq<u8>)
    requires
        spec_decode(w) is Some,
    ensures
        spec_required(w) matches Some(r) && ({
            let p = spec_decode(w).unwrap();
            &&& p.len() + 4 == r
            &&& p.len() <= 0xFFFF
            &&& w.take(r as int) =~= spec_encode(p)
        }),
{
    let r = spec_required(w).unwrap() as int;
    let p = spec_decode(w).unwrap();
    let hi = w[1] as int;
    let lo = w[2] as int;
    assert(p =~= w.subrange(3, r - 1));
    assert(p.len() == r - 4);
    assert(r - 4 == hi * 256 + lo);
    assert(hi * 256 + lo <= 255 * 256 + 255) by (nonlinear_arith)
        requires
            hi <= 255,
            lo <= 255,
    ;
    vstd::arithmetic::div_mod::lemma_fundamental_div_mod_converse(hi * 256 + lo, 256, hi, lo);
    assert(p.len() as int / 256 == hi);
    assert(p.len() as int % 256 == lo);
    assert(w.take(r) =~= spec_encode(p));
}

/// XOR of the bytes of `v` in `start..end`.
fn xor_range(v: &Vec<u8>, start: usize, end: usize) -> (r: u8)
    requires
        start <= end <= v@.len(),
    ensures
        r == xor_sum(v@.subrange(start as int, end as int)),
{
    let mut acc: u8 = 0;
    let mut i: usize = start;
    while i < end
        invariant
            start <= i <= end <= v@.len(),
            acc == xor_sum(v@.subrange(start as int, i as int)),
        decreases end - i,
    {
        proof {
            let sub = v@.subrange(start as int, i + 1);
            assert(sub.drop_last() =~= v@.subrange(start as int, i as int));
            assert(sub.last() == v@[i as int]);
        }
        acc = acc ^ v[i];
        i = i + 1;
    }
    acc
}

/// How many total bytes are needed to attempt a decode of the frame at the
/// head of `window`; fails exactly when the header is unrecognizable.
pub fn required_bytes(window: &Vec<u8>) -> (r: Result<usize, ScanError>)
    ensures
        match spec_required(window@) {
            Some(n) => r matches Ok(v) && v == n,
            None => r matches Err(e) && e == ScanError::BadHeader,
        },
{
    if window.len() < 3 {
        Ok(3)
    } else if window[0] != MAGIC {
        Err(ScanError::BadHeader)
    } else {
        let hi = window[1] as usize;
        let lo = window[2] as usize;
        Ok(4 + hi * 256 + lo)
    }
}

/// Decode the frame at the head of `window`: its payload and how many bytes
/// it consumed. Fails with `BadHeader` when the header is unrecognizable,
/// `Truncated` when the window is shorter than the frame it announces, and
/// `BadChecksum` when the sized content is invalid.
pub fn decode(window: &Vec<u8>) -> (r: Result<(Frame, usize), ScanError>)
    ensures
        match spec_decode(window@) {
            Some(p) => r matches Ok((f, used)) && f@ == p && spec_required(window@) == Some(
                used as nat,
            ),
            None => r matches Err(e) && e == (if spec_required(window@) is None {
                ScanError::BadHeader
            } else if window@.len() < spec_required(window@).unwrap() {
                ScanError::Truncated
            } else {
                ScanError::BadChecksum
            }),
        },
{
    let required = match required_bytes(window) {
        Ok(n) => n,
        Err(e) => {
            return Err(e);
        },
    };
    if window.len() < required {
        return Err(ScanError::Truncated);
    }
    let check = xor_range(window, 3, required - 1);
    if check != window[required - 1] {
        return Err(ScanError::BadChecksum);
    }
    let mut payload: Vec<u8> = Vec::new();
    let mut i: usize = 3;
    while i < required - 1
        invariant
            3 <= i <= required - 1 <= window@.len(),
            payload@ =~= window@.subrange(3, i as int),
        decreases required - i,
    {
        payload.push(window[i]);
        i = i + 1;
    }
    proof {
        assert(payload@.len() == required - 4);
    }
    Ok((Frame { payload }, required))
}

} // verus!

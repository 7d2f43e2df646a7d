//! Annex-B NAL unit splitting.
//!
//! An Annex-B elementary stream delimits NAL units with 3-byte (`00 00 01`)
//! or 4-byte (`00 00 00 01`) start codes. [`split_nalu`] yields each NAL
//! unit without its start code; a buffer lacking a leading start code is
//! yielded whole, and consecutive start codes yield an empty unit.

use vstd::prelude::*;

verus! {

/// HEVC NAL unit type of a video parameter set.
pub const HEVC_NALU_TYPE_VPS: u8 = 32;

/// HEVC NAL unit type of a sequence parameter set.
pub const HEVC_NALU_TYPE_SPS: u8 = 33;

/// HEVC NAL unit type of a picture parameter set.
pub const HEVC_NALU_TYPE_PPS: u8 = 34;

/// AVC NAL unit type of a sequence parameter set.
pub const AVC_NALU_TYPE_SPS: u8 = 7;

/// AVC NAL unit type of a picture parameter set.
pub const AVC_NALU_TYPE_PPS: u8 = 8;

/// First HEVC random-access NAL unit type (BLA_W_LP).
pub const HEVC_NAL_BLA_W_LP: u8 = 16;

/// Last HEVC random-access NAL unit type (CRA_NUT).
pub const HEVC_NAL_CRA_NUT: u8 = 21;

/// AVC NAL unit type of an IDR slice.
pub const AVC_NAL_ISLICE_NALU: u8 = 5;

/// A 3-byte start code `00 00 01` begins at `i`.
pub open spec fn is_sc3(d: Seq<u8>, i: int) -> bool {
    0 <= i && i + 3 <= d.len() && d[i] == 0 && d[i + 1] == 0 && d[i + 2] == 1
}

/// A 4-byte start code `00 00 00 01` begins at `i`.
pub open spec fn is_sc4(d: Seq<u8>, i: int) -> bool {
    0 <= i && i + 4 <= d.len() && d[i] == 0 && d[i + 1] == 0 && d[i + 2] == 0 && d[i + 3] == 1
}

/// A start code of either length begins at `i`.
pub open spec fn is_sc(d: Seq<u8>, i: int) -> bool {
    is_sc3(d, i) || is_sc4(d, i)
}

/// The length of the start code at `i`, preferring the 4-byte form.
pub open spec fn sc_len(d: Seq<u8>, i: int) -> int {
    if is_sc4(d, i) {
        4
    } else {
        3
    }
}

/// The end of the NAL payload that starts at `i`: the first position at or
/// after `i` where a start code begins, or the end of the data.
pub open spec fn payload_end(d: Seq<u8>, i: int) -> int
    decreases d.len() - i,
{
    if i >= d.len() {
        d.len() as int
    } else if is_sc(d, i) {
        i
    } else {
        payload_end(d, i + 1)
    }
}

/// The payload spans of the stream from payload position `p` on: each span
/// `(start, end)` delimits one NAL unit without its start code.
pub open spec fn split_body(d: Seq<u8>, p: int) -> Seq<(int, int)>
    decreases d.len() - p,
    when 0 <= p <= d.len()
    via split_body_decreases
{
    let e = payload_end(d, p);
    if e >= d.len() {
        seq![(p, d.len() as int)]
    } else {
        seq![(p, e)] + split_body(d, e + sc_len(d, e))
    }
}

#[via_fn]
proof fn split_body_decreases(d: Seq<u8>, p: int) {
    lemma_payload_end_props(d, p);
}

/// The payload spans of a whole Annex-B buffer: empty data has no NAL
/// units; data with a leading start code splits at every start code; data
/// without one is a single NAL unit.
pub open spec fn split_spans(d: Seq<u8>) -> Seq<(int, int)> {
    if d.len() == 0 {
        Seq::empty()
    } else if is_sc(d, 0) {
        split_body(d, sc_len(d, 0))
    } else {
        seq![(0, d.len() as int)]
    }
}

/// `payload_end` lies between its start and the end of the data, stops only
/// on a start code, and skips no start code.
pub proof fn lemma_payload_end_props(d: Seq<u8>, i: int)
    requires
        0 <= i <= d.len(),
    ensures
        i <= payload_end(d, i) <= d.len(),
        payload_end(d, i) < d.len() ==> is_sc(d, payload_end(d, i)),
        forall|j: int| i <= j < payload_end(d, i) ==> !(#[trigger] is_sc(d, j)),
    decreases d.len() - i,
{
    if i < d.len() && !is_sc(d, i) {
        lemma_payload_end_props(d, i + 1);
    }
}

/// A scan that saw no start code before `e` and stopped at `e` has found
/// exactly `payload_end`.
pub proof fn lemma_payload_end_is(d: Seq<u8>, i: int, e: int)
    requires
        0 <= i <= e <= d.len(),
        forall|j: int| i <= j < e ==> !(#[trigger] is_sc(d, j)),
        e < d.len() ==> is_sc(d, e),
    ensures
        payload_end(d, i) == e,
    decreases e - i,
{
    if i < e {
        assert(!is_sc(d, i));
        lemma_payload_end_is(d, i + 1, e);
    }
}

/// Every span of `split_body` is a well-formed range within the data, and
/// there are never more spans than bytes.
pub proof fn lemma_split_body_props(d: Seq<u8>, p: int)
    requires
        0 <= p <= d.len(),
    ensures
        split_body(d, p).len() >= 1,
        split_body(d, p).len() <= d.len() - p + 1,
        forall|j: int|
            0 <= j < split_body(d, p).len() ==> 0 <= (#[trigger] split_body(d, p)[j]).0
                <= split_body(d, p)[j].1 <= d.len(),
    decreases d.len() - p,
{
    lemma_payload_end_props(d, p);
    let e = payload_end(d, p);
    if e < d.len() {
        lemma_split_body_props(d, e + sc_len(d, e));
    }
}

/// Every span of `split_spans` is a well-formed range, and there are at
/// most `len + 1` NAL units.
pub proof fn lemma_split_spans_props(d: Seq<u8>)
    ensures
        split_spans(d).len() <= d.len() + 1,
        forall|j: int|
            0 <= j < split_spans(d).len() ==> 0 <= (#[trigger] split_spans(d)[j]).0
                <= split_spans(d)[j].1 <= d.len(),
{
    if d.len() != 0 && is_sc(d, 0) {
        lemma_split_body_props(d, sc_len(d, 0));
    }
}

/// The bytes that rebuild the stream from `spans` onward, starting with the
/// start code that begins at `c`: each piece is one start code followed by
/// its NAL payload.
pub open spec fn rebuilt_from(d: Seq<u8>, spans: Seq<(int, int)>, c: int) -> Seq<u8>
    decreases spans.len(),
{
    if spans.len() == 0 {
        Seq::empty()
    } else {
        d.subrange(c, spans[0].1) + rebuilt_from(d, spans.skip(1), spans[0].1)
    }
}

proof fn lemma_body_rebuild(d: Seq<u8>, p: int, c: int)
    requires
        0 <= c <= p <= d.len(),
    ensures
        rebuilt_from(d, split_body(d, p), c) == d.subrange(c, d.len() as int),
    decreases d.len() - p,
{
    lemma_payload_end_props(d, p);
    let e = payload_end(d, p);
    let spans = split_body(d, p);
    if e >= d.len() {
        assert(spans == seq![(p, d.len() as int)]);
        assert(spans[0].1 == d.len() as int);
        assert(spans.skip(1) =~= Seq::<(int, int)>::empty());
        assert(rebuilt_from(d, spans.skip(1), spans[0].1) == Seq::<u8>::empty());
        assert(rebuilt_from(d, spans, c) == d.subrange(c, spans[0].1) + rebuilt_from(
            d,
            spans.skip(1),
            spans[0].1,
        ));
        assert(d.subrange(c, d.len() as int) + Seq::<u8>::empty() =~= d.subrange(
            c,
            d.len() as int,
        ));
    } else {
        let k = sc_len(d, e);
        let rest = split_body(d, e + k);
        assert(spans.skip(1) =~= rest);
        lemma_body_rebuild(d, e + k, e);
        assert(rebuilt_from(d, spans, c) == d.subrange(c, e) + rebuilt_from(d, rest, e));
        assert(d.subrange(c, e) + d.subrange(e, d.len() as int) =~= d.subrange(
            c,
            d.len() as int,
        ));
    }
}

/// Splitting is lossless: for a stream that begins with a start code,
/// concatenating each NAL unit's start code and payload reproduces the
/// input byte for byte.
pub proof fn lemma_split_reconstruct(d: Seq<u8>)
    requires
        is_sc(d, 0),
    ensures
        rebuilt_from(d, split_spans(d), 0) == d,
{
    lemma_body_rebuild(d, sc_len(d, 0), 0);
    assert(d.subrange(0, d.len() as int) =~= d);
}

/// Whether a 3-byte start code begins at `i`.
fn is_sc3_at(data: &[u8], i: usize) -> (r: bool)
    ensures
        r == is_sc3(data@, i as int),
{
    if data.len() >= 3 && i <= data.len() - 3 {
        let b0: u8 = *vstd::slice::slice_index_get(data, i);
        let b1: u8 = *vstd::slice::slice_index_get(data, i + 1);
        let b2: u8 = *vstd::slice::slice_index_get(data, i + 2);
        b0 == 0 && b1 == 0 && b2 == 1
    } else {
        false
    }
}

/// Whether a 4-byte start code begins at `i`.
fn is_sc4_at(data: &[u8], i: usize) -> (r: bool)
    ensures
        r == is_sc4(data@, i as int),
{
    if data.len() >= 4 && i <= data.len() - 4 {
        let b0: u8 = *vstd::slice::slice_index_get(data, i);
        let b1: u8 = *vstd::slice::slice_index_get(data, i + 1);
        let b2: u8 = *vstd::slice::slice_index_get(data, i + 2);
        let b3: u8 = *vstd::slice::slice_index_get(data, i + 3);
        b0 == 0 && b1 == 0 && b2 == 0 && b3 == 1
    } else {
        false
    }
}

/// Whether a start code of either length begins at `i`.
fn is_sc_at(data: &[u8], i: usize) -> (r: bool)
    ensures
        r == is_sc(data@, i as int),
{
    is_sc3_at(data, i) || is_sc4_at(data, i)
}

/// Splits an Annex-B buffer into its NAL units, without their start codes.
///
/// Both 3-byte and 4-byte start codes are recognized. A buffer lacking a
/// leading start code is returned as a single NAL unit; consecutive start
/// codes produce an empty slice.
pub fn split_nalu<'a>(data: &'a [u8]) -> (nalus: Vec<&'a [u8]>)
    ensures
        nalus@.len() == split_spans(data@).len(),
        forall|j: int|
            0 <= j < nalus@.len() ==> (#[trigger] nalus@[j])@ == data@.subrange(
                split_spans(data@)[j].0,
                split_spans(data@)[j].1,
            ),
{
    let ghost d = data@;
    let ghost spans = split_spans(d);
    let n: usize = data.len();
    let mut nalus: Vec<&'a [u8]> = Vec::new();
    if n == 0 {
        return nalus;
    }
    let mut p: usize;
    if is_sc4_at(data, 0) {
        p = 4;
    } else if is_sc3_at(data, 0) {
        p = 3;
    } else {
        let whole = vstd::slice::slice_subrange(data, 0, n);
        nalus.push(whole);
        assert(whole@ =~= d.subrange(0, d.len() as int));
        return nalus;
    }
    proof {
        lemma_split_spans_props(d);
        assert(spans == split_body(d, p as int));
    }
    loop
        invariant_except_break
            nalus@.len() < spans.len(),
            split_body(d, p as int) == spans.skip(nalus@.len() as int),
        invariant
            n == d.len(),
            data@ == d,
            0 <= p <= n,
            spans == split_spans(d),
            nalus@.len() <= spans.len(),
            forall|j: int|
                0 <= j < nalus@.len() ==> (#[trigger] nalus@[j])@ == d.subrange(
                    spans[j].0,
                    spans[j].1,
                ),
        ensures
            nalus@.len() == spans.len(),
            forall|j: int|
                0 <= j < nalus@.len() ==> (#[trigger] nalus@[j])@ == d.subrange(
                    spans[j].0,
                    spans[j].1,
                ),
        decreases n - p,
    {
        let ghost done = nalus@.len() as int;
        let mut e: usize = p;
        while e < n && !is_sc_at(data, e)
            invariant
                n == d.len(),
                data@ == d,
                p <= e <= n,
                forall|j: int| p <= j < e ==> !(#[trigger] is_sc(d, j)),
            decreases n - e,
        {
            e = e + 1;
        }
        proof {
            lemma_payload_end_is(d, p as int, e as int);
            lemma_split_body_props(d, p as int);
        }
        let nal = vstd::slice::slice_subrange(data, p, e);
        nalus.push(nal);
        proof {
            assert(split_body(d, p as int)[0] == spans[done]);
            assert(spans[done].0 == p as int && spans[done].1 == e as int);
        }
        if e >= n {
            proof {
                assert(split_body(d, p as int) =~= seq![(p as int, d.len() as int)]);
                assert(spans.skip(done) =~= seq![(p as int, d.len() as int)]);
                assert(nalus@.len() == spans.len());
            }
            break;
        }
        let k: usize = if is_sc4_at(data, e) {
            4
        } else {
            3
        };
        proof {
            assert(k as int == sc_len(d, e as int));
            assert(split_body(d, p as int) == seq![(p as int, e as int)] + split_body(
                d,
                e as int + k,
            ));
            assert(split_body(d, (e + k) as int) =~= spans.skip(done).skip(1));
            assert(spans.skip(done).skip(1) =~= spans.skip(done + 1));
            lemma_split_body_props(d, (e + k) as int);
            assert(spans.skip(done + 1).len() >= 1);
        }
        p = e + k;
    }
    nalus
}

} // verus!

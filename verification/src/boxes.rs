//! The MP4 box writers.
//!
//! Every writer appends one complete box to a byte vector and is specified
//! by a spec function giving the exact bytes of that box. The encodings
//! follow ISO/IEC 14496-12/14/15.

use vstd::prelude::*;

use crate::bytes::{
    box_bytes, concat_bytes, i32_be, lemma_concat_bytes_len_bound,
    lemma_concat_bytes_len_uniform, lemma_concat_bytes_snoc, push_bytes, push_i32_be, push_u16_be,
    push_u32_be, push_u64_be, push_u8, push_zeros, u16_be, u32_be, u64_be, write_box, zeros,
};
use crate::types::{track_emit_ok, Codec, SampleInfo, SampleType, Track, TrackType, TrackV};

verus! {

/// Box type code `ftyp`.
pub const T_FTYP: u32 = 0x66747970;

/// Box type code `mdat`.
pub const T_MDAT: u32 = 0x6D646174;

/// Box type code `moov`.
pub const T_MOOV: u32 = 0x6D6F6F76;

/// Box type code `mvhd`.
pub const T_MVHD: u32 = 0x6D766864;

/// Box type code `trak`.
pub const T_TRAK: u32 = 0x7472616B;

/// Box type code `tkhd`.
pub const T_TKHD: u32 = 0x746B6864;

/// Box type code `mdia`.
pub const T_MDIA: u32 = 0x6D646961;

/// Box type code `mdhd`.
pub const T_MDHD: u32 = 0x6D646864;

/// Box type code `hdlr`.
pub const T_HDLR: u32 = 0x68646C72;

/// Box type code `minf`.
pub const T_MINF: u32 = 0x6D696E66;

/// Box type code `vmhd`.
pub const T_VMHD: u32 = 0x766D6864;

/// Box type code `smhd`.
pub const T_SMHD: u32 = 0x736D6864;

/// Box type code `dinf`.
pub const T_DINF: u32 = 0x64696E66;

/// Box type code `dref`.
pub const T_DREF: u32 = 0x64726566;

/// Box type code `url ` (with a trailing space).
pub const T_URL: u32 = 0x75726C20;

/// Box type code `stbl`.
pub const T_STBL: u32 = 0x7374626C;

/// Box type code `stsd`.
pub const T_STSD: u32 = 0x73747364;

/// Box type code `avc1`.
pub const T_AVC1: u32 = 0x61766331;

/// Box type code `avcC`.
pub const T_AVCC: u32 = 0x61766343;

/// Box type code `hvc1`.
pub const T_HVC1: u32 = 0x68766331;

/// Box type code `hvcC`.
pub const T_HVCC: u32 = 0x68766343;

/// Box type code `mp4a`.
pub const T_MP4A: u32 = 0x6D703461;

/// Box type code `esds`.
pub const T_ESDS: u32 = 0x65736473;

/// Box type code `opus`.
pub const T_OPUS: u32 = 0x6F707573;

/// Box type code `dops`.
pub const T_DOPS: u32 = 0x646F7073;

/// Box type code `stts`.
pub const T_STTS: u32 = 0x73747473;

/// Box type code `ctts`.
pub const T_CTTS: u32 = 0x63747473;

/// Box type code `stsc`.
pub const T_STSC: u32 = 0x73747363;

/// Box type code `stsz`.
pub const T_STSZ: u32 = 0x7374737A;

/// Box type code `stco`.
pub const T_STCO: u32 = 0x7374636F;

/// Box type code `co64`.
pub const T_CO64: u32 = 0x636F3634;

/// Box type code `stss`.
pub const T_STSS: u32 = 0x73747373;

/// Box type code `mvex`.
pub const T_MVEX: u32 = 0x6D766578;

/// Box type code `trex`.
pub const T_TREX: u32 = 0x74726578;

/// Box type code `moof`.
pub const T_MOOF: u32 = 0x6D6F6F66;

/// Box type code `mfhd`.
pub const T_MFHD: u32 = 0x6D666864;

/// Box type code `traf`.
pub const T_TRAF: u32 = 0x74726166;

/// Box type code `tfhd`.
pub const T_TFHD: u32 = 0x74666864;

/// Box type code `trun`.
pub const T_TRUN: u32 = 0x7472756E;

/// Handler type `vide`.
pub const T_VIDE: u32 = 0x76696465;

/// Handler type `soun`.
pub const T_SOUN: u32 = 0x736F756E;

/// Brand `isom`.
pub const T_ISOM: u32 = 0x69736F6D;

/// Brand `mp41`.
pub const T_MP41: u32 = 0x6D703431;

/// Brand `iso6`.
pub const T_ISO6: u32 = 0x69736F36;

/// Brand `iso2`.
pub const T_ISO2: u32 = 0x69736F32;

/// The handler name, `VideoHandler` or `SoundHandler`, NUL-terminated.
pub open spec fn handler_name(video: bool) -> Seq<u8> {
    if video {
        u32_be(0x56696465) + u32_be(0x6F48616E) + u32_be(0x646C6572) + seq![0u8]
    } else {
        u32_be(0x536F756E) + u32_be(0x6448616E) + u32_be(0x646C6572) + seq![0u8]
    }
}

/// The `hdlr` box: handler type `vide` or `soun` and a fixed handler name.
pub open spec fn hdlr_bytes(video: bool) -> Seq<u8> {
    box_bytes(
        T_HDLR,
        zeros(4) + zeros(4) + u32_be(if video { T_VIDE } else { T_SOUN }) + zeros(12)
            + handler_name(video),
    )
}

/// Writes the `hdlr` box.
pub(crate) fn write_hdlr(video: bool, out: &mut Vec<u8>)
    ensures
        final(out)@ == old(out)@ + hdlr_bytes(video),
{
    let mut body: Vec<u8> = Vec::new();
    push_zeros(&mut body, 4);
    push_zeros(&mut body, 4);
    if video {
        push_u32_be(&mut body, T_VIDE);
        push_zeros(&mut body, 12);
        push_u32_be(&mut body, 0x56696465);
        push_u32_be(&mut body, 0x6F48616E);
        push_u32_be(&mut body, 0x646C6572);
        push_u8(&mut body, 0);
    } else {
        push_u32_be(&mut body, T_SOUN);
        push_zeros(&mut body, 12);
        push_u32_be(&mut body, 0x536F756E);
        push_u32_be(&mut body, 0x6448616E);
        push_u32_be(&mut body, 0x646C6572);
        push_u8(&mut body, 0);
    }
    assert(body@ =~= zeros(4) + zeros(4) + u32_be(if video { T_VIDE } else { T_SOUN }) + zeros(12)
        + handler_name(video));
    write_box(out, T_HDLR, &body);
}

/// The `vmhd` box: graphics mode and opcolor, all default.
pub open spec fn vmhd_bytes() -> Seq<u8> {
    box_bytes(T_VMHD, u32_be(1) + zeros(8))
}

/// Writes the `vmhd` box.
pub(crate) fn write_vmhd(out: &mut Vec<u8>)
    ensures
        final(out)@ == old(out)@ + vmhd_bytes(),
{
    let mut body: Vec<u8> = Vec::new();
    push_u32_be(&mut body, 1);
    push_zeros(&mut body, 8);
    assert(body@ =~= u32_be(1) + zeros(8));
    write_box(out, T_VMHD, &body);
}

/// The `smhd` box: balance and reserved fields, all zero.
pub open spec fn smhd_bytes() -> Seq<u8> {
    box_bytes(T_SMHD, zeros(4) + zeros(4))
}

/// Writes the `smhd` box.
pub(crate) fn write_smhd(out: &mut Vec<u8>)
    ensures
        final(out)@ == old(out)@ + smhd_bytes(),
{
    let mut body: Vec<u8> = Vec::new();
    push_zeros(&mut body, 4);
    push_zeros(&mut body, 4);
    assert(body@ =~= zeros(4) + zeros(4));
    write_box(out, T_SMHD, &body);
}

/// The `stsc` box: no entries in fragmented mode, otherwise one entry
/// mapping every chunk to one sample.
pub open spec fn stsc_bytes(fragment: bool) -> Seq<u8> {
    box_bytes(
        T_STSC,
        if fragment {
            zeros(4) + zeros(4)
        } else {
            zeros(4) + u32_be(1) + u32_be(1) + u32_be(1) + u32_be(1)
        },
    )
}

/// Writes the `stsc` box.
pub(crate) fn write_stsc(fragment: bool, out: &mut Vec<u8>)
    ensures
        final(out)@ == old(out)@ + stsc_bytes(fragment),
{
    let mut body: Vec<u8> = Vec::new();
    push_zeros(&mut body, 4);
    if fragment {
        push_zeros(&mut body, 4);
        assert(body@ =~= zeros(4) + zeros(4));
    } else {
        push_u32_be(&mut body, 1);
        push_u32_be(&mut body, 1);
        push_u32_be(&mut body, 1);
        push_u32_be(&mut body, 1);
        assert(body@ =~= zeros(4) + u32_be(1) + u32_be(1) + u32_be(1) + u32_be(1));
    }
    write_box(out, T_STSC, &body);
}

/// The `url ` box: self-contained data reference.
pub open spec fn url_bytes() -> Seq<u8> {
    box_bytes(T_URL, u32_be(1))
}

/// Writes the `url ` box.
pub(crate) fn write_url(out: &mut Vec<u8>)
    ensures
        final(out)@ == old(out)@ + url_bytes(),
{
    let mut body: Vec<u8> = Vec::new();
    push_u32_be(&mut body, 1);
    assert(body@ =~= u32_be(1));
    write_box(out, T_URL, &body);
}

/// The `dref` box: one `url ` entry.
pub open spec fn dref_bytes() -> Seq<u8> {
    box_bytes(T_DREF, zeros(4) + u32_be(1) + url_bytes())
}

/// Writes the `dref` box.
pub(crate) fn write_dref(out: &mut Vec<u8>)
    ensures
        final(out)@ == old(out)@ + dref_bytes(),
{
    let mut body: Vec<u8> = Vec::new();
    push_zeros(&mut body, 4);
    push_u32_be(&mut body, 1);
    write_url(&mut body);
    assert(body@ =~= zeros(4) + u32_be(1) + url_bytes());
    write_box(out, T_DREF, &body);
}

/// The `dinf` box: wraps the data reference.
pub open spec fn dinf_bytes() -> Seq<u8> {
    box_bytes(T_DINF, dref_bytes())
}

/// Writes the `dinf` box.
pub(crate) fn write_dinf(out: &mut Vec<u8>)
    ensures
        final(out)@ == old(out)@ + dinf_bytes(),
{
    let mut body: Vec<u8> = Vec::new();
    write_dref(&mut body);
    assert(body@ =~= dref_bytes());
    write_box(out, T_DINF, &body);
}

/// The `mfhd` box: the fragment's 1-based sequence number.
pub open spec fn mfhd_bytes(fragment_id: u32) -> Seq<u8> {
    box_bytes(T_MFHD, zeros(4) + u32_be(fragment_id))
}

/// Writes the `mfhd` box.
pub(crate) fn write_mfhd(fragment_id: u32, out: &mut Vec<u8>)
    ensures
        final(out)@ == old(out)@ + mfhd_bytes(fragment_id),
{
    let mut body: Vec<u8> = Vec::new();
    push_zeros(&mut body, 4);
    push_u32_be(&mut body, fragment_id);
    assert(body@ =~= zeros(4) + u32_be(fragment_id));
    write_box(out, T_MFHD, &body);
}

/// The `dops` box: Opus decoder configuration with default pre-skip, gain
/// and channel mapping.
pub open spec fn dops_bytes(channel_count: u32, sample_rate: u32) -> Seq<u8> {
    box_bytes(
        T_DOPS,
        seq![0u8] + u16_be(channel_count as u16) + zeros(2) + u32_be(sample_rate) + zeros(2)
            + seq![0u8],
    )
}

/// Writes the `dops` box.
pub(crate) fn write_dops(channel_count: u32, sample_rate: u32, out: &mut Vec<u8>)
    ensures
        final(out)@ == old(out)@ + dops_bytes(channel_count, sample_rate),
{
    let mut body: Vec<u8> = Vec::new();
    push_u8(&mut body, 0);
    push_u16_be(&mut body, channel_count as u16);
    push_zeros(&mut body, 2);
    push_u32_be(&mut body, sample_rate);
    push_zeros(&mut body, 2);
    push_u8(&mut body, 0);
    assert(body@ =~= seq![0u8] + u16_be(channel_count as u16) + zeros(2) + u32_be(sample_rate)
        + zeros(2) + seq![0u8]);
    write_box(out, T_DOPS, &body);
}

/// The per-sample entries of the `stsz` box: each sample's size.
pub open spec fn stsz_entries(samples: Seq<SampleInfo>) -> Seq<Seq<u8>> {
    samples.map_values(|s: SampleInfo| u32_be(s.sample_size))
}

/// The `stsz` box: no uniform size, then every sample's size.
pub open spec fn stsz_bytes(samples: Seq<SampleInfo>) -> Seq<u8> {
    box_bytes(
        T_STSZ,
        zeros(4) + zeros(4) + u32_be(samples.len() as u32) + concat_bytes(stsz_entries(samples)),
    )
}

/// Writes the `stsz` box.
pub(crate) fn write_stsz(samples: &Vec<SampleInfo>, out: &mut Vec<u8>)
    requires
        samples@.len() <= 0x0100_0000,
    ensures
        final(out)@ == old(out)@ + stsz_bytes(samples@),
{
    let ghost s = samples@;
    let mut body: Vec<u8> = Vec::new();
    push_zeros(&mut body, 4);
    push_zeros(&mut body, 4);
    push_u32_be(&mut body, samples.len() as u32);
    let ghost head = zeros(4) + zeros(4) + u32_be(s.len() as u32);
    let n: usize = samples.len();
    let mut i: usize = 0;
    while i < n
        invariant
            n == s.len(),
            samples@ == s,
            i <= n,
            body@ == head + concat_bytes(stsz_entries(s.take(i as int))),
        decreases n - i,
    {
        push_u32_be(&mut body, samples[i].sample_size);
        proof {
            assert(stsz_entries(s.take(i + 1)) =~= stsz_entries(s.take(i as int)).push(
                u32_be(s[i as int].sample_size),
            ));
            lemma_concat_bytes_snoc(
                stsz_entries(s.take(i as int)),
                u32_be(s[i as int].sample_size),
            );
            assert(body@ =~= head + concat_bytes(stsz_entries(s.take(i + 1))));
        }
        i = i + 1;
    }
    proof {
        assert(s.take(n as int) =~= s);
        lemma_concat_bytes_len_uniform(stsz_entries(s), 4);
    }
    write_box(out, T_STSZ, &body);
}

/// The per-sample entries of the `stco` box: each sample's chunk offset,
/// truncated to 32 bits.
pub open spec fn stco_entries(samples: Seq<SampleInfo>) -> Seq<Seq<u8>> {
    samples.map_values(|s: SampleInfo| u32_be(s.offset as u32))
}

/// The `stco` box: 32-bit chunk offsets, one per sample.
pub open spec fn stco_bytes(samples: Seq<SampleInfo>) -> Seq<u8> {
    box_bytes(
        T_STCO,
        zeros(4) + u32_be(samples.len() as u32) + concat_bytes(stco_entries(samples)),
    )
}

/// Writes the `stco` box.
pub(crate) fn write_stco(samples: &Vec<SampleInfo>, out: &mut Vec<u8>)
    requires
        samples@.len() <= 0x0100_0000,
    ensures
        final(out)@ == old(out)@ + stco_bytes(samples@),
{
    let ghost s = samples@;
    let mut body: Vec<u8> = Vec::new();
    push_zeros(&mut body, 4);
    push_u32_be(&mut body, samples.len() as u32);
    let ghost head = zeros(4) + u32_be(s.len() as u32);
    let n: usize = samples.len();
    let mut i: usize = 0;
    while i < n
        invariant
            n == s.len(),
            samples@ == s,
            i <= n,
            body@ == head + concat_bytes(stco_entries(s.take(i as int))),
        decreases n - i,
    {
        push_u32_be(&mut body, samples[i].offset as u32);
        proof {
            assert(stco_entries(s.take(i + 1)) =~= stco_entries(s.take(i as int)).push(
                u32_be(s[i as int].offset as u32),
            ));
            lemma_concat_bytes_snoc(
                stco_entries(s.take(i as int)),
                u32_be(s[i as int].offset as u32),
            );
            assert(body@ =~= head + concat_bytes(stco_entries(s.take(i + 1))));
        }
        i = i + 1;
    }
    proof {
        assert(s.take(n as int) =~= s);
        lemma_concat_bytes_len_uniform(stco_entries(s), 4);
    }
    write_box(out, T_STCO, &body);
}

/// The per-sample entries of the `co64` box: each sample's 64-bit offset.
pub open spec fn co64_entries(samples: Seq<SampleInfo>) -> Seq<Seq<u8>> {
    samples.map_values(|s: SampleInfo| u64_be(s.offset))
}

/// The `co64` box: 64-bit chunk offsets, one per sample.
pub open spec fn co64_bytes(samples: Seq<SampleInfo>) -> Seq<u8> {
    box_bytes(
        T_CO64,
        zeros(4) + u32_be(samples.len() as u32) + concat_bytes(co64_entries(samples)),
    )
}

/// Writes the `co64` box.
pub(crate) fn write_co64(samples: &Vec<SampleInfo>, out: &mut Vec<u8>)
    requires
        samples@.len() <= 0x0100_0000,
    ensures
        final(out)@ == old(out)@ + co64_bytes(samples@),
{
    let ghost s = samples@;
    let mut body: Vec<u8> = Vec::new();
    push_zeros(&mut body, 4);
    push_u32_be(&mut body, samples.len() as u32);
    let ghost head = zeros(4) + u32_be(s.len() as u32);
    let n: usize = samples.len();
    let mut i: usize = 0;
    while i < n
        invariant
            n == s.len(),
            samples@ == s,
            i <= n,
            body@ == head + concat_bytes(co64_entries(s.take(i as int))),
        decreases n - i,
    {
        push_u64_be(&mut body, samples[i].offset);
        proof {
            assert(co64_entries(s.take(i + 1)) =~= co64_entries(s.take(i as int)).push(
                u64_be(s[i as int].offset),
            ));
            lemma_concat_bytes_snoc(co64_entries(s.take(i as int)), u64_be(s[i as int].offset));
            assert(body@ =~= head + concat_bytes(co64_entries(s.take(i + 1))));
        }
        i = i + 1;
    }
    proof {
        assert(s.take(n as int) =~= s);
        lemma_concat_bytes_len_uniform(co64_entries(s), 8);
    }
    write_box(out, T_CO64, &body);
}

/// The number of random-access samples in the table.
pub open spec fn ra_count(samples: Seq<SampleInfo>) -> int
    decreases samples.len(),
{
    if samples.len() == 0 {
        0
    } else {
        ra_count(samples.drop_last()) + if samples.last().random_access {
            1int
        } else {
            0int
        }
    }
}

/// The random-access count lies between 0 and the number of samples.
pub proof fn lemma_ra_count_bounds(samples: Seq<SampleInfo>)
    ensures
        0 <= ra_count(samples) <= samples.len(),
    decreases samples.len(),
{
    if samples.len() > 0 {
        lemma_ra_count_bounds(samples.drop_last());
    }
}

/// The entries of the `stss` box: the 1-based index of every random-access
/// sample, in order.
pub open spec fn stss_entries(samples: Seq<SampleInfo>) -> Seq<Seq<u8>> {
    Seq::new(
        samples.len(),
        |i: int|
            if samples[i].random_access {
                u32_be((i + 1) as u32)
            } else {
                Seq::empty()
            },
    )
}

/// The `stss` box: the count of random-access samples, then their 1-based
/// indices.
pub open spec fn stss_bytes(samples: Seq<SampleInfo>) -> Seq<u8> {
    box_bytes(
        T_STSS,
        zeros(4) + u32_be(ra_count(samples) as u32) + concat_bytes(stss_entries(samples)),
    )
}

/// Writes the `stss` box.
pub(crate) fn write_stss(samples: &Vec<SampleInfo>, out: &mut Vec<u8>)
    requires
        samples@.len() <= 0x0100_0000,
    ensures
        final(out)@ == old(out)@ + stss_bytes(samples@),
{
    let ghost s = samples@;
    proof {
        lemma_ra_count_bounds(s);
    }
    let n: usize = samples.len();
    let mut count: u32 = 0;
    let mut i: usize = 0;
    while i < n
        invariant
            n == s.len(),
            samples@ == s,
            i <= n,
            n <= 0x0100_0000,
            count == ra_count(s.take(i as int)),
            0 <= count <= i,
        decreases n - i,
    {
        proof {
            assert(s.take(i + 1).drop_last() =~= s.take(i as int));
            assert(s.take(i + 1).last() == s[i as int]);
            lemma_ra_count_bounds(s.take(i as int));
        }
        if samples[i].random_access {
            count = count + 1;
        }
        i = i + 1;
    }
    proof {
        assert(s.take(n as int) =~= s);
    }
    let mut body: Vec<u8> = Vec::new();
    push_zeros(&mut body, 4);
    push_u32_be(&mut body, count);
    let ghost head = zeros(4) + u32_be(ra_count(s) as u32);
    let mut i: usize = 0;
    while i < n
        invariant
            n == s.len(),
            samples@ == s,
            i <= n,
            n <= 0x0100_0000,
            body@ == head + concat_bytes(stss_entries(s).take(i as int)),
        decreases n - i,
    {
        if samples[i].random_access {
            push_u32_be(&mut body, (i as u32) + 1);
        }
        proof {
            assert(stss_entries(s).take(i + 1) =~= stss_entries(s).take(i as int).push(
                stss_entries(s)[i as int],
            ));
            lemma_concat_bytes_snoc(stss_entries(s).take(i as int), stss_entries(s)[i as int]);
            if s[i as int].random_access {
                assert(stss_entries(s)[i as int] == u32_be((i + 1) as u32));
            } else {
                assert(stss_entries(s)[i as int] == Seq::<u8>::empty());
                assert(body@ =~= head + (concat_bytes(stss_entries(s).take(i as int))
                    + Seq::<u8>::empty()));
            }
            assert(body@ =~= head + concat_bytes(stss_entries(s).take(i + 1)));
        }
        i = i + 1;
    }
    proof {
        assert(stss_entries(s).take(n as int) =~= stss_entries(s));
        lemma_concat_bytes_len_bound(stss_entries(s), 4);
    }
    write_box(out, T_STSS, &body);
}

/// The length of the longest prefix of equal values.
pub open spec fn prefix_run<T>(v: Seq<T>) -> int
    decreases v.len(),
{
    if v.len() == 0 {
        0
    } else if v.len() >= 2 && v[1] == v[0] {
        1 + prefix_run(v.skip(1))
    } else {
        1
    }
}

/// The prefix run covers equal values only and stops at the first
/// different one.
pub proof fn lemma_prefix_run_props<T>(v: Seq<T>)
    requires
        v.len() > 0,
    ensures
        1 <= prefix_run(v) <= v.len(),
        forall|i: int| 0 <= i < prefix_run(v) ==> #[trigger] v[i] == v[0],
        prefix_run(v) < v.len() ==> v[prefix_run(v)] != v[0],
    decreases v.len(),
{
    if v.len() >= 2 && v[1] == v[0] {
        lemma_prefix_run_props(v.skip(1));
        let r = prefix_run(v);
        assert forall|i: int| 0 <= i < r implies #[trigger] v[i] == v[0] by {
            if i >= 1 {
                assert(v.skip(1)[i - 1] == v[i]);
            }
        }
        if r < v.len() {
            assert(v.skip(1)[r - 1] == v[r]);
        }
    }
}

/// A scan that found `r` equal leading values has found the prefix run.
pub proof fn lemma_prefix_run_is<T>(v: Seq<T>, r: int)
    requires
        1 <= r <= v.len(),
        forall|i: int| 0 <= i < r ==> #[trigger] v[i] == v[0],
        r < v.len() ==> v[r] != v[0],
    ensures
        prefix_run(v) == r,
    decreases v.len(),
{
    if r >= 2 {
        assert(v[1] == v[0]);
        assert forall|i: int| 0 <= i < r - 1 implies #[trigger] v.skip(1)[i] == v.skip(1)[0] by {
            assert(v.skip(1)[i] == v[i + 1]);
            assert(v.skip(1)[0] == v[1]);
        }
        if r - 1 < v.skip(1).len() {
            assert(v.skip(1)[r - 1] == v[r]);
            assert(v.skip(1)[0] == v[1]);
        }
        lemma_prefix_run_is(v.skip(1), r - 1);
    } else {
        if v.len() >= 2 {
            assert(v[1] != v[0]);
        }
    }
}

/// The run-length encoding of a sequence: `(count, value)` pairs, in
/// order, each counting a maximal run of equal consecutive values.
pub open spec fn rle<T>(v: Seq<T>) -> Seq<(u32, T)>
    decreases v.len(),
    when true
    via rle_decreases::<T>
{
    if v.len() == 0 {
        Seq::empty()
    } else {
        seq![((prefix_run(v) as u32), v[0])] + rle(v.skip(prefix_run(v)))
    }
}

#[via_fn]
proof fn rle_decreases<T>(v: Seq<T>) {
    if v.len() > 0 {
        lemma_prefix_run_props(v);
    }
}

/// There are never more runs than values.
pub proof fn lemma_rle_len<T>(v: Seq<T>)
    ensures
        rle(v).len() <= v.len(),
    decreases v.len(),
{
    if v.len() > 0 {
        lemma_prefix_run_props(v);
        lemma_rle_len(v.skip(prefix_run(v)));
    }
}

/// The sum of the counts of a run-length table.
pub open spec fn pairs_total<T>(pairs: Seq<(u32, T)>) -> int
    decreases pairs.len(),
{
    if pairs.len() == 0 {
        0
    } else {
        pairs[0].0 + pairs_total(pairs.skip(1))
    }
}

/// `n` copies of one value.
pub open spec fn repeat_val<T>(x: T, n: int) -> Seq<T> {
    Seq::new(
        (if n >= 0 {
            n
        } else {
            0
        }) as nat,
        |i: int| x,
    )
}

/// The expansion of a run-length table back into values.
pub open spec fn rle_expand<T>(pairs: Seq<(u32, T)>) -> Seq<T>
    decreases pairs.len(),
{
    if pairs.len() == 0 {
        Seq::empty()
    } else {
        repeat_val(pairs[0].1, pairs[0].0 as int) + rle_expand(pairs.skip(1))
    }
}

/// Run-length encoding is lossless and complete: expanding the pairs
/// reproduces the original sequence, and the counts sum to its length.
pub proof fn lemma_rle_roundtrip<T>(v: Seq<T>)
    requires
        v.len() <= u32::MAX,
    ensures
        rle_expand(rle(v)) == v,
        pairs_total(rle(v)) == v.len(),
    decreases v.len(),
{
    if v.len() > 0 {
        lemma_prefix_run_props(v);
        let r = prefix_run(v);
        lemma_rle_roundtrip(v.skip(r));
        assert(rle(v).skip(1) =~= rle(v.skip(r)));
        assert(repeat_val(v[0], r) =~= v.take(r));
        assert(rle_expand(rle(v)) == repeat_val(rle(v)[0].1, rle(v)[0].0 as int) + rle_expand(
            rle(v).skip(1),
        ));
        assert(rle(v)[0].1 == v[0] && rle(v)[0].0 as int == r);
        assert(v.take(r) + v.skip(r) =~= v);
        assert(pairs_total(rle(v)) == r + pairs_total(rle(v.skip(r))));
    }
}

/// Each sample's decode delta.
pub open spec fn deltas(samples: Seq<SampleInfo>) -> Seq<u32> {
    samples.map_values(|s: SampleInfo| s.sample_delta)
}

/// Each sample's composition-time offset.
pub open spec fn ct_offsets(samples: Seq<SampleInfo>) -> Seq<i32> {
    samples.map_values(|s: SampleInfo| s.sample_ct_offset)
}

/// The byte encodings of `stts` run-length pairs.
pub open spec fn stts_pair_bytes(pairs: Seq<(u32, u32)>) -> Seq<Seq<u8>> {
    pairs.map_values(|p: (u32, u32)| u32_be(p.0) + u32_be(p.1))
}

/// The `stts` box: the run-length encoding of the sample deltas.
pub open spec fn stts_bytes(samples: Seq<SampleInfo>) -> Seq<u8> {
    box_bytes(
        T_STTS,
        zeros(4) + u32_be(rle(deltas(samples)).len() as u32) + concat_bytes(
            stts_pair_bytes(rle(deltas(samples))),
        ),
    )
}

/// The byte encodings of `ctts` run-length pairs.
pub open spec fn ctts_pair_bytes(pairs: Seq<(u32, i32)>) -> Seq<Seq<u8>> {
    pairs.map_values(|p: (u32, i32)| u32_be(p.0) + i32_be(p.1))
}

/// The `ctts` box proper: the run-length encoding of the composition-time
/// offsets.
pub open spec fn ctts_bytes(samples: Seq<SampleInfo>) -> Seq<u8> {
    box_bytes(
        T_CTTS,
        zeros(4) + u32_be(rle(ct_offsets(samples)).len() as u32) + concat_bytes(
            ctts_pair_bytes(rle(ct_offsets(samples))),
        ),
    )
}

/// Whether any sample has a non-zero composition-time offset.
pub open spec fn has_ct_offsets(samples: Seq<SampleInfo>) -> bool {
    exists|i: int| 0 <= i < samples.len() && samples[i].sample_ct_offset != 0
}

/// What the muxer emits for `ctts`: the box when some offset is non-zero,
/// nothing otherwise.
pub open spec fn ctts_opt_bytes(samples: Seq<SampleInfo>) -> Seq<u8> {
    if has_ct_offsets(samples) {
        ctts_bytes(samples)
    } else {
        Seq::empty()
    }
}

/// Writes the `stts` box.
pub(crate) fn write_stts(samples: &Vec<SampleInfo>, out: &mut Vec<u8>)
    requires
        samples@.len() <= 0x0100_0000,
    ensures
        final(out)@ == old(out)@ + stts_bytes(samples@),
{
    let ghost s = samples@;
    let ghost dv = deltas(s);
    let n: usize = samples.len();
    let mut entries: Vec<u8> = Vec::new();
    let mut entry_count: u32 = 0;
    let ghost mut done: Seq<(u32, u32)> = Seq::empty();
    proof {
        assert(dv.skip(0) =~= dv);
        assert(done + rle(dv) =~= rle(dv));
        assert(entries@ =~= concat_bytes(stts_pair_bytes(done)));
    }
    let mut i: usize = 0;
    while i < n
        invariant
            n == s.len(),
            samples@ == s,
            dv == deltas(s),
            i <= n,
            n <= 0x0100_0000,
            done.len() <= i,
            entry_count == done.len(),
            rle(dv) == done + rle(dv.skip(i as int)),
            entries@ == concat_bytes(stts_pair_bytes(done)),
        decreases n - i,
    {
        let d: u32 = samples[i].sample_delta;
        let mut j: usize = i + 1;
        while j < n && samples[j].sample_delta == d
            invariant
                n == s.len(),
                samples@ == s,
                dv == deltas(s),
                i < j <= n,
                d == dv[i as int],
                forall|k: int| i <= k < j ==> dv[k] == d,
            decreases n - j,
        {
            j = j + 1;
        }
        proof {
            let rest = dv.skip(i as int);
            assert forall|k: int| 0 <= k < j - i implies #[trigger] rest[k] == rest[0] by {
                assert(rest[k] == dv[i + k]);
            }
            if j < n {
                assert(rest[(j - i) as int] == dv[j as int]);
            }
            lemma_prefix_run_is(rest, j - i);
        }
        push_u32_be(&mut entries, (j - i) as u32);
        push_u32_be(&mut entries, d);
        entry_count = entry_count + 1;
        proof {
            let rest = dv.skip(i as int);
            let pair = (((j - i) as u32), d);
            assert(rle(rest) == seq![pair] + rle(rest.skip(j - i)));
            assert(rest.skip(j - i) =~= dv.skip(j as int));
            assert(rle(dv) == done + rle(rest));
            assert((done + rle(rest)).skip(done.len() as int) =~= rle(rest));
            assert(rle(dv) =~= done.push(pair) + rle(dv.skip(j as int)));
            lemma_concat_bytes_snoc(stts_pair_bytes(done), u32_be(pair.0) + u32_be(pair.1));
            assert(stts_pair_bytes(done.push(pair)) =~= stts_pair_bytes(done).push(
                u32_be(pair.0) + u32_be(pair.1),
            ));
            assert(entries@ =~= concat_bytes(stts_pair_bytes(done.push(pair))));
            done = done.push(pair);
        }
        i = j;
    }
    proof {
        assert(dv.skip(n as int) =~= Seq::<u32>::empty());
        assert(rle(dv.skip(n as int)) == Seq::<(u32, u32)>::empty());
        assert(rle(dv) =~= done);
        assert(forall|k: int|
            0 <= k < stts_pair_bytes(done).len() ==> (#[trigger] stts_pair_bytes(done)[k]).len()
                == 8);
        lemma_concat_bytes_len_uniform(stts_pair_bytes(done), 8);
    }
    let mut body: Vec<u8> = Vec::new();
    push_zeros(&mut body, 4);
    push_u32_be(&mut body, entry_count);
    push_bytes(&mut body, entries.as_slice());
    assert(body@ =~= zeros(4) + u32_be(rle(deltas(s)).len() as u32) + concat_bytes(
        stts_pair_bytes(rle(deltas(s))),
    ));
    write_box(out, T_STTS, &body);
}

/// Writes the `ctts` box when any composition offset is non-zero, nothing
/// otherwise.
pub(crate) fn write_ctts(samples: &Vec<SampleInfo>, out: &mut Vec<u8>)
    requires
        samples@.len() <= 0x0100_0000,
    ensures
        final(out)@ == old(out)@ + ctts_opt_bytes(samples@),
{
    let ghost s = samples@;
    let n: usize = samples.len();
    let mut has_ctts: bool = false;
    let mut i: usize = 0;
    while i < n
        invariant_except_break
            !has_ctts,
        invariant
            n == s.len(),
            samples@ == s,
            i <= n,
            forall|k: int| 0 <= k < i ==> s[k].sample_ct_offset == 0,
        ensures
            !has_ctts ==> i == n && forall|k: int| 0 <= k < i ==> s[k].sample_ct_offset == 0,
            has_ctts ==> has_ct_offsets(s),
        decreases n - i,
    {
        if samples[i].sample_ct_offset != 0 {
            has_ctts = true;
            proof {
                assert(has_ct_offsets(s));
            }
            break;
        }
        i = i + 1;
    }
    if !has_ctts {
        proof {
            assert(!has_ct_offsets(s));
        }
        return;
    }
    let ghost cv = ct_offsets(s);
    let mut entries: Vec<u8> = Vec::new();
    let mut entry_count: u32 = 0;
    let ghost mut done: Seq<(u32, i32)> = Seq::empty();
    proof {
        assert(cv.skip(0) =~= cv);
        assert(done + rle(cv) =~= rle(cv));
        assert(entries@ =~= concat_bytes(ctts_pair_bytes(done)));
    }
    let mut i: usize = 0;
    while i < n
        invariant
            n == s.len(),
            samples@ == s,
            cv == ct_offsets(s),
            i <= n,
            n <= 0x0100_0000,
            done.len() <= i,
            entry_count == done.len(),
            rle(cv) == done + rle(cv.skip(i as int)),
            entries@ == concat_bytes(ctts_pair_bytes(done)),
        decreases n - i,
    {
        let c: i32 = samples[i].sample_ct_offset;
        let mut j: usize = i + 1;
        while j < n && samples[j].sample_ct_offset == c
            invariant
                n == s.len(),
                samples@ == s,
                cv == ct_offsets(s),
                i < j <= n,
                c == cv[i as int],
                forall|k: int| i <= k < j ==> cv[k] == c,
            decreases n - j,
        {
            j = j + 1;
        }
        proof {
            let rest = cv.skip(i as int);
            assert forall|k: int| 0 <= k < j - i implies #[trigger] rest[k] == rest[0] by {
                assert(rest[k] == cv[i + k]);
            }
            if j < n {
                assert(rest[(j - i) as int] == cv[j as int]);
            }
            lemma_prefix_run_is(rest, j - i);
        }
        push_u32_be(&mut entries, (j - i) as u32);
        push_i32_be(&mut entries, c);
        entry_count = entry_count + 1;
        proof {
            let rest = cv.skip(i as int);
            let pair = (((j - i) as u32), c);
            assert(rle(rest) == seq![pair] + rle(rest.skip(j - i)));
            assert(rest.skip(j - i) =~= cv.skip(j as int));
            assert(rle(cv) == done + rle(rest));
            assert(rle(cv) =~= done.push(pair) + rle(cv.skip(j as int)));
            lemma_concat_bytes_snoc(ctts_pair_bytes(done), u32_be(pair.0) + i32_be(pair.1));
            assert(ctts_pair_bytes(done.push(pair)) =~= ctts_pair_bytes(done).push(
                u32_be(pair.0) + i32_be(pair.1),
            ));
            assert(entries@ =~= concat_bytes(ctts_pair_bytes(done.push(pair))));
            done = done.push(pair);
        }
        i = j;
    }
    proof {
        assert(cv.skip(n as int) =~= Seq::<i32>::empty());
        assert(rle(cv.skip(n as int)) == Seq::<(u32, i32)>::empty());
        assert(rle(cv) =~= done);
        assert(forall|k: int|
            0 <= k < ctts_pair_bytes(done).len() ==> (#[trigger] ctts_pair_bytes(done)[k]).len()
                == 8);
        lemma_concat_bytes_len_uniform(ctts_pair_bytes(done), 8);
    }
    let mut body: Vec<u8> = Vec::new();
    push_zeros(&mut body, 4);
    push_u32_be(&mut body, entry_count);
    push_bytes(&mut body, entries.as_slice());
    assert(body@ =~= zeros(4) + u32_be(rle(ct_offsets(s)).len() as u32) + concat_bytes(
        ctts_pair_bytes(rle(ct_offsets(s))),
    ));
    write_box(out, T_CTTS, &body);
}

/// The `mdhd` box: timescale, duration and the packed ISO-639 language.
pub open spec fn mdhd_bytes(timescale: u32, duration: u32, language: Seq<u8>) -> Seq<u8> {
    box_bytes(
        T_MDHD,
        zeros(4) + zeros(4) + zeros(4) + u32_be(timescale) + u32_be(duration) + u16_be(
            lang_code(language),
        ) + zeros(2),
    )
}

/// The packed 15-bit language code: three 5-bit characters.
pub open spec fn lang_code(language: Seq<u8>) -> u16 {
    (((language[0] & 31) as u16 as int * 0x400 + (language[1] & 31) as u16 as int * 0x20 + (
    language[2] & 31) as u16 as int) as u16)
}

/// Writes the `mdhd` box.
pub(crate) fn write_mdhd(timescale: u32, duration: u32, language: &[u8; 3], out: &mut Vec<u8>)
    ensures
        final(out)@ == old(out)@ + mdhd_bytes(timescale, duration, language@),
{
    let mut body: Vec<u8> = Vec::new();
    push_zeros(&mut body, 4);
    push_zeros(&mut body, 4);
    push_zeros(&mut body, 4);
    push_u32_be(&mut body, timescale);
    push_u32_be(&mut body, duration);
    let l0: u16 = (language[0] & 31) as u16;
    let l1: u16 = (language[1] & 31) as u16;
    let l2: u16 = (language[2] & 31) as u16;
    proof {
        let b0 = language@[0];
        let b1 = language@[1];
        let b2 = language@[2];
        assert((b0 & 31) < 32 && (b1 & 31) < 32 && (b2 & 31) < 32) by (bit_vector);
    }
    let code: u16 = l0 * 0x400 + l1 * 0x20 + l2;
    push_u16_be(&mut body, code);
    push_zeros(&mut body, 2);
    assert(body@ =~= zeros(4) + zeros(4) + zeros(4) + u32_be(timescale) + u32_be(duration)
        + u16_be(lang_code(language@)) + zeros(2));
    write_box(out, T_MDHD, &body);
}

/// The `trex` box: per-track defaults for fragmented movies.
pub open spec fn trex_bytes(track_id: u32) -> Seq<u8> {
    box_bytes(T_TREX, zeros(4) + u32_be(track_id) + u32_be(1) + zeros(12))
}

/// Writes the `trex` box.
pub(crate) fn write_trex(track_id: u32, out: &mut Vec<u8>)
    ensures
        final(out)@ == old(out)@ + trex_bytes(track_id),
{
    let mut body: Vec<u8> = Vec::new();
    push_zeros(&mut body, 4);
    push_u32_be(&mut body, track_id);
    push_u32_be(&mut body, 1);
    push_zeros(&mut body, 12);
    assert(body@ =~= zeros(4) + u32_be(track_id) + u32_be(1) + zeros(12));
    write_box(out, T_TREX, &body);
}

/// The shared layout of `avc1` and `hvc1` visual sample entries, up to the
/// codec configuration box.
pub open spec fn visual_entry_header(width: u16, height: u16) -> Seq<u8> {
    zeros(6) + u16_be(1) + zeros(16) + u16_be(width) + u16_be(height) + u32_be(0x00480000)
        + u32_be(0x00480000) + zeros(4) + u16_be(1) + zeros(32) + u16_be(0x18) + u16_be(0xFFFF)
}

/// Writes the shared visual sample entry header.
fn push_visual_entry_header(width: u16, height: u16, out: &mut Vec<u8>)
    ensures
        final(out)@ == old(out)@ + visual_entry_header(width, height),
{
    push_zeros(out, 6);
    push_u16_be(out, 1);
    push_zeros(out, 16);
    push_u16_be(out, width);
    push_u16_be(out, height);
    push_u32_be(out, 0x00480000);
    push_u32_be(out, 0x00480000);
    push_zeros(out, 4);
    push_u16_be(out, 1);
    push_zeros(out, 32);
    push_u16_be(out, 0x18);
    push_u16_be(out, 0xFFFF);
    assert(out@ =~= old(out)@ + visual_entry_header(width, height));
}

/// The `avcC` box: AVC decoder configuration built from the captured SPS
/// and PPS. Bytes 1-3 are copied from the SPS; the NALU length field is 4
/// bytes.
pub open spec fn avcc_bytes(sps: Option<Seq<u8>>, pps: Option<Seq<u8>>) -> Seq<u8> {
    box_bytes(
        T_AVCC,
        seq![1u8] + (match sps {
            Option::Some(s) => s.subrange(1, 4) + seq![255u8] + seq![0xE1u8] + u16_be(
                s.len() as u16,
            ) + s,
            Option::None => Seq::empty(),
        }) + (match pps {
            Option::Some(p) => seq![1u8] + u16_be(p.len() as u16) + p,
            Option::None => Seq::empty(),
        }),
    )
}

/// Writes the `avcC` box.
pub(crate) fn write_avcc(sps: &Option<Vec<u8>>, pps: &Option<Vec<u8>>, out: &mut Vec<u8>)
    requires
        crate::types::opt_bytes_view(*sps) is Some ==> 4 <= crate::types::opt_bytes_view(
            *sps,
        ).unwrap().len() <= 0xffff,
        crate::types::opt_bytes_view(*pps) is Some ==> crate::types::opt_bytes_view(
            *pps,
        ).unwrap().len() <= 0xffff,
    ensures
        final(out)@ == old(out)@ + avcc_bytes(
            crate::types::opt_bytes_view(*sps),
            crate::types::opt_bytes_view(*pps),
        ),
{
    let mut body: Vec<u8> = Vec::new();
    push_u8(&mut body, 1);
    if let Option::Some(s) = sps {
        let head = vstd::slice::slice_subrange(s.as_slice(), 1, 4);
        push_bytes(&mut body, head);
        push_u8(&mut body, 255);
        push_u8(&mut body, 0xE1);
        push_u16_be(&mut body, s.len() as u16);
        push_bytes(&mut body, s.as_slice());
    }
    if let Option::Some(p) = pps {
        push_u8(&mut body, 1);
        push_u16_be(&mut body, p.len() as u16);
        push_bytes(&mut body, p.as_slice());
    }
    assert(body@ =~= seq![1u8] + (match crate::types::opt_bytes_view(*sps) {
        Option::Some(s) => s.subrange(1, 4) + seq![255u8] + seq![0xE1u8] + u16_be(s.len() as u16)
            + s,
        Option::None => Seq::empty(),
    }) + (match crate::types::opt_bytes_view(*pps) {
        Option::Some(p) => seq![1u8] + u16_be(p.len() as u16) + p,
        Option::None => Seq::empty(),
    }));
    write_box(out, T_AVCC, &body);
}

/// The `avc1` visual sample entry wrapping the AVC decoder configuration.
pub open spec fn avc1_bytes(
    width: u16,
    height: u16,
    sps: Option<Seq<u8>>,
    pps: Option<Seq<u8>>,
) -> Seq<u8> {
    box_bytes(T_AVC1, visual_entry_header(width, height) + avcc_bytes(sps, pps))
}

/// Writes the `avc1` box.
pub(crate) fn write_avc1(
    width: u16,
    height: u16,
    sps: &Option<Vec<u8>>,
    pps: &Option<Vec<u8>>,
    out: &mut Vec<u8>,
)
    requires
        crate::types::opt_bytes_view(*sps) is Some ==> 4 <= crate::types::opt_bytes_view(
            *sps,
        ).unwrap().len() <= 0xffff,
        crate::types::opt_bytes_view(*pps) is Some ==> crate::types::opt_bytes_view(
            *pps,
        ).unwrap().len() <= 0xffff,
    ensures
        final(out)@ == old(out)@ + avc1_bytes(
            width,
            height,
            crate::types::opt_bytes_view(*sps),
            crate::types::opt_bytes_view(*pps),
        ),
{
    let mut body: Vec<u8> = Vec::new();
    push_visual_entry_header(width, height, &mut body);
    write_avcc(sps, pps, &mut body);
    assert(body@ =~= visual_entry_header(width, height) + avcc_bytes(
        crate::types::opt_bytes_view(*sps),
        crate::types::opt_bytes_view(*pps),
    ));
    write_box(out, T_AVC1, &body);
}

/// One parameter-set array of the `hvcC` box: a count of 1 and the bytes
/// when the set was captured, a count of 0 otherwise.
pub open spec fn hvcc_ps_array(ps: Option<Seq<u8>>) -> Seq<u8> {
    match ps {
        Option::Some(p) => u16_be(1) + u16_be(p.len() as u16) + p,
        Option::None => zeros(2),
    }
}

/// Writes one `hvcC` parameter-set array.
fn push_hvcc_ps_array(ps: &Option<Vec<u8>>, out: &mut Vec<u8>)
    requires
        crate::types::opt_bytes_view(*ps) is Some ==> crate::types::opt_bytes_view(
            *ps,
        ).unwrap().len() <= 0xffff,
    ensures
        final(out)@ == old(out)@ + hvcc_ps_array(crate::types::opt_bytes_view(*ps)),
{
    if let Option::Some(p) = ps {
        push_u16_be(out, 1);
        push_u16_be(out, p.len() as u16);
        push_bytes(out, p.as_slice());
        assert(out@ =~= old(out)@ + hvcc_ps_array(crate::types::opt_bytes_view(*ps)));
    } else {
        push_zeros(out, 2);
    }
}

/// The `hvcC` box: HEVC decoder configuration with three parameter-set
/// arrays for VPS, SPS and PPS.
pub open spec fn hvcc_bytes(
    vps: Option<Seq<u8>>,
    sps: Option<Seq<u8>>,
    pps: Option<Seq<u8>>,
) -> Seq<u8> {
    box_bytes(
        T_HVCC,
        seq![1u8] + seq![1u8] + u32_be(0x60000000) + zeros(2) + zeros(4) + seq![0u8] + u16_be(
            0xF000,
        ) + seq![0xFCu8] + seq![0xFCu8] + seq![0xF8u8] + seq![0xF8u8] + zeros(2) + seq![3u8]
            + seq![3u8] + seq![0xA0u8] + hvcc_ps_array(vps) + seq![0xA1u8] + hvcc_ps_array(sps)
            + seq![0xA2u8] + hvcc_ps_array(pps),
    )
}

/// Writes the `hvcC` box.
pub(crate) fn write_hvcc(
    vps: &Option<Vec<u8>>,
    sps: &Option<Vec<u8>>,
    pps: &Option<Vec<u8>>,
    out: &mut Vec<u8>,
)
    requires
        crate::types::opt_bytes_view(*vps) is Some ==> crate::types::opt_bytes_view(
            *vps,
        ).unwrap().len() <= 0xffff,
        crate::types::opt_bytes_view(*sps) is Some ==> crate::types::opt_bytes_view(
            *sps,
        ).unwrap().len() <= 0xffff,
        crate::types::opt_bytes_view(*pps) is Some ==> crate::types::opt_bytes_view(
            *pps,
        ).unwrap().len() <= 0xffff,
    ensures
        final(out)@ == old(out)@ + hvcc_bytes(
            crate::types::opt_bytes_view(*vps),
            crate::types::opt_bytes_view(*sps),
            crate::types::opt_bytes_view(*pps),
        ),
{
    let mut body: Vec<u8> = Vec::new();
    push_u8(&mut body, 1);
    push_u8(&mut body, 1);
    push_u32_be(&mut body, 0x60000000);
    push_zeros(&mut body, 2);
    push_zeros(&mut body, 4);
    push_u8(&mut body, 0);
    push_u16_be(&mut body, 0xF000);
    push_u8(&mut body, 0xFC);
    push_u8(&mut body, 0xFC);
    push_u8(&mut body, 0xF8);
    push_u8(&mut body, 0xF8);
    push_zeros(&mut body, 2);
    push_u8(&mut body, 3);
    push_u8(&mut body, 3);
    push_u8(&mut body, 0xA0);
    push_hvcc_ps_array(vps, &mut body);
    push_u8(&mut body, 0xA1);
    push_hvcc_ps_array(sps, &mut body);
    push_u8(&mut body, 0xA2);
    push_hvcc_ps_array(pps, &mut body);
    assert(body@ =~= seq![1u8] + seq![1u8] + u32_be(0x60000000) + zeros(2) + zeros(4) + seq![0u8]
        + u16_be(0xF000) + seq![0xFCu8] + seq![0xFCu8] + seq![0xF8u8] + seq![0xF8u8] + zeros(2)
        + seq![3u8] + seq![3u8] + seq![0xA0u8] + hvcc_ps_array(crate::types::opt_bytes_view(*vps))
        + seq![0xA1u8] + hvcc_ps_array(crate::types::opt_bytes_view(*sps)) + seq![0xA2u8]
        + hvcc_ps_array(crate::types::opt_bytes_view(*pps)));
    write_box(out, T_HVCC, &body);
}

/// The `hvc1` visual sample entry wrapping the HEVC decoder configuration.
pub open spec fn hvc1_bytes(
    width: u16,
    height: u16,
    vps: Option<Seq<u8>>,
    sps: Option<Seq<u8>>,
    pps: Option<Seq<u8>>,
) -> Seq<u8> {
    box_bytes(T_HVC1, visual_entry_header(width, height) + hvcc_bytes(vps, sps, pps))
}

/// Writes the `hvc1` box.
pub(crate) fn write_hvc1(
    width: u16,
    height: u16,
    vps: &Option<Vec<u8>>,
    sps: &Option<Vec<u8>>,
    pps: &Option<Vec<u8>>,
    out: &mut Vec<u8>,
)
    requires
        crate::types::opt_bytes_view(*vps) is Some ==> crate::types::opt_bytes_view(
            *vps,
        ).unwrap().len() <= 0xffff,
        crate::types::opt_bytes_view(*sps) is Some ==> crate::types::opt_bytes_view(
            *sps,
        ).unwrap().len() <= 0xffff,
        crate::types::opt_bytes_view(*pps) is Some ==> crate::types::opt_bytes_view(
            *pps,
        ).unwrap().len() <= 0xffff,
    ensures
        final(out)@ == old(out)@ + hvc1_bytes(
            width,
            height,
            crate::types::opt_bytes_view(*vps),
            crate::types::opt_bytes_view(*sps),
            crate::types::opt_bytes_view(*pps),
        ),
{
    let mut body: Vec<u8> = Vec::new();
    push_visual_entry_header(width, height, &mut body);
    write_hvcc(vps, sps, pps, &mut body);
    assert(body@ =~= visual_entry_header(width, height) + hvcc_bytes(
        crate::types::opt_bytes_view(*vps),
        crate::types::opt_bytes_view(*sps),
        crate::types::opt_bytes_view(*pps),
    ));
    write_box(out, T_HVC1, &body);
}

/// The shared layout of `mp4a` and `opus` audio sample entries, up to the
/// codec-specific box: channel count, 16 bits per sample, and the sample
/// rate as a 16.16 fixed-point value.
pub open spec fn audio_entry_header(channel_count: u32, sample_rate: u32) -> Seq<u8> {
    zeros(4) + zeros(2) + u16_be(1) + zeros(8) + u16_be(channel_count as u16) + u16_be(0x10)
        + zeros(4) + u32_be(sample_rate << 16)
}

/// Writes the shared audio sample entry header.
fn push_audio_entry_header(channel_count: u32, sample_rate: u32, out: &mut Vec<u8>)
    ensures
        final(out)@ == old(out)@ + audio_entry_header(channel_count, sample_rate),
{
    push_zeros(out, 4);
    push_zeros(out, 2);
    push_u16_be(out, 1);
    push_zeros(out, 8);
    push_u16_be(out, channel_count as u16);
    push_u16_be(out, 0x10);
    push_zeros(out, 4);
    push_u32_be(out, sample_rate << 16u32);
    assert(out@ =~= old(out)@ + audio_entry_header(channel_count, sample_rate));
}

/// The `esds` box: an MPEG-4 ES descriptor with an AudioSpecificConfig of
/// exactly two bytes; empty apart from version and flags when there is no
/// decoder-specific info.
pub open spec fn esds_bytes(channel_count: u32, dsi: Option<Seq<u8>>) -> Seq<u8> {
    box_bytes(
        T_ESDS,
        zeros(4) + (match dsi {
            Option::Some(d) => seq![3u8, 22u8] + zeros(3) + seq![4u8, 17u8, 0x40u8, 0x14u8, 0u8]
                + u16_be((channel_count * 6144 / 8) as u16) + zeros(8) + seq![5u8, 2u8] + d,
            Option::None => Seq::empty(),
        }),
    )
}

/// Writes the `esds` box.
pub(crate) fn write_esds(channel_count: u32, dsi: &Option<Vec<u8>>, out: &mut Vec<u8>)
    requires
        channel_count <= 0xffff,
        crate::types::opt_bytes_view(*dsi) is Some ==> crate::types::opt_bytes_view(
            *dsi,
        ).unwrap().len() == 2,
    ensures
        final(out)@ == old(out)@ + esds_bytes(channel_count, crate::types::opt_bytes_view(*dsi)),
{
    let mut body: Vec<u8> = Vec::new();
    push_zeros(&mut body, 4);
    if let Option::Some(d) = dsi {
        push_u8(&mut body, 3);
        push_u8(&mut body, 22);
        push_zeros(&mut body, 3);
        push_u8(&mut body, 4);
        push_u8(&mut body, 17);
        push_u8(&mut body, 0x40);
        push_u8(&mut body, 0x14);
        push_u8(&mut body, 0);
        push_u16_be(&mut body, (channel_count * 6144 / 8) as u16);
        push_zeros(&mut body, 8);
        push_u8(&mut body, 5);
        push_u8(&mut body, 2);
        push_bytes(&mut body, d.as_slice());
        assert(seq![3u8] + seq![22u8] =~= seq![3u8, 22u8]);
        assert(seq![4u8] + seq![17u8] + seq![0x40u8] + seq![0x14u8] + seq![0u8] =~= seq![
            4u8,
            17u8,
            0x40u8,
            0x14u8,
            0u8,
        ]);
        assert(seq![5u8] + seq![2u8] =~= seq![5u8, 2u8]);
    }
    assert(body@ =~= zeros(4) + (match crate::types::opt_bytes_view(*dsi) {
        Option::Some(d) => seq![3u8, 22u8] + zeros(3) + seq![4u8, 17u8, 0x40u8, 0x14u8, 0u8]
            + u16_be((channel_count * 6144 / 8) as u16) + zeros(8) + seq![5u8, 2u8] + d,
        Option::None => Seq::empty(),
    }));
    write_box(out, T_ESDS, &body);
}

/// The `mp4a` audio sample entry wrapping the ES descriptor.
pub open spec fn mp4a_bytes(channel_count: u32, sample_rate: u32, dsi: Option<Seq<u8>>) -> Seq<
    u8,
> {
    box_bytes(T_MP4A, audio_entry_header(channel_count, sample_rate) + esds_bytes(channel_count, dsi))
}

/// Writes the `mp4a` box.
pub(crate) fn write_mp4a(
    channel_count: u32,
    sample_rate: u32,
    dsi: &Option<Vec<u8>>,
    out: &mut Vec<u8>,
)
    requires
        channel_count <= 0xffff,
        crate::types::opt_bytes_view(*dsi) is Some ==> crate::types::opt_bytes_view(
            *dsi,
        ).unwrap().len() == 2,
    ensures
        final(out)@ == old(out)@ + mp4a_bytes(
            channel_count,
            sample_rate,
            crate::types::opt_bytes_view(*dsi),
        ),
{
    let mut body: Vec<u8> = Vec::new();
    push_audio_entry_header(channel_count, sample_rate, &mut body);
    write_esds(channel_count, dsi, &mut body);
    assert(body@ =~= audio_entry_header(channel_count, sample_rate) + esds_bytes(
        channel_count,
        crate::types::opt_bytes_view(*dsi),
    ));
    write_box(out, T_MP4A, &body);
}

/// The `opus` audio sample entry wrapping the Opus decoder configuration.
pub open spec fn opus_bytes(channel_count: u32, sample_rate: u32) -> Seq<u8> {
    box_bytes(
        T_OPUS,
        audio_entry_header(channel_count, sample_rate) + dops_bytes(channel_count, sample_rate),
    )
}

/// Writes the `opus` box.
pub(crate) fn write_opus(channel_count: u32, sample_rate: u32, out: &mut Vec<u8>)
    ensures
        final(out)@ == old(out)@ + opus_bytes(channel_count, sample_rate),
{
    let mut body: Vec<u8> = Vec::new();
    push_audio_entry_header(channel_count, sample_rate, &mut body);
    write_dops(channel_count, sample_rate, &mut body);
    assert(body@ =~= audio_entry_header(channel_count, sample_rate) + dops_bytes(
        channel_count,
        sample_rate,
    ));
    write_box(out, T_OPUS, &body);
}

/// The sample entry of a track's `stsd` box, chosen by track type and
/// codec; empty for a codec the track type cannot carry.
pub open spec fn stsd_entry(t: TrackV) -> Seq<u8> {
    match t.track_type {
        TrackType::Video => match t.codec {
            Codec::HEVC => hvc1_bytes(t.width as u16, t.height as u16, t.vps, t.sps, t.pps),
            Codec::AVC => avc1_bytes(t.width as u16, t.height as u16, t.sps, t.pps),
            _ => Seq::empty(),
        },
        TrackType::Audio => match t.codec {
            Codec::AACLC
            | Codec::AACMAIN
            | Codec::AACSSR
            | Codec::AACLTP
            | Codec::HEAAC
            | Codec::HEAACV2 => mp4a_bytes(t.channel_count, t.sample_rate, t.dsi),
            Codec::OPUS => opus_bytes(t.channel_count, t.sample_rate),
            _ => Seq::empty(),
        },
    }
}

/// The `stsd` box: one sample entry describing the track's codec.
#[verifier::opaque]
pub open spec fn stsd_bytes(t: TrackV) -> Seq<u8> {
    box_bytes(T_STSD, zeros(4) + u32_be(1) + stsd_entry(t))
}

/// Writes the `stsd` box.
pub(crate) fn write_stsd(track: &Track, out: &mut Vec<u8>)
    requires
        track_emit_ok(track@),
    ensures
        final(out)@ == old(out)@ + stsd_bytes(track@),
{
    let mut body: Vec<u8> = Vec::new();
    push_zeros(&mut body, 4);
    push_u32_be(&mut body, 1);
    match track.track_type {
        TrackType::Video => {
            match track.codec {
                Codec::HEVC => {
                    write_hvc1(
                        track.width as u16,
                        track.height as u16,
                        &track.vps,
                        &track.sps,
                        &track.pps,
                        &mut body,
                    );
                },
                Codec::AVC => {
                    write_avc1(
                        track.width as u16,
                        track.height as u16,
                        &track.sps,
                        &track.pps,
                        &mut body,
                    );
                },
                _ => {},
            }
        },
        TrackType::Audio => {
            match track.codec {
                Codec::AACLC
                | Codec::AACMAIN
                | Codec::AACSSR
                | Codec::AACLTP
                | Codec::HEAAC
                | Codec::HEAACV2 => {
                    write_mp4a(track.channel_count, track.sample_rate, &track.dsi, &mut body);
                },
                Codec::OPUS => {
                    write_opus(track.channel_count, track.sample_rate, &mut body);
                },
                _ => {},
            }
        },
    }
    assert(body@ =~= zeros(4) + u32_be(1) + stsd_entry(track@));
    proof {
        reveal(stsd_bytes);
    }
    write_box(out, T_STSD, &body);
}

/// The chunk-offset box of a sample table: `stco` when the last sample's
/// offset fits in 32 bits, `co64` otherwise, and nothing for an empty
/// table.
pub open spec fn chunk_offset_bytes(samples: Seq<SampleInfo>) -> Seq<u8> {
    if samples.len() == 0 {
        Seq::empty()
    } else if samples.last().offset > 0xffffffff {
        co64_bytes(samples)
    } else {
        stco_bytes(samples)
    }
}

/// The `stss` box is present only for video tracks in non-fragmented mode.
pub open spec fn stss_opt_bytes(t: TrackV, fragment: bool) -> Seq<u8> {
    if !fragment && t.track_type is Video {
        stss_bytes(t.samples)
    } else {
        Seq::empty()
    }
}

/// The length of every sample-table box is linear in the sample count.
pub proof fn lemma_table_box_lens(samples: Seq<SampleInfo>)
    ensures
        stsz_bytes(samples).len() == 20 + 4 * samples.len(),
        stts_bytes(samples).len() <= 16 + 8 * samples.len(),
        ctts_opt_bytes(samples).len() <= 16 + 8 * samples.len(),
        chunk_offset_bytes(samples).len() <= 16 + 8 * samples.len(),
        stss_bytes(samples).len() <= 16 + 4 * samples.len(),
{
    assert(forall|i: int|
        0 <= i < stsz_entries(samples).len() ==> (#[trigger] stsz_entries(samples)[i]).len() == 4);
    lemma_concat_bytes_len_uniform(stsz_entries(samples), 4);
    assert(forall|i: int|
        0 <= i < stco_entries(samples).len() ==> (#[trigger] stco_entries(samples)[i]).len() == 4);
    lemma_concat_bytes_len_uniform(stco_entries(samples), 4);
    assert(forall|i: int|
        0 <= i < co64_entries(samples).len() ==> (#[trigger] co64_entries(samples)[i]).len() == 8);
    lemma_concat_bytes_len_uniform(co64_entries(samples), 8);
    assert(forall|i: int|
        0 <= i < stss_entries(samples).len() ==> (#[trigger] stss_entries(samples)[i]).len() <= 4);
    lemma_concat_bytes_len_bound(stss_entries(samples), 4);
    lemma_rle_len(deltas(samples));
    assert(forall|i: int|
        0 <= i < stts_pair_bytes(rle(deltas(samples))).len() ==> (#[trigger] stts_pair_bytes(
            rle(deltas(samples)),
        )[i]).len() == 8);
    lemma_concat_bytes_len_uniform(stts_pair_bytes(rle(deltas(samples))), 8);
    lemma_rle_len(ct_offsets(samples));
    assert(forall|i: int|
        0 <= i < ctts_pair_bytes(rle(ct_offsets(samples))).len() ==> (#[trigger] ctts_pair_bytes(
            rle(ct_offsets(samples)),
        )[i]).len() == 8);
    lemma_concat_bytes_len_uniform(ctts_pair_bytes(rle(ct_offsets(samples))), 8);
}

/// Every codec configuration stays well under the 32-bit box size limit.
pub proof fn lemma_stsd_len(t: TrackV)
    requires
        track_emit_ok(t),
    ensures
        stsd_bytes(t).len() <= 0x70000,
{
    reveal(stsd_bytes);
}

/// The `stbl` box: the whole sample table.
#[verifier::opaque]
pub open spec fn stbl_bytes(t: TrackV, fragment: bool) -> Seq<u8> {
    box_bytes(
        T_STBL,
        stsd_bytes(t) + stts_bytes(t.samples) + ctts_opt_bytes(t.samples) + stsc_bytes(fragment)
            + stsz_bytes(t.samples) + chunk_offset_bytes(t.samples) + stss_opt_bytes(t, fragment),
    )
}

/// The sample table stays under the 32-bit box size limit.
pub proof fn lemma_stbl_len(t: TrackV, fragment: bool)
    requires
        track_emit_ok(t),
    ensures
        stbl_bytes(t, fragment).len() <= 0x2100_0000,
{
    reveal(stbl_bytes);
    lemma_stsd_len(t);
    lemma_table_box_lens(t.samples);
}

/// Writes the `stbl` box.
pub(crate) fn write_stbl(track: &Track, fragment: bool, out: &mut Vec<u8>)
    requires
        track_emit_ok(track@),
    ensures
        final(out)@ == old(out)@ + stbl_bytes(track@, fragment),
{
    let mut body: Vec<u8> = Vec::new();
    write_stsd(track, &mut body);
    write_stts(&track.samples, &mut body);
    write_ctts(&track.samples, &mut body);
    write_stsc(fragment, &mut body);
    write_stsz(&track.samples, &mut body);
    let n: usize = track.samples.len();
    if n > 0 {
        let last_offset: u64 = track.samples[n - 1].offset;
        if last_offset > 0xffffffff {
            write_co64(&track.samples, &mut body);
        } else {
            write_stco(&track.samples, &mut body);
        }
    }
    if !fragment {
        if let TrackType::Video = track.track_type {
            write_stss(&track.samples, &mut body);
        }
    }
    proof {
        reveal(stbl_bytes);
        crate::bytes::lemma_empty_add(stsd_bytes(track@));
        lemma_stbl_len(track@, fragment);
    }
    assert(body@ == stsd_bytes(track@) + stts_bytes(track@.samples) + ctts_opt_bytes(
        track@.samples,
    ) + stsc_bytes(fragment) + stsz_bytes(track@.samples) + chunk_offset_bytes(track@.samples)
        + stss_opt_bytes(track@, fragment));
    write_box(out, T_STBL, &body);
}

/// The `minf` box: media header, data information and sample table.
#[verifier::opaque]
pub open spec fn minf_bytes(t: TrackV, fragment: bool) -> Seq<u8> {
    box_bytes(
        T_MINF,
        (if t.track_type is Video {
            vmhd_bytes()
        } else {
            smhd_bytes()
        }) + dinf_bytes() + stbl_bytes(t, fragment),
    )
}

/// Writes the `minf` box.
pub(crate) fn write_minf(track: &Track, fragment: bool, out: &mut Vec<u8>)
    requires
        track_emit_ok(track@),
    ensures
        final(out)@ == old(out)@ + minf_bytes(track@, fragment),
{
    let mut body: Vec<u8> = Vec::new();
    match track.track_type {
        TrackType::Video => write_vmhd(&mut body),
        TrackType::Audio => write_smhd(&mut body),
    }
    write_dinf(&mut body);
    write_stbl(track, fragment, &mut body);
    proof {
        reveal(minf_bytes);
        crate::bytes::lemma_empty_add(
            if track@.track_type is Video {
                vmhd_bytes()
            } else {
                smhd_bytes()
            },
        );
        lemma_stbl_len(track@, fragment);
    }
    assert(body@ == (if track@.track_type is Video {
        vmhd_bytes()
    } else {
        smhd_bytes()
    }) + dinf_bytes() + stbl_bytes(track@, fragment));
    write_box(out, T_MINF, &body);
}

/// The `tkhd` box: track id, duration in the movie timescale, volume,
/// identity matrix, and the video dimensions as 16.16 fixed-point values.
pub open spec fn tkhd_bytes(t: TrackV) -> Seq<u8> {
    box_bytes(
        T_TKHD,
        u32_be(7) + zeros(4) + zeros(4) + u32_be(t.id) + zeros(4) + u32_be(
            (t.duration / (t.timescale / 1000)) as u32,
        ) + zeros(12) + u16_be(0x100) + zeros(2) + u32_be(0x10000) + zeros(12) + u32_be(0x10000)
            + zeros(12) + u32_be(0x40000000) + (if t.track_type is Video {
            u32_be((t.width * 0x10000) as u32) + u32_be((t.height * 0x10000) as u32)
        } else {
            zeros(8)
        }),
    )
}

/// Writes the `tkhd` box.
pub(crate) fn write_tkhd(track: &Track, out: &mut Vec<u8>)
    requires
        track_emit_ok(track@),
    ensures
        final(out)@ == old(out)@ + tkhd_bytes(track@),
{
    let mut body: Vec<u8> = Vec::new();
    push_u32_be(&mut body, 7);
    push_zeros(&mut body, 4);
    push_zeros(&mut body, 4);
    push_u32_be(&mut body, track.id);
    push_zeros(&mut body, 4);
    push_u32_be(&mut body, track.duration / (track.timescale / 1000));
    push_zeros(&mut body, 12);
    push_u16_be(&mut body, 0x100);
    push_zeros(&mut body, 2);
    push_u32_be(&mut body, 0x10000);
    push_zeros(&mut body, 12);
    push_u32_be(&mut body, 0x10000);
    push_zeros(&mut body, 12);
    push_u32_be(&mut body, 0x40000000);
    match track.track_type {
        TrackType::Video => {
            push_u32_be(&mut body, track.width * 0x10000);
            push_u32_be(&mut body, track.height * 0x10000);
        },
        TrackType::Audio => {
            push_zeros(&mut body, 8);
        },
    }
    assert(body@ =~= u32_be(7) + zeros(4) + zeros(4) + u32_be(track@.id) + zeros(4) + u32_be(
        (track@.duration / (track@.timescale / 1000)) as u32,
    ) + zeros(12) + u16_be(0x100) + zeros(2) + u32_be(0x10000) + zeros(12) + u32_be(0x10000)
        + zeros(12) + u32_be(0x40000000) + (if track@.track_type is Video {
        u32_be((track@.width * 0x10000) as u32) + u32_be((track@.height * 0x10000) as u32)
    } else {
        zeros(8)
    }));
    write_box(out, T_TKHD, &body);
}

/// The `mdia` box: media header, handler and media information.
#[verifier::opaque]
pub open spec fn mdia_bytes(t: TrackV, fragment: bool, language: Seq<u8>) -> Seq<u8> {
    box_bytes(
        T_MDIA,
        mdhd_bytes(t.timescale, t.duration, language) + hdlr_bytes(t.track_type is Video)
            + minf_bytes(t, fragment),
    )
}

/// Writes the `mdia` box.
#[verifier::rlimit(60)]
pub(crate) fn write_mdia(track: &Track, fragment: bool, language: &[u8; 3], out: &mut Vec<u8>)
    requires
        track_emit_ok(track@),
    ensures
        final(out)@ == old(out)@ + mdia_bytes(track@, fragment, language@),
{
    let mut body: Vec<u8> = Vec::new();
    write_mdhd(track.timescale, track.duration, language, &mut body);
    let video = matches!(track.track_type, TrackType::Video);
    write_hdlr(video, &mut body);
    write_minf(track, fragment, &mut body);
    proof {
        reveal(mdia_bytes);
        reveal(minf_bytes);
        crate::bytes::lemma_empty_add(mdhd_bytes(track@.timescale, track@.duration, language@));
        lemma_stbl_len(track@, fragment);
    }
    assert(body@ == mdhd_bytes(track@.timescale, track@.duration, language@) + hdlr_bytes(
        track@.track_type is Video,
    ) + minf_bytes(track@, fragment));
    write_box(out, T_MDIA, &body);
}

/// The `mvhd` box: movie timescale 1000, duration scaled from the video
/// track, and 64-bit times exactly when a creation time was set.
pub open spec fn mvhd_bytes(
    create_time: u64,
    duration: u32,
    timescale: u32,
    track_ids: u32,
) -> Seq<u8> {
    box_bytes(
        T_MVHD,
        (if create_time != 0 {
            seq![1u8, 0u8, 0u8, 0u8] + u64_be(create_time) + u64_be(create_time)
        } else {
            zeros(4) + zeros(4) + zeros(4)
        }) + u32_be(1000) + (if create_time != 0 {
            u64_be((duration / (timescale / 1000)) as u64)
        } else {
            u32_be((duration / (timescale / 1000)) as u32)
        }) + u32_be(0x10000) + u16_be(0x100) + zeros(10) + u32_be(0x10000) + zeros(12) + u32_be(
            0x10000,
        ) + zeros(12) + u32_be(0x40000000) + zeros(24) + u32_be(track_ids),
    )
}

/// Writes the `mvhd` box.
pub(crate) fn write_mvhd(
    create_time: u64,
    duration: u32,
    timescale: u32,
    track_ids: u32,
    out: &mut Vec<u8>,
)
    requires
        timescale >= 1000,
    ensures
        final(out)@ == old(out)@ + mvhd_bytes(create_time, duration, timescale, track_ids),
{
    let mut body: Vec<u8> = Vec::new();
    if create_time != 0 {
        push_u8(&mut body, 1);
        push_u8(&mut body, 0);
        push_u8(&mut body, 0);
        push_u8(&mut body, 0);
        push_u64_be(&mut body, create_time);
        push_u64_be(&mut body, create_time);
        assert(seq![1u8] + seq![0u8] + seq![0u8] + seq![0u8] =~= seq![1u8, 0u8, 0u8, 0u8]);
    } else {
        push_zeros(&mut body, 4);
        push_zeros(&mut body, 4);
        push_zeros(&mut body, 4);
    }
    push_u32_be(&mut body, 1000);
    let scaled: u32 = duration / (timescale / 1000);
    if create_time != 0 {
        push_u64_be(&mut body, scaled as u64);
    } else {
        push_u32_be(&mut body, scaled);
    }
    push_u32_be(&mut body, 0x10000);
    push_u16_be(&mut body, 0x100);
    push_zeros(&mut body, 10);
    push_u32_be(&mut body, 0x10000);
    push_zeros(&mut body, 12);
    push_u32_be(&mut body, 0x10000);
    push_zeros(&mut body, 12);
    push_u32_be(&mut body, 0x40000000);
    push_zeros(&mut body, 24);
    push_u32_be(&mut body, track_ids);
    assert(body@ =~= (if create_time != 0 {
        seq![1u8, 0u8, 0u8, 0u8] + u64_be(create_time) + u64_be(create_time)
    } else {
        zeros(4) + zeros(4) + zeros(4)
    }) + u32_be(1000) + (if create_time != 0 {
        u64_be((duration / (timescale / 1000)) as u64)
    } else {
        u32_be((duration / (timescale / 1000)) as u32)
    }) + u32_be(0x10000) + u16_be(0x100) + zeros(10) + u32_be(0x10000) + zeros(12) + u32_be(
        0x10000,
    ) + zeros(12) + u32_be(0x40000000) + zeros(24) + u32_be(track_ids));
    write_box(out, T_MVHD, &body);
}

/// The `trak` box: track header and media.
#[verifier::opaque]
pub open spec fn trak_bytes(language: Seq<u8>, fragment: bool, t: TrackV) -> Seq<u8> {
    box_bytes(T_TRAK, tkhd_bytes(t) + mdia_bytes(t, fragment, language))
}

/// A whole track box stays under the 32-bit box size limit.
#[verifier::rlimit(60)]
pub proof fn lemma_trak_len(language: Seq<u8>, fragment: bool, t: TrackV)
    requires
        track_emit_ok(t),
    ensures
        trak_bytes(language, fragment, t).len() <= 0x2200_0000,
{
    reveal(trak_bytes);
    reveal(mdia_bytes);
    reveal(minf_bytes);
    lemma_stbl_len(t, fragment);
}

/// Writes the `trak` box.
pub(crate) fn write_track(language: &[u8; 3], fragment: bool, track: &Track, out: &mut Vec<u8>)
    requires
        track_emit_ok(track@),
    ensures
        final(out)@ == old(out)@ + trak_bytes(language@, fragment, track@),
{
    let mut body: Vec<u8> = Vec::new();
    write_tkhd(track, &mut body);
    write_mdia(track, fragment, language, &mut body);
    proof {
        reveal(trak_bytes);
        crate::bytes::lemma_empty_add(tkhd_bytes(track@));
        lemma_trak_len(language@, fragment, track@);
    }
    assert(body@ == tkhd_bytes(track@) + mdia_bytes(track@, fragment, language@));
    write_box(out, T_TRAK, &body);
}

/// The `trex` boxes of the present tracks, video first.
pub open spec fn trexs_bytes(video: Option<TrackV>, audio: Option<TrackV>) -> Seq<u8> {
    (match video {
        Option::Some(t) => trex_bytes(t.id),
        Option::None => Seq::empty(),
    }) + (match audio {
        Option::Some(t) => trex_bytes(t.id),
        Option::None => Seq::empty(),
    })
}

/// Writes the `trex` boxes of the present tracks.
pub(crate) fn write_trexs(
    video_track: &Option<Track>,
    audio_track: &Option<Track>,
    out: &mut Vec<u8>,
)
    ensures
        final(out)@ == old(out)@ + trexs_bytes(
            crate::types::opt_track_view(video_track),
            crate::types::opt_track_view(audio_track),
        ),
{
    if let Option::Some(t) = video_track {
        write_trex(t.id, out);
    }
    if let Option::Some(t) = audio_track {
        write_trex(t.id, out);
    }
    assert(out@ =~= old(out)@ + trexs_bytes(
        crate::types::opt_track_view(video_track),
        crate::types::opt_track_view(audio_track),
    ));
}

/// The `mvex` box: movie-extends defaults, fragmented mode only.
pub open spec fn mvex_bytes(video: Option<TrackV>, audio: Option<TrackV>) -> Seq<u8> {
    box_bytes(T_MVEX, trexs_bytes(video, audio))
}

/// Writes the `mvex` box.
pub(crate) fn write_mvex(video_track: &Option<Track>, audio_track: &Option<Track>, out: &mut Vec<u8>)
    ensures
        final(out)@ == old(out)@ + mvex_bytes(
            crate::types::opt_track_view(video_track),
            crate::types::opt_track_view(audio_track),
        ),
{
    let mut body: Vec<u8> = Vec::new();
    write_trexs(video_track, audio_track, &mut body);
    assert(body@ =~= trexs_bytes(
        crate::types::opt_track_view(video_track),
        crate::types::opt_track_view(audio_track),
    ));
    write_box(out, T_MVEX, &body);
}

/// The `trak` boxes of the present tracks, video first.
pub open spec fn tracks_bytes(
    language: Seq<u8>,
    fragment: bool,
    video: Option<TrackV>,
    audio: Option<TrackV>,
) -> Seq<u8> {
    (match video {
        Option::Some(t) => trak_bytes(language, fragment, t),
        Option::None => Seq::empty(),
    }) + (match audio {
        Option::Some(t) => trak_bytes(language, fragment, t),
        Option::None => Seq::empty(),
    })
}

/// Writes the `trak` boxes of the present tracks.
#[verifier::rlimit(60)]
pub(crate) fn write_tracks(
    language: &[u8; 3],
    fragment: bool,
    video_track: &Option<Track>,
    audio_track: &Option<Track>,
    out: &mut Vec<u8>,
)
    requires
        crate::types::opt_track_view(video_track) is Some ==> track_emit_ok(
            crate::types::opt_track_view(video_track).unwrap(),
        ),
        crate::types::opt_track_view(audio_track) is Some ==> track_emit_ok(
            crate::types::opt_track_view(audio_track).unwrap(),
        ),
    ensures
        final(out)@ == old(out)@ + tracks_bytes(
            language@,
            fragment,
            crate::types::opt_track_view(video_track),
            crate::types::opt_track_view(audio_track),
        ),
{
    if let Option::Some(t) = video_track {
        write_track(language, fragment, t, out);
    }
    if let Option::Some(t) = audio_track {
        write_track(language, fragment, t, out);
    }
    assert(out@ =~= old(out)@ + tracks_bytes(
        language@,
        fragment,
        crate::types::opt_track_view(video_track),
        crate::types::opt_track_view(audio_track),
    ));
}

/// The `moov` box: movie header, the present tracks, and in fragmented
/// mode the movie-extends box. The movie duration and timescale come from
/// the video track, which must be present.
#[verifier::opaque]
pub open spec fn moov_bytes(
    video: Option<TrackV>,
    audio: Option<TrackV>,
    create_time: u64,
    track_ids: u32,
    language: Seq<u8>,
    fragment: bool,
) -> Seq<u8> {
    box_bytes(
        T_MOOV,
        mvhd_bytes(create_time, video.unwrap().duration, video.unwrap().timescale, track_ids)
            + tracks_bytes(language, fragment, video, audio) + (if fragment {
            mvex_bytes(video, audio)
        } else {
            Seq::empty()
        }),
    )
}

/// Writes the `moov` box.
#[verifier::rlimit(100)]
pub fn write_moov(
    video_track: &Option<Track>,
    audio_track: &Option<Track>,
    create_time: u64,
    track_ids: u32,
    language: &[u8; 3],
    fragment: bool,
    out: &mut Vec<u8>,
)
    requires
        crate::types::opt_track_view(video_track) is Some,
        track_emit_ok(crate::types::opt_track_view(video_track).unwrap()),
        crate::types::opt_track_view(audio_track) is Some ==> track_emit_ok(
            crate::types::opt_track_view(audio_track).unwrap(),
        ),
    ensures
        final(out)@ == old(out)@ + moov_bytes(
            crate::types::opt_track_view(video_track),
            crate::types::opt_track_view(audio_track),
            create_time,
            track_ids,
            language@,
            fragment,
        ),
{
    let ghost v = crate::types::opt_track_view(video_track);
    let ghost a = crate::types::opt_track_view(audio_track);
    let mut body: Vec<u8> = Vec::new();
    let duration: u32;
    let timescale: u32;
    match video_track {
        Option::Some(t) => {
            duration = t.duration;
            timescale = t.timescale;
        },
        Option::None => {
            proof {
                assert(false);
            }
            duration = 0;
            timescale = 1000;
        },
    }
    write_mvhd(create_time, duration, timescale, track_ids, &mut body);
    write_tracks(language, fragment, video_track, audio_track, &mut body);
    if fragment {
        write_mvex(video_track, audio_track, &mut body);
    }
    proof {
        reveal(moov_bytes);
        crate::bytes::lemma_empty_add(
            mvhd_bytes(create_time, v.unwrap().duration, v.unwrap().timescale, track_ids),
        );
        if !fragment {
            crate::bytes::lemma_add_empty(
                mvhd_bytes(create_time, v.unwrap().duration, v.unwrap().timescale, track_ids)
                    + tracks_bytes(language@, fragment, v, a),
            );
        }
        lemma_trak_len(language@, fragment, v.unwrap());
        if a is Some {
            lemma_trak_len(language@, fragment, a.unwrap());
        }
    }
    assert(body@ == mvhd_bytes(create_time, v.unwrap().duration, v.unwrap().timescale, track_ids)
        + tracks_bytes(language@, fragment, v, a) + (if fragment {
        mvex_bytes(v, a)
    } else {
        Seq::<u8>::empty()
    }));
    write_box(out, T_MOOV, &body);
}

/// The `tfhd` box: default-base-is-moof plus default sample flags for
/// video, or a default sample duration for audio.
pub open spec fn tfhd_bytes(video: bool, track_id: u32, sample_duration: u32) -> Seq<u8> {
    box_bytes(
        T_TFHD,
        if video {
            u32_be(0x20020) + u32_be(track_id) + u32_be(0x1010000)
        } else {
            u32_be(0x20008) + u32_be(track_id) + u32_be(sample_duration)
        },
    )
}

/// Writes the `tfhd` box.
pub(crate) fn write_tfhd(track: &Track, sample_duration: u32, out: &mut Vec<u8>)
    ensures
        final(out)@ == old(out)@ + tfhd_bytes(
            track@.track_type is Video,
            track@.id,
            sample_duration,
        ),
{
    let mut body: Vec<u8> = Vec::new();
    match track.track_type {
        TrackType::Video => {
            push_u32_be(&mut body, 0x20020);
            push_u32_be(&mut body, track.id);
            push_u32_be(&mut body, 0x1010000);
            assert(body@ =~= u32_be(0x20020) + u32_be(track@.id) + u32_be(0x1010000));
        },
        TrackType::Audio => {
            push_u32_be(&mut body, 0x20008);
            push_u32_be(&mut body, track.id);
            push_u32_be(&mut body, sample_duration);
            assert(body@ =~= u32_be(0x20008) + u32_be(track@.id) + u32_be(sample_duration));
        },
    }
    write_box(out, T_TFHD, &body);
}

/// The `trun` box: one sample, with a data offset; for video also the
/// sample duration, size and composition offset, and for a random-access
/// sample the sync first-sample flags.
pub open spec fn trun_bytes(
    video: bool,
    st: SampleType,
    data_offset: u32,
    data_size: u32,
    sample_duration: u32,
    ct_offset: i32,
) -> Seq<u8> {
    box_bytes(
        T_TRUN,
        if video {
            if st is RandomAccess {
                u32_be(0xB05) + u32_be(1) + u32_be(data_offset) + u32_be(0x2000000) + u32_be(
                    sample_duration,
                ) + u32_be(data_size) + i32_be(ct_offset)
            } else {
                u32_be(0xB01) + u32_be(1) + u32_be(data_offset) + u32_be(sample_duration) + u32_be(
                    data_size,
                ) + i32_be(ct_offset)
            }
        } else {
            u32_be(0x201) + u32_be(1) + u32_be(data_offset) + u32_be(data_size)
        },
    )
}

/// Writes the `trun` box.
pub(crate) fn write_trun(
    track: &Track,
    data_offset: u32,
    data_size: u32,
    sample_duration: u32,
    ct_offset: i32,
    sample_type: &SampleType,
    out: &mut Vec<u8>,
)
    ensures
        final(out)@ == old(out)@ + trun_bytes(
            track@.track_type is Video,
            *sample_type,
            data_offset,
            data_size,
            sample_duration,
            ct_offset,
        ),
{
    let mut body: Vec<u8> = Vec::new();
    match track.track_type {
        TrackType::Video => {
            match sample_type {
                SampleType::RandomAccess => {
                    push_u32_be(&mut body, 0xB05);
                    push_u32_be(&mut body, 1);
                    push_u32_be(&mut body, data_offset);
                    push_u32_be(&mut body, 0x2000000);
                    push_u32_be(&mut body, sample_duration);
                    push_u32_be(&mut body, data_size);
                    push_i32_be(&mut body, ct_offset);
                    assert(body@ =~= u32_be(0xB05) + u32_be(1) + u32_be(data_offset) + u32_be(
                        0x2000000,
                    ) + u32_be(sample_duration) + u32_be(data_size) + i32_be(ct_offset));
                },
                _ => {
                    push_u32_be(&mut body, 0xB01);
                    push_u32_be(&mut body, 1);
                    push_u32_be(&mut body, data_offset);
                    push_u32_be(&mut body, sample_duration);
                    push_u32_be(&mut body, data_size);
                    push_i32_be(&mut body, ct_offset);
                    assert(body@ =~= u32_be(0xB01) + u32_be(1) + u32_be(data_offset) + u32_be(
                        sample_duration,
                    ) + u32_be(data_size) + i32_be(ct_offset));
                },
            }
        },
        TrackType::Audio => {
            push_u32_be(&mut body, 0x201);
            push_u32_be(&mut body, 1);
            push_u32_be(&mut body, data_offset);
            push_u32_be(&mut body, data_size);
            assert(body@ =~= u32_be(0x201) + u32_be(1) + u32_be(data_offset) + u32_be(data_size));
        },
    }
    write_box(out, T_TRUN, &body);
}

/// The `traf` box: track fragment header and the single-sample run.
pub open spec fn traf_bytes(
    video: bool,
    track_id: u32,
    st: SampleType,
    data_offset: u32,
    data_size: u32,
    sample_duration: u32,
    ct_offset: i32,
) -> Seq<u8> {
    box_bytes(
        T_TRAF,
        tfhd_bytes(video, track_id, sample_duration) + trun_bytes(
            video,
            st,
            data_offset,
            data_size,
            sample_duration,
            ct_offset,
        ),
    )
}

/// Writes the `traf` box.
pub(crate) fn write_traf(
    track: &Track,
    data_offset: u32,
    data_size: u32,
    sample_duration: u32,
    ct_offset: i32,
    sample_type: &SampleType,
    out: &mut Vec<u8>,
)
    ensures
        final(out)@ == old(out)@ + traf_bytes(
            track@.track_type is Video,
            track@.id,
            *sample_type,
            data_offset,
            data_size,
            sample_duration,
            ct_offset,
        ),
{
    let mut body: Vec<u8> = Vec::new();
    write_tfhd(track, sample_duration, &mut body);
    write_trun(track, data_offset, data_size, sample_duration, ct_offset, sample_type, &mut body);
    assert(body@ =~= tfhd_bytes(track@.track_type is Video, track@.id, sample_duration)
        + trun_bytes(
        track@.track_type is Video,
        *sample_type,
        data_offset,
        data_size,
        sample_duration,
        ct_offset,
    ));
    write_box(out, T_TRAF, &body);
}

/// The length of the `trun` box for this sample shape.
pub open spec fn trun_len_of(video: bool, st: SampleType) -> int {
    if video {
        if st is RandomAccess {
            36
        } else {
            32
        }
    } else {
        24
    }
}

/// The length of the whole `moof` box for this sample shape: header, a
/// 16-byte `mfhd`, and a `traf` of a 20-byte `tfhd` and the run.
pub open spec fn moof_len_of(video: bool, st: SampleType) -> int {
    52 + trun_len_of(video, st)
}

/// The `moof` box for a single sample. The run's data offset points at the
/// first byte after the following `mdat` box header, relative to the start
/// of the `moof`.
#[verifier::opaque]
pub open spec fn moof_bytes(
    fragment_id: u32,
    track_id: u32,
    video: bool,
    st: SampleType,
    data_size: u32,
    sample_duration: u32,
    ct_offset: i32,
) -> Seq<u8> {
    box_bytes(
        T_MOOF,
        mfhd_bytes(fragment_id) + traf_bytes(
            video,
            track_id,
            st,
            (moof_len_of(video, st) + 8) as u32,
            data_size,
            sample_duration,
            ct_offset,
        ),
    )
}

/// The `moof` spec function has the length its name promises.
pub proof fn lemma_moof_len(
    fragment_id: u32,
    track_id: u32,
    video: bool,
    st: SampleType,
    data_size: u32,
    sample_duration: u32,
    ct_offset: i32,
)
    ensures
        moof_bytes(fragment_id, track_id, video, st, data_size, sample_duration, ct_offset).len()
            == moof_len_of(video, st),
{
    reveal(moof_bytes);
}

/// Writes the `moof` box for one sample.
pub fn write_moof(
    fragment_id: u32,
    data: &[u8],
    duration: u32,
    track: &Track,
    ct_offset: i32,
    sample_type: &SampleType,
    out: &mut Vec<u8>,
) -> (n: u64)
    requires
        data@.len() <= 0x7fff_ffff,
    ensures
        final(out)@ == old(out)@ + moof_bytes(
            fragment_id,
            track@.id,
            track@.track_type is Video,
            *sample_type,
            (data@.len() + 4) as u32,
            duration,
            ct_offset,
        ),
        n == moof_len_of(track@.track_type is Video, *sample_type),
{
    let video = matches!(track.track_type, TrackType::Video);
    let ra = matches!(sample_type, SampleType::RandomAccess);
    let moof_len: u32 = if video {
        if ra {
            88
        } else {
            84
        }
    } else {
        76
    };
    let data_offset: u32 = moof_len + 8;
    let mut body: Vec<u8> = Vec::new();
    write_mfhd(fragment_id, &mut body);
    write_traf(track, data_offset, (data.len() as u32) + 4, duration, ct_offset, sample_type, &mut body);
    proof {
        reveal(moof_bytes);
    }
    assert(body@ =~= mfhd_bytes(fragment_id) + traf_bytes(
        track@.track_type is Video,
        track@.id,
        *sample_type,
        (moof_len_of(track@.track_type is Video, *sample_type) + 8) as u32,
        (data@.len() + 4) as u32,
        duration,
        ct_offset,
    ));
    write_box(out, T_MOOF, &body);
    moof_len as u64
}

/// The fixed 32-byte `ftyp` box: major brand `isom`, compatible brands
/// `mp41 isom iso6 iso2`.
pub open spec fn ftyp_bytes() -> Seq<u8> {
    u32_be(0x20) + u32_be(T_FTYP) + u32_be(T_ISOM) + u32_be(0) + u32_be(T_MP41) + u32_be(T_ISOM)
        + u32_be(T_ISO6) + u32_be(T_ISO2)
}

/// Writes the `ftyp` box and returns its size.
pub fn write_ftyp(out: &mut Vec<u8>) -> (n: u64)
    ensures
        final(out)@ == old(out)@ + ftyp_bytes(),
        n == ftyp_bytes().len(),
{
    push_u32_be(out, 0x20);
    push_u32_be(out, T_FTYP);
    push_u32_be(out, T_ISOM);
    push_u32_be(out, 0);
    push_u32_be(out, T_MP41);
    push_u32_be(out, T_ISOM);
    push_u32_be(out, T_ISO6);
    push_u32_be(out, T_ISO2);
    assert(out@ =~= old(out)@ + ftyp_bytes());
    32
}

/// The fixed 16-byte large-size `mdat` header: size 1, type `mdat`, and a
/// placeholder 64-bit size of 16.
pub open spec fn mdat_header_bytes() -> Seq<u8> {
    u32_be(1) + u32_be(T_MDAT) + u64_be(16)
}

/// Writes the large-size `mdat` header and returns its size. The 64-bit
/// size at offset 8 is a placeholder, backpatched when the stream is
/// finalized.
pub fn write_mdat_header(out: &mut Vec<u8>) -> (n: u64)
    ensures
        final(out)@ == old(out)@ + mdat_header_bytes(),
        n == mdat_header_bytes().len(),
{
    push_u32_be(out, 1);
    push_u32_be(out, T_MDAT);
    push_u64_be(out, 16);
    assert(out@ =~= old(out)@ + mdat_header_bytes());
    16
}

/// A fragmented-mode `mdat` box: size, type, then for video a 4-byte NAL
/// length prefix, then the payload.
pub open spec fn mdat_frag_bytes(data: Seq<u8>, video: bool) -> Seq<u8> {
    if video {
        u32_be((data.len() + 12) as u32) + u32_be(T_MDAT) + u32_be(data.len() as u32) + data
    } else {
        u32_be((data.len() + 8) as u32) + u32_be(T_MDAT) + data
    }
}

/// Writes a fragmented-mode `mdat` box around one sample's payload and
/// returns the box size.
pub fn write_mdat(data: &[u8], video: bool, out: &mut Vec<u8>) -> (n: u64)
    requires
        data@.len() <= 0x7fff_ffff,
    ensures
        final(out)@ == old(out)@ + mdat_frag_bytes(data@, video),
        n == mdat_frag_bytes(data@, video).len(),
{
    let mut box_size: u32 = (data.len() as u32) + 8;
    if video {
        box_size = box_size + 4;
    }
    push_u32_be(out, box_size);
    push_u32_be(out, T_MDAT);
    if video {
        push_u32_be(out, data.len() as u32);
    }
    push_bytes(out, data);
    assert(out@ =~= old(out)@ + mdat_frag_bytes(data@, video));
    if video {
        (data.len() as u64) + 12
    } else {
        (data.len() as u64) + 8
    }
}

} // verus!

//! Big-endian byte serialization primitives and the generic MP4 box shape.
//!
//! Every box writer in this crate appends to a `Vec<u8>` and is specified
//! against a spec-level byte sequence; the helpers here are the shared
//! building blocks of those specifications.

use vstd::prelude::*;

verus! {

/// The two big-endian bytes of `v`.
pub open spec fn u16_be(v: u16) -> Seq<u8> {
    seq![(v >> 8) as u8, v as u8]
}

/// The four big-endian bytes of `v`.
pub open spec fn u32_be(v: u32) -> Seq<u8> {
    seq![(v >> 24) as u8, (v >> 16) as u8, (v >> 8) as u8, v as u8]
}

/// The eight big-endian bytes of `v`.
pub open spec fn u64_be(v: u64) -> Seq<u8> {
    seq![
        (v >> 56) as u8,
        (v >> 48) as u8,
        (v >> 40) as u8,
        (v >> 32) as u8,
        (v >> 24) as u8,
        (v >> 16) as u8,
        (v >> 8) as u8,
        v as u8,
    ]
}

/// The four big-endian bytes of `v` in two's complement.
pub open spec fn i32_be(v: i32) -> Seq<u8> {
    u32_be(v as u32)
}

/// `n` zero bytes.
pub open spec fn zeros(n: int) -> Seq<u8> {
    Seq::new(n as nat, |i: int| 0u8)
}

/// A complete MP4 box: a 4-byte big-endian size (inclusive of the 8-byte
/// header), the 4-character type code, then the body.
pub open spec fn box_bytes(typ: u32, body: Seq<u8>) -> Seq<u8> {
    u32_be((body.len() + 8) as u32) + u32_be(typ) + body
}

/// The unsigned big-endian value of the 4 bytes of `s` starting at `i`.
pub open spec fn be32_at(s: Seq<u8>, i: int) -> int {
    s[i] * 0x1000000 + s[i + 1] * 0x10000 + s[i + 2] * 0x100 + s[i + 3]
}

/// The unsigned big-endian value of the 8 bytes of `s` starting at `i`.
pub open spec fn be64_at(s: Seq<u8>, i: int) -> int {
    be32_at(s, i) * 0x100000000 + be32_at(s, i + 4)
}

/// Reading back the four big-endian bytes of a `u32` gives the value itself.
pub proof fn lemma_be32_roundtrip(v: u32)
    ensures
        be32_at(u32_be(v), 0) == v,
{
    assert(((v >> 24) as u8) * 0x1000000 + ((v >> 16) as u8) * 0x10000 + ((v >> 8) as u8) * 0x100
        + (v as u8) == v) by (bit_vector);
}

/// Reading back the eight big-endian bytes of a `u64` gives the value itself.
pub proof fn lemma_be64_roundtrip(v: u64)
    ensures
        be64_at(u64_be(v), 0) == v,
{
    let s = u64_be(v);
    assert(((v >> 56) as u8) * 0x1000000 + ((v >> 48) as u8) * 0x10000 + ((v >> 40) as u8) * 0x100
        + ((v >> 32) as u8) == ((v >> 32) as u32)) by (bit_vector);
    assert(((v >> 24) as u8) * 0x1000000 + ((v >> 16) as u8) * 0x10000 + ((v >> 8) as u8) * 0x100
        + (v as u8) == (v as u32)) by (bit_vector);
    assert(((v >> 32) as u32) * 0x100000000 + (v as u32) == v) by (bit_vector);
}

/// Every box's declared size equals its extent: the big-endian `u32` in the
/// first four bytes of a box is the length of the whole box.
pub proof fn lemma_box_size_field(typ: u32, body: Seq<u8>)
    requires
        body.len() + 8 <= u32::MAX,
    ensures
        be32_at(box_bytes(typ, body), 0) == box_bytes(typ, body).len(),
{
    let size: u32 = (body.len() + 8) as u32;
    lemma_be32_roundtrip(size);
    let b = box_bytes(typ, body);
    assert(b[0] == u32_be(size)[0]);
    assert(b[1] == u32_be(size)[1]);
    assert(b[2] == u32_be(size)[2]);
    assert(b[3] == u32_be(size)[3]);
}

/// The concatenation of a sequence of byte sequences, in order.
pub open spec fn concat_bytes(parts: Seq<Seq<u8>>) -> Seq<u8>
    decreases parts.len(),
{
    if parts.len() == 0 {
        Seq::empty()
    } else {
        parts[0] + concat_bytes(parts.skip(1))
    }
}

/// Appending one more part appends its bytes at the end.
pub proof fn lemma_concat_bytes_snoc(parts: Seq<Seq<u8>>, last: Seq<u8>)
    ensures
        concat_bytes(parts.push(last)) == concat_bytes(parts) + last,
    decreases parts.len(),
{
    if parts.len() == 0 {
        assert(parts.push(last)[0] == last);
        assert(parts.push(last).skip(1) =~= Seq::<Seq<u8>>::empty());
        assert(concat_bytes(parts.push(last).skip(1)) == Seq::<u8>::empty());
        assert(concat_bytes(parts.push(last)) =~= concat_bytes(parts) + last);
    } else {
        assert(parts.push(last).skip(1) =~= parts.skip(1).push(last));
        lemma_concat_bytes_snoc(parts.skip(1), last);
        assert(concat_bytes(parts.push(last)) == parts[0] + (concat_bytes(parts.skip(1)) + last));
        assert(parts[0] + (concat_bytes(parts.skip(1)) + last) =~= (parts[0] + concat_bytes(
            parts.skip(1),
        )) + last);
    }
}

/// When every part has the same length, the concatenation's length is the
/// product.
pub proof fn lemma_concat_bytes_len_uniform(parts: Seq<Seq<u8>>, m: int)
    requires
        forall|i: int| 0 <= i < parts.len() ==> (#[trigger] parts[i]).len() == m,
    ensures
        concat_bytes(parts).len() == m * parts.len(),
    decreases parts.len(),
{
    if parts.len() > 0 {
        assert(forall|i: int|
            0 <= i < parts.skip(1).len() ==> (#[trigger] parts.skip(1)[i]).len() == m);
        lemma_concat_bytes_len_uniform(parts.skip(1), m);
        assert(m * parts.len() == m + m * (parts.len() - 1)) by (nonlinear_arith);
    }
}

/// When every part is at most `m` bytes, the concatenation is at most
/// `m * parts.len()` bytes.
pub proof fn lemma_concat_bytes_len_bound(parts: Seq<Seq<u8>>, m: int)
    requires
        forall|i: int| 0 <= i < parts.len() ==> (#[trigger] parts[i]).len() <= m,
    ensures
        concat_bytes(parts).len() <= m * parts.len(),
    decreases parts.len(),
{
    if parts.len() > 0 {
        assert(forall|i: int|
            0 <= i < parts.skip(1).len() ==> (#[trigger] parts.skip(1)[i]).len() <= m);
        lemma_concat_bytes_len_bound(parts.skip(1), m);
        assert(m * parts.len() == m + m * (parts.len() - 1)) by (nonlinear_arith);
    }
}

/// The empty sequence is a left identity for concatenation.
pub proof fn lemma_empty_add(s: Seq<u8>)
    ensures
        Seq::<u8>::empty() + s == s,
{
    assert(Seq::<u8>::empty() + s =~= s);
}

/// The empty sequence is a right identity for concatenation.
pub proof fn lemma_add_empty(s: Seq<u8>)
    ensures
        s + Seq::<u8>::empty() == s,
{
    assert(s + Seq::<u8>::empty() =~= s);
}

/// Concatenation of byte sequences is associative.
pub proof fn lemma_add_assoc(a: Seq<u8>, b: Seq<u8>, c: Seq<u8>)
    ensures
        (a + b) + c == a + (b + c),
{
    assert((a + b) + c =~= a + (b + c));
}

/// Appending bytes leaves any prefix of the original intact.
pub proof fn lemma_append_preserves_prefix(a: Seq<u8>, b: Seq<u8>, k: int)
    requires
        0 <= k <= a.len(),
    ensures
        (a + b).subrange(0, k) == a.subrange(0, k),
{
    assert((a + b).subrange(0, k) =~= a.subrange(0, k));
}

/// Appends one byte.
pub fn push_u8(out: &mut Vec<u8>, v: u8)
    ensures
        final(out)@ == old(out)@ + seq![v],
{
    out.push(v);
    assert(out@ =~= old(out)@ + seq![v]);
}

/// Appends `v` as two big-endian bytes.
pub fn push_u16_be(out: &mut Vec<u8>, v: u16)
    ensures
        final(out)@ == old(out)@ + u16_be(v),
{
    out.push((v >> 8) as u8);
    out.push(v as u8);
    assert(out@ =~= old(out)@ + u16_be(v));
}

/// Appends `v` as four big-endian bytes.
pub fn push_u32_be(out: &mut Vec<u8>, v: u32)
    ensures
        final(out)@ == old(out)@ + u32_be(v),
{
    out.push((v >> 24) as u8);
    out.push((v >> 16) as u8);
    out.push((v >> 8) as u8);
    out.push(v as u8);
    assert(out@ =~= old(out)@ + u32_be(v));
}

/// Appends `v` as eight big-endian bytes.
pub fn push_u64_be(out: &mut Vec<u8>, v: u64)
    ensures
        final(out)@ == old(out)@ + u64_be(v),
{
    out.push((v >> 56) as u8);
    out.push((v >> 48) as u8);
    out.push((v >> 40) as u8);
    out.push((v >> 32) as u8);
    out.push((v >> 24) as u8);
    out.push((v >> 16) as u8);
    out.push((v >> 8) as u8);
    out.push(v as u8);
    assert(out@ =~= old(out)@ + u64_be(v));
}

/// Appends `v` as four big-endian bytes in two's complement.
pub fn push_i32_be(out: &mut Vec<u8>, v: i32)
    ensures
        final(out)@ == old(out)@ + i32_be(v),
{
    push_u32_be(out, v as u32);
}

/// Appends all bytes of `data`.
pub fn push_bytes(out: &mut Vec<u8>, data: &[u8])
    ensures
        final(out)@ == old(out)@ + data@,
{
    let n: usize = data.len();
    let mut i: usize = 0;
    while i < n
        invariant
            n == data@.len(),
            i <= n,
            out@ == old(out)@ + data@.take(i as int),
        decreases n - i,
    {
        let b: u8 = *vstd::slice::slice_index_get(data, i);
        out.push(b);
        assert(out@ =~= old(out)@ + data@.take(i as int + 1));
        i = i + 1;
    }
    assert(out@ =~= old(out)@ + data@);
}

/// Appends `n` zero bytes.
pub fn push_zeros(out: &mut Vec<u8>, n: usize)
    ensures
        final(out)@ == old(out)@ + zeros(n as int),
{
    let mut i: usize = 0;
    while i < n
        invariant
            i <= n,
            out@ == old(out)@ + zeros(i as int),
        decreases n - i,
    {
        out.push(0u8);
        assert(out@ =~= old(out)@ + zeros(i as int + 1));
        i = i + 1;
    }
}

/// Appends a complete box: size, type, body.
pub fn write_box(out: &mut Vec<u8>, typ: u32, body: &Vec<u8>)
    requires
        body@.len() + 8 <= u32::MAX,
    ensures
        final(out)@ == old(out)@ + box_bytes(typ, body@),
{
    push_u32_be(out, (body.len() + 8) as u32);
    push_u32_be(out, typ);
    push_bytes(out, body.as_slice());
    assert(out@ =~= old(out)@ + box_bytes(typ, body@));
}

} // verus!

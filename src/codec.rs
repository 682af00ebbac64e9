//! Framing a routing key and opaque content into an envelope message, and
//! reading it back.
//!
//! `wrap` writes one segment laid out as: the root pointer, the envelope's two
//! pointers, the content, the metadata struct (two zero data words and two
//! text pointers), then the domain and entity texts, each NUL-terminated and
//! padded to a word.
use vstd::prelude::*;
use vstd::utf8::{encode_utf8, encode_utf8_decode_utf8, encode_utf8_valid_utf8};
use vstd::slice::slice_to_vec;
use vstd::string::StringSliceAdditionalSpecFns;
use crate::envelope_capnp::envelope::Reader;
use crate::envelope_capnp::metadata::text_chars;
use crate::layout::{
    Span, StructLoc, bytes_at, data_field, root_of, segment_words, struct_at, struct_field,
    text_field, word_byte,
};
use crate::wire::{
    le32, le32_bytes, lemma_le32_bytes, lemma_padded, padded, push_padded, push_u32, words_for,
    zeros,
};

verus! {

/// Why an envelope could not be read.
#[derive(Clone, Copy, Debug, PartialEq, Eq)]
pub enum EnvelopeError {
    /// The bytes are not a well-formed envelope message.
    CapnpError,
    /// The bytes are not a well-formed length-delimited envelope.
    ProtoError,
    /// A length-delimited envelope holds no metadata.
    MetadataError,
}

/// The routing key read back from an envelope.
#[derive(Clone, Debug)]
pub struct Metadata {
    pub domain: String,
    pub entity: String,
}

/// Bound on the length of the domain and the entity: a text is a byte list
/// of at most `2^29 - 1` bytes that ends in a NUL.
pub open spec fn text_limit() -> int {
    0x1FFF_FFFF
}

/// Bound on the content length: a byte list holds at most `2^29 - 1` bytes.
pub open spec fn data_limit() -> int {
    0x2000_0000
}

/// The message that `wrap` writes for domain bytes `d`, entity bytes `e` and
/// content `c`, four bytes at a time: the segment table, the root struct
/// pointer, the metadata struct pointer, the content list pointer, the
/// content, the metadata's data words, its two text pointers, and the texts.
#[verifier::opaque]
pub open spec fn encode(d: Seq<u8>, e: Seq<u8>, c: Seq<u8>) -> Seq<u8> {
    let cl = c.len() as int;
    let dl = d.len() as int;
    let el = e.len() as int;
    let cw = words_for(cl);
    let dw = words_for(dl + 1);
    let ew = words_for(el + 1);
    le32_bytes(0) + le32_bytes(7 + cw + dw + ew) + le32_bytes(0) + le32_bytes(0x2_0000)
        + le32_bytes(4 * (1 + cw)) + le32_bytes(0x2_0002) + le32_bytes(1) + le32_bytes(2 + 8 * cl)
        + padded(c) + zeros(16) + le32_bytes(5) + le32_bytes(2 + 8 * (dl + 1)) + le32_bytes(
        4 * dw + 1,
    ) + le32_bytes(2 + 8 * (el + 1)) + padded(d.push(0)) + padded(e.push(0))
}

/// What `unwrap` reads from message `m`: content, domain and entity.
pub open spec fn decode(m: Seq<u8>) -> Result<(Seq<u8>, Seq<char>, Seq<char>), ()> {
    match root_of(m) {
        Ok(root) => {
            let n = le32(m, 4);
            match (data_field(m, n, root, 1), struct_field(m, n, root, 0)) {
                (Ok(c), Ok(md)) => match (
                    text_chars(text_field(m, n, md, 0)),
                    text_chars(text_field(m, n, md, 1)),
                ) {
                    (Ok(d), Ok(e)) => Ok((c, d, e)),
                    _ => Err(()),
                },
                _ => Err(()),
            }
        },
        Err(()) => Err(()),
    }
}

/// `le32` of a message at the start of a piece equals the piece's value.
proof fn lemma_le32_piece(pre: Seq<u8>, v: int)
    requires
        0 <= v < 0x1_0000_0000,
    ensures
        le32(pre + le32_bytes(v), pre.len() as int) == v,
{
    lemma_le32_bytes(v);
    let m = pre + le32_bytes(v);
    let k = pre.len() as int;
    assert(m[k] == le32_bytes(v)[0]);
    assert(m[k + 1] == le32_bytes(v)[1]);
    assert(m[k + 2] == le32_bytes(v)[2]);
    assert(m[k + 3] == le32_bytes(v)[3]);
}

/// `le32` at byte `i` depends only on the four bytes there.
proof fn lemma_le32_prefix(a: Seq<u8>, b: Seq<u8>, i: int)
    requires
        0 <= i,
        i + 4 <= a.len(),
    ensures
        le32(a + b, i) == le32(a, i),
{
    assert((a + b)[i] == a[i]);
    assert((a + b)[i + 1] == a[i + 1]);
    assert((a + b)[i + 2] == a[i + 2]);
    assert((a + b)[i + 3] == a[i + 3]);
}

/// Where `wrap` puts each part of the message.
#[verifier::rlimit(100)]
#[verifier::spinoff_prover]
proof fn lemma_encode_layout(d: Seq<u8>, e: Seq<u8>, c: Seq<u8>)
    requires
        d.len() < text_limit(),
        e.len() < text_limit(),
        c.len() < data_limit(),
    ensures
        ({
            let m = encode(d, e, c);
            let cl = c.len() as int;
            let dl = d.len() as int;
            let el = e.len() as int;
            let cw = words_for(cl);
            let dw = words_for(dl + 1);
            let ew = words_for(el + 1);
            let md = 32 + 8 * cw;
            &&& m.len() == 64 + 8 * (cw + dw + ew)
            &&& le32(m, 0) == 0
            &&& le32(m, 4) == 7 + cw + dw + ew
            &&& le32(m, 8) == 0
            &&& le32(m, 12) == 0x2_0000
            &&& le32(m, 16) == 4 * (1 + cw)
            &&& le32(m, 20) == 0x2_0002
            &&& le32(m, 24) == 1
            &&& le32(m, 28) == 2 + 8 * cl
            &&& m.subrange(32, 32 + cl) == c
            &&& le32(m, md) == 0
            &&& le32(m, md + 4) == 0
            &&& le32(m, md + 8) == 0
            &&& le32(m, md + 12) == 0
            &&& le32(m, md + 16) == 5
            &&& le32(m, md + 20) == 2 + 8 * (dl + 1)
            &&& le32(m, md + 24) == 4 * dw + 1
            &&& le32(m, md + 28) == 2 + 8 * (el + 1)
            &&& m.subrange(md + 32, md + 32 + dl) == d
            &&& m[md + 32 + dl] == 0
            &&& m.subrange(md + 32 + 8 * dw, md + 32 + 8 * dw + el) == e
            &&& m[md + 32 + 8 * dw + el] == 0
            &&& 0 <= cw < 0x0400_0001
            &&& 1 <= dw < 0x0400_0001
            &&& 1 <= ew < 0x0400_0001
        }),
{
    let cl = c.len() as int;
    let dl = d.len() as int;
    let el = e.len() as int;
    let cw = words_for(cl);
    let dw = words_for(dl + 1);
    let ew = words_for(el + 1);
    reveal(encode);
    lemma_padded(c);
    lemma_padded(d.push(0));
    lemma_padded(e.push(0));
    assert(0 <= cw < 0x0400_0001 && 1 <= dw < 0x0400_0001 && 1 <= ew < 0x0400_0001);
    let b1 = le32_bytes(0);
    lemma_le32_bytes(0);
    let b2 = b1 + le32_bytes(7 + cw + dw + ew);
    lemma_le32_piece(b1, 7 + cw + dw + ew);
    let b3 = b2 + le32_bytes(0);
    lemma_le32_piece(b2, 0);
    let b4 = b3 + le32_bytes(0x2_0000);
    lemma_le32_piece(b3, 0x2_0000);
    let b5 = b4 + le32_bytes(4 * (1 + cw));
    lemma_le32_piece(b4, 4 * (1 + cw));
    let b6 = b5 + le32_bytes(0x2_0002);
    lemma_le32_piece(b5, 0x2_0002);
    let b7 = b6 + le32_bytes(1);
    lemma_le32_piece(b6, 1);
    let b8 = b7 + le32_bytes(2 + 8 * cl);
    lemma_le32_piece(b7, 2 + 8 * cl);
    let b9 = b8 + padded(c);
    assert(b9.subrange(32, 32 + cl) =~= c);
    let b10 = b9 + zeros(16);
    let md = 32 + 8 * cw;
    assert(le32(b10, md) == 0);
    assert(le32(b10, md + 4) == 0);
    assert(le32(b10, md + 8) == 0);
    assert(le32(b10, md + 12) == 0);
    let b11 = b10 + le32_bytes(5);
    lemma_le32_piece(b10, 5);
    let b12 = b11 + le32_bytes(2 + 8 * (dl + 1));
    lemma_le32_piece(b11, 2 + 8 * (dl + 1));
    let b13 = b12 + le32_bytes(4 * dw + 1);
    lemma_le32_piece(b12, 4 * dw + 1);
    let b14 = b13 + le32_bytes(2 + 8 * (el + 1));
    lemma_le32_piece(b13, 2 + 8 * (el + 1));
    let b15 = b14 + padded(d.push(0));
    assert(b15.subrange(md + 32, md + 32 + dl) =~= d);
    assert(b15[md + 32 + dl] == 0);
    let m = b15 + padded(e.push(0));
    assert(m == encode(d, e, c));
    assert(m.subrange(md + 32 + 8 * dw, md + 32 + 8 * dw + el) =~= e);
    assert(m[md + 32 + 8 * dw + el] == 0);
    assert(m.subrange(md + 32, md + 32 + dl) =~= d);
    assert(m.subrange(32, 32 + cl) =~= c);
}

/// `m` is laid out as `encode` lays out domain bytes `d`, entity bytes `e`
/// and `cl` content bytes taking `cw` words.
pub open spec fn laid_out(m: Seq<u8>, d: Seq<u8>, e: Seq<u8>, cl: int, cw: int) -> bool {
    let dl = d.len() as int;
    let el = e.len() as int;
    let dw = words_for(dl + 1);
    let ew = words_for(el + 1);
    let md = 32 + 8 * cw;
    &&& 0 <= cl < data_limit()
    &&& cw == words_for(cl)
    &&& dl < text_limit()
    &&& el < text_limit()
    &&& m.len() == 64 + 8 * (cw + dw + ew)
    &&& le32(m, 0) == 0
    &&& le32(m, 4) == 7 + cw + dw + ew
    &&& le32(m, 8) == 0
    &&& le32(m, 12) == 0x2_0000
    &&& le32(m, 16) == 4 * (1 + cw)
    &&& le32(m, 20) == 0x2_0002
    &&& le32(m, 24) == 1
    &&& le32(m, 28) == 2 + 8 * cl
    &&& le32(m, md + 16) == 5
    &&& le32(m, md + 20) == 2 + 8 * (dl + 1)
    &&& le32(m, md + 24) == 4 * dw + 1
    &&& le32(m, md + 28) == 2 + 8 * (el + 1)
    &&& m.subrange(md + 32, md + 32 + dl) == d
    &&& m[md + 32 + dl] == 0
    &&& m.subrange(md + 32 + 8 * dw, md + 32 + 8 * dw + el) == e
    &&& m[md + 32 + 8 * dw + el] == 0
    &&& 0 <= cw < 0x0400_0001
    &&& 1 <= dw < 0x0400_0001
    &&& 1 <= ew < 0x0400_0001
}

pub open spec fn root_loc() -> StructLoc {
    StructLoc { data: 1, data_words: 0, ptrs: 1, ptr_count: 2 }
}

pub open spec fn meta_loc(cw: int) -> StructLoc {
    StructLoc { data: (3 + cw) as u64, data_words: 2, ptrs: (5 + cw) as u64, ptr_count: 2 }
}

proof fn lemma_words_cover(n: int)
    requires
        n >= 0,
    ensures
        n <= 8 * words_for(n),
        n + 1 <= 8 * words_for(n + 1),
{
    assert(8 * ((n + 7) / 8) >= n && 8 * ((n + 8) / 8) >= n + 1) by (nonlinear_arith)
        requires
            n >= 0,
    ;
}

proof fn lemma_root_ptr(m: Seq<u8>, d: Seq<u8>, e: Seq<u8>, cl: int, cw: int)
    requires
        laid_out(m, d, e, cl, cw),
    ensures
        segment_words(m) == Some(le32(m, 4)),
        root_of(m) == Ok::<StructLoc, ()>(root_loc()),
{
    let n = le32(m, 4);
    assert(segment_words(m) == Some(n));
    assert(0x2_0000int % 65536 == 0 && 0x2_0000int / 65536 == 2);
    assert(struct_at(m, n, 0) == Ok::<Option<StructLoc>, ()>(Some(root_loc())));
}

proof fn lemma_list_hi(count: int)
    requires
        0 <= count < 0x2000_0000,
    ensures
        (2 + 8 * count) % 8 == 2,
        (2 + 8 * count) / 8 == count,
{
    assert((2 + 8 * count) % 8 == 2 && (2 + 8 * count) / 8 == count) by (nonlinear_arith)
        requires
            0 <= count,
    ;
}

proof fn lemma_list_lo(offset: int)
    requires
        0 <= offset < 0x2000_0000,
    ensures
        (4 * offset + 1) % 4 == 1,
        (4 * offset + 1) / 4 == offset,
{
    assert((4 * offset + 1) % 4 == 1 && (4 * offset + 1) / 4 == offset) by (nonlinear_arith)
        requires
            0 <= offset,
    ;
}

/// The byte-list pointer in word `w` with word offset `offset` and `count`
/// bytes, inside a segment of `n` words.
proof fn lemma_list_ptr(m: Seq<u8>, n: int, w: int, offset: int, count: int)
    requires
        0 <= w,
        0 <= offset < 0x2000_0000,
        0 <= count < 0x2000_0000,
        le32(m, word_byte(w)) == 4 * offset + 1,
        le32(m, word_byte(w) + 4) == 2 + 8 * count,
        8 * (w + 1 + offset) + count <= 8 * n,
    ensures
        bytes_at(m, n, w) == Ok::<Option<Span>, ()>(
            Some(Span { start: word_byte(w + 1 + offset) as u64, len: count as u64 }),
        ),
{
    lemma_list_hi(count);
    lemma_list_lo(offset);
}

proof fn lemma_content_ptr(m: Seq<u8>, d: Seq<u8>, e: Seq<u8>, cl: int, cw: int)
    requires
        laid_out(m, d, e, cl, cw),
    ensures
        bytes_at(m, le32(m, 4), 2) == Ok::<Option<Span>, ()>(Some(Span { start: 32, len: cl as u64 })),
{
    lemma_words_cover(cl);
    lemma_list_ptr(m, le32(m, 4), 2, 0, cl);
}

proof fn lemma_meta_ptr(m: Seq<u8>, d: Seq<u8>, e: Seq<u8>, cl: int, cw: int)
    requires
        laid_out(m, d, e, cl, cw),
    ensures
        struct_field(m, le32(m, 4), root_loc(), 0) == Ok::<StructLoc, ()>(meta_loc(cw)),
{
    let n = le32(m, 4);
    assert(0x2_0002int % 65536 == 2 && 0x2_0002int / 65536 == 2);
    assert((4 * (1 + cw)) % 4 == 0 && (4 * (1 + cw)) / 4 == 1 + cw);
    assert(struct_at(m, n, 1) == Ok::<Option<StructLoc>, ()>(Some(meta_loc(cw))));
}

proof fn lemma_domain_ptr(m: Seq<u8>, d: Seq<u8>, e: Seq<u8>, cl: int, cw: int)
    requires
        laid_out(m, d, e, cl, cw),
    ensures
        text_field(m, le32(m, 4), meta_loc(cw), 0) == Ok::<Seq<u8>, ()>(d),
{
    let dl = d.len() as int;
    lemma_words_cover(dl);
    assert(le32(m, word_byte(5 + cw)) == 4 * 1 + 1);
    lemma_list_ptr(m, le32(m, 4), 5 + cw, 1, dl + 1);
}

proof fn lemma_entity_ptr(m: Seq<u8>, d: Seq<u8>, e: Seq<u8>, cl: int, cw: int)
    requires
        laid_out(m, d, e, cl, cw),
    ensures
        text_field(m, le32(m, 4), meta_loc(cw), 1) == Ok::<Seq<u8>, ()>(e),
{
    let el = e.len() as int;
    let dw = words_for(d.len() + 1int);
    lemma_words_cover(el);
    lemma_list_ptr(m, le32(m, 4), 6 + cw, dw, el + 1);
}

/// `decode` reads back the bytes that `encode` laid out.
proof fn lemma_decode_encode(d: Seq<u8>, e: Seq<u8>, c: Seq<u8>)
    requires
        d.len() < text_limit(),
        e.len() < text_limit(),
        c.len() < data_limit(),
    ensures
        ({
            let m = encode(d, e, c);
            let n = le32(m, 4);
            let root = StructLoc { data: 1, data_words: 0, ptrs: 1, ptr_count: 2 };
            &&& root_of(m) == Ok::<StructLoc, ()>(root)
            &&& data_field(m, n, root, 1) == Ok::<Seq<u8>, ()>(c)
            &&& struct_field(m, n, root, 0) matches Ok(md) && text_field(m, n, md, 0) == Ok::<
                Seq<u8>,
                (),
            >(d) && text_field(m, n, md, 1) == Ok::<Seq<u8>, ()>(e)
        }),
{
    lemma_encode_layout(d, e, c);
    let m = encode(d, e, c);
    let cl = c.len() as int;
    let cw = words_for(cl);
    assert(laid_out(m, d, e, cl, cw));
    lemma_root_ptr(m, d, e, cl, cw);
    lemma_content_ptr(m, d, e, cl, cw);
    lemma_meta_ptr(m, d, e, cl, cw);
    lemma_domain_ptr(m, d, e, cl, cw);
    lemma_entity_ptr(m, d, e, cl, cw);
}

/// Reading back what `wrap` writes gives the content and the routing key that
/// went in, whatever they hold.
pub proof fn lemma_round_trip(domain: Seq<char>, entity: Seq<char>, content: Seq<u8>)
    requires
        encode_utf8(domain).len() < text_limit(),
        encode_utf8(entity).len() < text_limit(),
        content.len() < data_limit(),
    ensures
        decode(encode(encode_utf8(domain), encode_utf8(entity), content)) == Ok::<_, ()>(
            (content, domain, entity),
        ),
{
    let d = encode_utf8(domain);
    let e = encode_utf8(entity);
    lemma_decode_encode(d, e, content);
    encode_utf8_valid_utf8(domain);
    encode_utf8_valid_utf8(entity);
    encode_utf8_decode_utf8(domain);
    encode_utf8_decode_utf8(entity);
}

/// Frames `content` with the routing key `(domain, entity)`. The bounds are
/// those of the format: a byte list holds at most `2^29 - 1` bytes, and a
/// text also holds its terminating NUL.
pub fn wrap(domain: &str, entity: &str, content: &[u8]) -> (r: Vec<u8>)
    requires
        domain.spec_bytes().len() < text_limit(),
        entity.spec_bytes().len() < text_limit(),
        content@.len() < data_limit(),
    ensures
        r@ == encode(domain.spec_bytes(), entity.spec_bytes(), content@),
{
    let d = domain.as_bytes();
    let e = entity.as_bytes();
    let cw = (content.len() + 7) / 8;
    let dw = (d.len() + 8) / 8;
    let ew = (e.len() + 8) / 8;
    proof {
        reveal(encode);
    }
    let mut out: Vec<u8> = Vec::new();
    push_u32(&mut out, 0);
    assert(out@ =~= le32_bytes(0));
    push_u32(&mut out, (7 + cw + dw + ew) as u32);
    push_u32(&mut out, 0);
    push_u32(&mut out, 0x2_0000);
    push_u32(&mut out, (4 * (1 + cw)) as u32);
    push_u32(&mut out, 0x2_0002);
    push_u32(&mut out, 1);
    push_u32(&mut out, (2 + 8 * content.len()) as u32);
    push_padded(&mut out, content);
    push_zeros(&mut out, 16);
    push_u32(&mut out, 5);
    push_u32(&mut out, (2 + 8 * (d.len() + 1)) as u32);
    push_u32(&mut out, (4 * dw + 1) as u32);
    push_u32(&mut out, (2 + 8 * (e.len() + 1)) as u32);
    let dt = with_nul(d);
    push_padded(&mut out, dt.as_slice());
    let et = with_nul(e);
    push_padded(&mut out, et.as_slice());
    out
}

fn push_zeros(out: &mut Vec<u8>, k: usize)
    ensures
        final(out)@ == old(out)@ + zeros(k as nat),
{
    let ghost start = out@;
    let mut i: usize = 0;
    while i < k
        invariant
            i <= k,
            out@ == start + zeros(i as nat),
        decreases k - i,
    {
        out.push(0u8);
        assert(zeros((i + 1) as nat) =~= zeros(i as nat).push(0u8));
        i = i + 1;
    }
}

fn with_nul(b: &[u8]) -> (r: Vec<u8>)
    requires
        b@.len() < text_limit(),
    ensures
        r@ == b@.push(0),
{
    let mut v = slice_to_vec(b);
    v.push(0u8);
    v
}

/// Reads an envelope message back into its content and routing key.
pub fn unwrap(message: &[u8]) -> (r: Result<(Vec<u8>, Metadata), EnvelopeError>)
    ensures
        r is Ok <==> decode(message@) is Ok,
        r matches Ok((c, md)) ==> decode(message@) == Ok::<_, ()>((c@, md.domain@, md.entity@)),
{
    let envelope = Reader::get_root(message)?;
    let content = envelope.get_content()?;
    let metadata = envelope.get_metadata()?;
    let domain = metadata.get_domain()?;
    let entity = metadata.get_entity()?;
    Ok((slice_to_vec(content), Metadata { domain, entity }))
}

} // verus!

//! The length-delimited envelope: protocol-buffer messages
//! `Envelope { Metadata metadata = 1; bytes content = 2; }` and
//! `Metadata { string domain = 1; string entity = 2; uint64 timestamp = 3; uint64 sequence = 4; }`.
//!
//! A message is a run of fields, each a varint key (field number times eight
//! plus wire type) and a value. Fields may come in any order; unknown fields
//! are skipped by their wire type; a repeated scalar keeps its last value and
//! a repeated `metadata` merges into the one before. Fields that hold their
//! default value are not written.
use vstd::prelude::*;
use vstd::slice::slice_to_vec;
use vstd::string::StringSliceAdditionalSpecFns;
use vstd::utf8::{decode_utf8, encode_utf8, encode_utf8_decode_utf8, encode_utf8_valid_utf8, valid_utf8};
use crate::codec::EnvelopeError;
use crate::envelope_capnp::metadata::text_from_utf8;
use crate::varint::{
    lemma_u64_fits, lemma_varint_round_trip, push_varint, read_varint, varint_at, varint_bytes,
};

verus! {

/// A decoded field value.
pub enum FieldVal {
    Varint(nat),
    Bytes(Seq<u8>),
    Fixed,
}

/// The metadata as plain values.
pub struct MetaView {
    pub domain: Seq<char>,
    pub entity: Seq<char>,
    pub timestamp: nat,
    pub sequence: nat,
}

/// The envelope as plain values.
pub struct EnvView {
    pub metadata: Option<MetaView>,
    pub content: Seq<u8>,
}

pub open spec fn empty_meta() -> MetaView {
    MetaView { domain: Seq::empty(), entity: Seq::empty(), timestamp: 0, sequence: 0 }
}

/// The value at the start of `b` for wire type `wt`, and its length.
pub open spec fn field_value(b: Seq<u8>, wt: nat) -> Option<(FieldVal, nat)> {
    if wt == 0 {
        match varint_at(b, 10) {
            Some((v, l)) => Some((FieldVal::Varint(v), l)),
            None => None,
        }
    } else if wt == 1 {
        if b.len() >= 8 {
            Some((FieldVal::Fixed, 8))
        } else {
            None
        }
    } else if wt == 2 {
        match varint_at(b, 10) {
            Some((n, l)) => if l + n <= b.len() {
                Some((FieldVal::Bytes(b.subrange(l as int, (l + n) as int)), l + n))
            } else {
                None
            },
            None => None,
        }
    } else if wt == 5 {
        if b.len() >= 4 {
            Some((FieldVal::Fixed, 4))
        } else {
            None
        }
    } else {
        None
    }
}

/// The key at the start of `b`: field number, wire type and length.
pub open spec fn key_at(b: Seq<u8>) -> Option<(nat, nat, nat)> {
    match varint_at(b, 10) {
        Some((k, l)) => if k > 0xFFFF_FFFF || k / 8 == 0 {
            None
        } else {
            Some((k / 8, k % 8, l))
        },
        None => None,
    }
}

/// `acc` updated by the fields of `b`.
pub open spec fn parse_meta(b: Seq<u8>, acc: MetaView) -> Option<MetaView>
    decreases b.len(),
{
    if b.len() == 0 {
        Some(acc)
    } else {
        match key_at(b) {
            Some((tag, wt, kl)) => match field_value(b.subrange(kl as int, b.len() as int), wt) {
                Some((val, vl)) => {
                    if kl + vl == 0 || kl + vl > b.len() {
                        None
                    } else {
                        let next = b.subrange((kl + vl) as int, b.len() as int);
                        if tag == 1 || tag == 2 {
                            match val {
                                FieldVal::Bytes(s) => if valid_utf8(s) {
                                    if tag == 1 {
                                        parse_meta(next, MetaView { domain: decode_utf8(s), ..acc })
                                    } else {
                                        parse_meta(next, MetaView { entity: decode_utf8(s), ..acc })
                                    }
                                } else {
                                    None
                                },
                                _ => None,
                            }
                        } else if tag == 3 || tag == 4 {
                            match val {
                                FieldVal::Varint(v) => if tag == 3 {
                                    parse_meta(next, MetaView { timestamp: v, ..acc })
                                } else {
                                    parse_meta(next, MetaView { sequence: v, ..acc })
                                },
                                _ => None,
                            }
                        } else {
                            parse_meta(next, acc)
                        }
                    }
                },
                None => None,
            },
            None => None,
        }
    }
}

/// `acc` updated by the fields of `b`.
pub open spec fn parse_env(b: Seq<u8>, acc: EnvView) -> Option<EnvView>
    decreases b.len(),
{
    if b.len() == 0 {
        Some(acc)
    } else {
        match key_at(b) {
            Some((tag, wt, kl)) => match field_value(b.subrange(kl as int, b.len() as int), wt) {
                Some((val, vl)) => {
                    if kl + vl == 0 || kl + vl > b.len() {
                        None
                    } else {
                        let next = b.subrange((kl + vl) as int, b.len() as int);
                        if tag == 1 {
                            match val {
                                FieldVal::Bytes(s) => {
                                    let base = match acc.metadata {
                                        Some(m) => m,
                                        None => empty_meta(),
                                    };
                                    match parse_meta(s, base) {
                                        Some(m) => parse_env(
                                            next,
                                            EnvView { metadata: Some(m), content: acc.content },
                                        ),
                                        None => None,
                                    }
                                },
                                _ => None,
                            }
                        } else if tag == 2 {
                            match val {
                                FieldVal::Bytes(s) => parse_env(
                                    next,
                                    EnvView { metadata: acc.metadata, content: s },
                                ),
                                _ => None,
                            }
                        } else {
                            parse_env(next, acc)
                        }
                    }
                },
                None => None,
            },
            None => None,
        }
    }
}

/// What `unwrap` reads from `m`.
pub open spec fn decode(m: Seq<u8>) -> Result<(Seq<u8>, MetaView), EnvelopeError> {
    match parse_env(m, EnvView { metadata: None, content: Seq::empty() }) {
        Some(env) => match env.metadata {
            Some(md) => Ok((env.content, md)),
            None => Err(EnvelopeError::MetadataError),
        },
        None => Err(EnvelopeError::ProtoError),
    }
}

/// A length-delimited field with number `tag`.
pub open spec fn ld_field(tag: nat, s: Seq<u8>) -> Seq<u8> {
    seq![(tag * 8 + 2) as u8] + varint_bytes(s.len()) + s
}

/// A length-delimited field with number `tag`, omitted when `s` is empty.
pub open spec fn bytes_field(tag: nat, s: Seq<u8>) -> Seq<u8> {
    if s.len() == 0 {
        Seq::empty()
    } else {
        ld_field(tag, s)
    }
}

/// The metadata fields that `wrap` writes.
pub open spec fn encode_meta(d: Seq<u8>, e: Seq<u8>) -> Seq<u8> {
    bytes_field(1, d) + bytes_field(2, e)
}

/// The message that `wrap` writes: the metadata, always present, then the
/// content when it is not empty.
pub open spec fn encode(d: Seq<u8>, e: Seq<u8>, c: Seq<u8>) -> Seq<u8> {
    ld_field(1, encode_meta(d, e)) + bytes_field(2, c)
}

/// Total length bound under which `wrap`'s output fits in memory.
pub open spec fn fits_proto(d: Seq<u8>, e: Seq<u8>, c: Seq<u8>) -> bool {
    d.len() + e.len() + c.len() + 64 <= usize::MAX
}

/// One length-delimited field read back, whatever follows it.
proof fn lemma_ld_field(tag: nat, s: Seq<u8>, rest: Seq<u8>)
    requires
        1 <= tag <= 15,
        s.len() <= usize::MAX,
    ensures
        ({
            let b = ld_field(tag, s) + rest;
            let vl = varint_bytes(s.len()).len();
            &&& key_at(b) == Some((tag, 2nat, 1nat))
            &&& field_value(b.subrange(1, b.len() as int), 2) == Some(
                (FieldVal::Bytes(s), (vl + s.len()) as nat),
            )
            &&& 1 + vl + s.len() <= b.len()
            &&& b.subrange((1 + vl + s.len()) as int, b.len() as int) == rest
        }),
{
    let b = ld_field(tag, s) + rest;
    let k = (tag * 8 + 2) as u8;
    assert(b[0] == k);
    assert(varint_at(b, 10) == Some(((tag * 8 + 2) as nat, 1nat)));
    assert((tag * 8 + 2) / 8 == tag && (tag * 8 + 2) % 8 == 2);
    lemma_u64_fits(s.len() as u64);
    lemma_varint_round_trip(s.len(), s + rest, 10);
    let vl = varint_bytes(s.len()).len();
    let tail = b.subrange(1, b.len() as int);
    assert(tail =~= varint_bytes(s.len()) + (s + rest));
    assert(tail.subrange(vl as int, (vl + s.len()) as int) =~= s);
    assert(b.subrange((1 + vl + s.len()) as int, b.len() as int) =~= rest);
}

/// Reading back the metadata that `wrap` writes.
#[verifier::rlimit(100)]
#[verifier::spinoff_prover]
proof fn lemma_meta_round_trip(domain: Seq<char>, entity: Seq<char>)
    requires
        encode_utf8(domain).len() + encode_utf8(entity).len() <= usize::MAX,
    ensures
        parse_meta(encode_meta(encode_utf8(domain), encode_utf8(entity)), empty_meta()) == Some(
            MetaView { domain, entity, timestamp: 0, sequence: 0 },
        ),
{
    let d = encode_utf8(domain);
    let e = encode_utf8(entity);
    encode_utf8_valid_utf8(domain);
    encode_utf8_valid_utf8(entity);
    encode_utf8_decode_utf8(domain);
    encode_utf8_decode_utf8(entity);
    let m1 = MetaView { domain, ..empty_meta() };
    let m2 = MetaView { domain, entity, timestamp: 0, sequence: 0 };
    let md = encode_meta(d, e);
    if d.len() == 0 {
        assert(decode_utf8(d) =~= Seq::<char>::empty());
        assert(md =~= bytes_field(2, e));
        assert(m1 == empty_meta());
    } else {
        lemma_ld_field(1, d, bytes_field(2, e));
        assert(md == ld_field(1, d) + bytes_field(2, e));
        assert(parse_meta(md, empty_meta()) == parse_meta(bytes_field(2, e), m1));
    }
    assert(parse_meta(md, empty_meta()) == parse_meta(bytes_field(2, e), m1));
    if e.len() == 0 {
        assert(decode_utf8(e) =~= Seq::<char>::empty());
        assert(bytes_field(2, e) =~= Seq::<u8>::empty());
        assert(m1 == m2);
    } else {
        lemma_ld_field(2, e, Seq::empty());
        assert(bytes_field(2, e) + Seq::<u8>::empty() =~= bytes_field(2, e));
        let b = bytes_field(2, e) + Seq::<u8>::empty();
        assert(parse_meta(b, m1) == parse_meta(Seq::<u8>::empty(), m2));
    }
}

/// Reading back what `wrap` writes gives the content and the routing key
/// that went in, with zero stamps.
pub proof fn lemma_round_trip(domain: Seq<char>, entity: Seq<char>, content: Seq<u8>)
    requires
        fits_proto(encode_utf8(domain), encode_utf8(entity), content),
    ensures
        decode(encode(encode_utf8(domain), encode_utf8(entity), content)) == Ok::<
            _,
            EnvelopeError,
        >((content, MetaView { domain, entity, timestamp: 0, sequence: 0 })),
{
    let d = encode_utf8(domain);
    let e = encode_utf8(entity);
    let md = encode_meta(d, e);
    lemma_meta_round_trip(domain, entity);
    assert(md.len() <= usize::MAX) by {
        lemma_u64_fits(d.len() as u64);
        lemma_u64_fits(e.len() as u64);
        lemma_varint_len(d.len());
        lemma_varint_len(e.len());
    }
    lemma_ld_field(1, md, bytes_field(2, content));
    let m = encode(d, e, content);
    let start = EnvView { metadata: None, content: Seq::empty() };
    let after = EnvView {
        metadata: Some(MetaView { domain, entity, timestamp: 0, sequence: 0 }),
        content: Seq::empty(),
    };
    assert(parse_env(m, start) == parse_env(bytes_field(2, content), after));
    if content.len() == 0 {
        assert(bytes_field(2, content) =~= Seq::<u8>::empty());
        assert(parse_env(bytes_field(2, content), after) == Some(after));
        assert(after.content =~= content);
    } else {
        lemma_ld_field(2, content, Seq::empty());
        assert(ld_field(2, content) + Seq::<u8>::empty() =~= ld_field(2, content));
        let b = ld_field(2, content) + Seq::<u8>::empty();
        assert(parse_env(b, after) == parse_env(
            Seq::<u8>::empty(),
            EnvView { metadata: after.metadata, content },
        ));
    }
}

/// A varint of a value below `2^64` takes at most ten bytes.
proof fn lemma_varint_len(v: nat)
    requires
        v <= usize::MAX,
    ensures
        varint_bytes(v).len() <= 10,
{
    crate::varint::lemma_pow128_table();
    assert(crate::varint::pow128(10) == 128 * crate::varint::pow128(9));
    lemma_varint_len_k(v, 10);
}

proof fn lemma_varint_len_k(v: nat, k: nat)
    requires
        v < crate::varint::pow128(k),
        k >= 1,
    ensures
        varint_bytes(v).len() <= k,
    decreases k,
{
    if v >= 128 {
        if k == 1 {
            assert(crate::varint::pow128(1) == 128) by {
                reveal_with_fuel(crate::varint::pow128, 2);
            }
        } else {
            assert(crate::varint::pow128(k) == 128 * crate::varint::pow128((k - 1) as nat));
            assert(v / 128 < crate::varint::pow128((k - 1) as nat)) by (nonlinear_arith)
                requires
                    v < 128 * crate::varint::pow128((k - 1) as nat),
            ;
            lemma_varint_len_k(v / 128, (k - 1) as nat);
        }
    }
}

/// The routing key and stamps of an envelope.
#[derive(Debug)]
pub struct Metadata {
    pub domain: String,
    pub entity: String,
    pub timestamp: u64,
    pub sequence: u64,
}

impl View for Metadata {
    type V = MetaView;

    open spec fn view(&self) -> MetaView {
        MetaView {
            domain: self.domain@,
            entity: self.entity@,
            timestamp: self.timestamp as nat,
            sequence: self.sequence as nat,
        }
    }
}

/// A decoded envelope.
#[derive(Debug)]
pub struct Envelope {
    pub metadata: Option<Metadata>,
    pub content: Vec<u8>,
}

impl View for Envelope {
    type V = EnvView;

    open spec fn view(&self) -> EnvView {
        EnvView {
            metadata: match self.metadata {
                Some(m) => Some(m@),
                None => None,
            },
            content: self.content@,
        }
    }
}

fn empty_metadata() -> (r: Metadata)
    ensures
        r@ == empty_meta(),
{
    Metadata { domain: String::new(), entity: String::new(), timestamp: 0, sequence: 0 }
}

fn push_bytes(out: &mut Vec<u8>, s: &[u8])
    ensures
        final(out)@ == old(out)@ + s@,
{
    let ghost start = out@;
    let mut i: usize = 0;
    while i < s.len()
        invariant
            i <= s@.len(),
            out@ == start + s@.subrange(0, i as int),
        decreases s@.len() - i,
    {
        out.push(s[i]);
        assert(s@.subrange(0, i + 1) =~= s@.subrange(0, i as int).push(s@[i as int]));
        i = i + 1;
    }
    assert(s@.subrange(0, s@.len() as int) =~= s@);
}

fn push_ld_field(out: &mut Vec<u8>, tag: u8, s: &[u8])
    requires
        1 <= tag <= 15,
    ensures
        final(out)@ == old(out)@ + ld_field(tag as nat, s@),
{
    out.push(tag * 8 + 2);
    push_varint(out, s.len() as u64);
    push_bytes(out, s);
    assert(final(out)@ =~= old(out)@ + ld_field(tag as nat, s@));
}

fn push_bytes_field(out: &mut Vec<u8>, tag: u8, s: &[u8])
    requires
        1 <= tag <= 15,
    ensures
        final(out)@ == old(out)@ + bytes_field(tag as nat, s@),
{
    if s.len() == 0 {
        assert(old(out)@ + bytes_field(tag as nat, s@) =~= old(out)@);
    } else {
        push_ld_field(out, tag, s);
    }
}

/// Frames `content` with the routing key `(domain, entity)`; the stamps are zero.
pub fn wrap(domain: &str, entity: &str, content: &[u8]) -> (r: Vec<u8>)
    requires
        fits_proto(domain.spec_bytes(), entity.spec_bytes(), content@),
    ensures
        r@ == encode(domain.spec_bytes(), entity.spec_bytes(), content@),
{
    let mut md: Vec<u8> = Vec::new();
    push_bytes_field(&mut md, 1, domain.as_bytes());
    push_bytes_field(&mut md, 2, entity.as_bytes());
    assert(md@ =~= encode_meta(domain.spec_bytes(), entity.spec_bytes()));
    let mut out: Vec<u8> = Vec::new();
    push_ld_field(&mut out, 1, md.as_slice());
    push_bytes_field(&mut out, 2, content);
    assert(out@ =~= encode(domain.spec_bytes(), entity.spec_bytes(), content@));
    out
}

/// A field value as positions in the message.
enum FieldRead {
    Varint(u64),
    Bytes(usize, usize),
    Fixed,
}

spec fn read_matches(b: Seq<u8>, f: FieldRead, v: FieldVal) -> bool {
    match (f, v) {
        (FieldRead::Varint(x), FieldVal::Varint(y)) => x as nat == y,
        (FieldRead::Bytes(s, e), FieldVal::Bytes(t)) => s <= e <= b.len() && b.subrange(
            s as int,
            e as int,
        ) == t,
        (FieldRead::Fixed, FieldVal::Fixed) => true,
        _ => false,
    }
}

fn read_key(b: &[u8], i: usize) -> (r: Option<(u64, u64, usize)>)
    requires
        i <= b@.len(),
    ensures
        match key_at(b@.subrange(i as int, b@.len() as int)) {
            Some((t, w, l)) => r == Some((t as u64, w as u64, (i + l) as usize)) && i < i + l
                <= b@.len(),
            None => r is None,
        },
{
    match read_varint(b, i) {
        Some((k, j)) => {
            if k > 0xFFFF_FFFF || k / 8 == 0 {
                None
            } else {
                Some((k / 8, k % 8, j))
            }
        },
        None => None,
    }
}

fn read_field(b: &[u8], i: usize, wt: u64) -> (r: Option<(FieldRead, usize)>)
    requires
        i <= b@.len(),
    ensures
        match field_value(b@.subrange(i as int, b@.len() as int), wt as nat) {
            Some((v, l)) => r matches Some((f, j)) && j == i + l && j <= b@.len() && read_matches(
                b@,
                f,
                v,
            ),
            None => r is None,
        },
{
    let len = b.len();
    let ghost tail = b@.subrange(i as int, b@.len() as int);
    if wt == 0 {
        match read_varint(b, i) {
            Some((v, j)) => Some((FieldRead::Varint(v), j)),
            None => None,
        }
    } else if wt == 1 {
        if len - i >= 8 {
            Some((FieldRead::Fixed, i + 8))
        } else {
            None
        }
    } else if wt == 2 {
        match read_varint(b, i) {
            Some((n, j)) => {
                if n as u128 <= (len - j) as u128 {
                    let e = j + n as usize;
                    assert(tail.subrange((j - i) as int, (e - i) as int) =~= b@.subrange(
                        j as int,
                        e as int,
                    ));
                    Some((FieldRead::Bytes(j, e), e))
                } else {
                    None
                }
            },
            None => None,
        }
    } else if wt == 5 {
        if len - i >= 4 {
            Some((FieldRead::Fixed, i + 4))
        } else {
            None
        }
    } else {
        None
    }
}

/// Applies the fields of `b` to `acc`.
#[verifier::rlimit(100)]
#[verifier::spinoff_prover]
fn parse_metadata(b: &[u8], init: Metadata) -> (r: Option<Metadata>)
    ensures
        match parse_meta(b@, init@) {
            Some(m) => r matches Some(x) && x@ == m,
            None => r is None,
        },
{
    let len = b.len();
    let mut i: usize = 0;
    let mut acc = init;
    assert(b@.subrange(0, len as int) =~= b@);
    loop
        invariant
            i <= len == b@.len(),
            parse_meta(b@, init@) == parse_meta(b@.subrange(i as int, len as int), acc@),
        decreases len - i,
    {
        let ghost tail = b@.subrange(i as int, len as int);
        if i == len {
            assert(tail.len() == 0);
            return Some(acc);
        }
        let (tag, wt, j) = match read_key(b, i) {
            Some(x) => x,
            None => return None,
        };
        assert(tail.subrange((j - i) as int, tail.len() as int) =~= b@.subrange(j as int, len as int));
        let (f, k) = match read_field(b, j, wt) {
            Some(x) => x,
            None => return None,
        };
        assert(tail.subrange((k - i) as int, tail.len() as int) =~= b@.subrange(k as int, len as int));
        if tag == 1 || tag == 2 {
            match f {
                FieldRead::Bytes(s, e) => match text_from_utf8(&b[s..e]) {
                    Some(text) => {
                        if tag == 1 {
                            acc.domain = text;
                        } else {
                            acc.entity = text;
                        }
                    },
                    None => return None,
                },
                _ => return None,
            }
        } else if tag == 3 || tag == 4 {
            match f {
                FieldRead::Varint(v) => {
                    if tag == 3 {
                        acc.timestamp = v;
                    } else {
                        acc.sequence = v;
                    }
                },
                _ => return None,
            }
        }
        i = k;
    }
}

/// Applies the fields of `b` to `init`.
#[verifier::rlimit(100)]
#[verifier::spinoff_prover]
fn parse_envelope(b: &[u8], init: Envelope) -> (r: Option<Envelope>)
    ensures
        match parse_env(b@, init@) {
            Some(env) => r matches Some(x) && x@ == env,
            None => r is None,
        },
{
    let len = b.len();
    let mut i: usize = 0;
    let mut acc = init;
    assert(b@.subrange(0, len as int) =~= b@);
    loop
        invariant
            i <= len == b@.len(),
            parse_env(b@, init@) == parse_env(b@.subrange(i as int, len as int), acc@),
        decreases len - i,
    {
        let ghost tail = b@.subrange(i as int, len as int);
        if i == len {
            assert(tail.len() == 0);
            return Some(acc);
        }
        let (tag, wt, j) = match read_key(b, i) {
            Some(x) => x,
            None => return None,
        };
        assert(tail.subrange((j - i) as int, tail.len() as int) =~= b@.subrange(j as int, len as int));
        let (f, k) = match read_field(b, j, wt) {
            Some(x) => x,
            None => return None,
        };
        assert(tail.subrange((k - i) as int, tail.len() as int) =~= b@.subrange(k as int, len as int));
        if tag == 1 {
            match f {
                FieldRead::Bytes(s, e) => {
                    let Envelope { metadata, content } = acc;
                    let base = match metadata {
                        Some(m) => m,
                        None => empty_metadata(),
                    };
                    match parse_metadata(&b[s..e], base) {
                        Some(m) => {
                            acc = Envelope { metadata: Some(m), content };
                        },
                        None => return None,
                    }
                },
                _ => return None,
            }
        } else if tag == 2 {
            match f {
                FieldRead::Bytes(s, e) => {
                    acc.content = slice_to_vec(&b[s..e]);
                },
                _ => return None,
            }
        }
        i = k;
    }
}

/// Reads a length-delimited envelope back into its content and metadata.
pub fn unwrap(message: &[u8]) -> (r: Result<(Vec<u8>, Metadata), EnvelopeError>)
    ensures
        r is Ok <==> decode(message@) is Ok,
        r matches Ok((c, md)) ==> decode(message@) == Ok::<_, EnvelopeError>((c@, md@)),
        r matches Err(e) ==> decode(message@) == Err::<(Seq<u8>, MetaView), _>(e),
{
    let start = Envelope { metadata: None, content: Vec::new() };
    assert(start@ == EnvView { metadata: None, content: Seq::empty() });
    match parse_envelope(message, start) {
        Some(env) => match env.metadata {
            Some(md) => Ok((env.content, md)),
            None => Err(EnvelopeError::MetadataError),
        },
        None => Err(EnvelopeError::ProtoError),
    }
}

} // verus!

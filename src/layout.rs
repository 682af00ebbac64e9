//! Reading the pointers of a single-segment Cap'n Proto message.
//!
//! A message is an 8-byte segment table (segment count minus one, then the
//! segment's length in words) followed by the segment. A pointer is one word:
//! its low 32 bits hold the kind (two bits) and a signed 30-bit word offset
//! from the end of the pointer; the high 32 bits hold the data and pointer
//! section sizes of a struct, or the element size and count of a list.
//! Far pointers and capabilities are not accepted.
use vstd::prelude::*;
use crate::wire::{le32, read_u32, words_for};

verus! {

/// Where a struct lies in the segment, in words.
#[derive(Clone, Copy, Debug, PartialEq, Eq)]
pub struct StructLoc {
    pub data: u64,
    pub data_words: u64,
    pub ptrs: u64,
    pub ptr_count: u64,
}

/// A run of bytes in the message: `len` bytes from byte `start`.
#[derive(Clone, Copy, Debug, PartialEq, Eq)]
pub struct Span {
    pub start: u64,
    pub len: u64,
}

/// The struct that a null pointer stands for: no data, no pointers.
pub open spec fn empty_loc() -> StructLoc {
    StructLoc { data: 0, data_words: 0, ptrs: 0, ptr_count: 0 }
}

/// Byte offset in the message of word `w` of the segment.
pub open spec fn word_byte(w: int) -> int {
    8 + 8 * w
}

/// The segment length in words, when the message has exactly one segment
/// and holds all of it.
pub open spec fn segment_words(m: Seq<u8>) -> Option<int> {
    if m.len() >= 8 && le32(m, 0) == 0 && word_byte(le32(m, 4)) <= m.len() {
        Some(le32(m, 4))
    } else {
        None
    }
}

/// A struct location lies inside a segment of `n` words.
pub open spec fn loc_in(s: StructLoc, n: int) -> bool {
    s.ptrs == s.data + s.data_words && s.ptrs + s.ptr_count <= n
}

pub open spec fn signed30(u: int) -> int {
    if u >= 0x2000_0000 {
        u - 0x4000_0000
    } else {
        u
    }
}

pub open spec fn ptr_lo(m: Seq<u8>, w: int) -> int {
    le32(m, word_byte(w))
}

pub open spec fn ptr_hi(m: Seq<u8>, w: int) -> int {
    le32(m, word_byte(w) + 4)
}

/// The struct that the pointer in word `w` refers to; `None` for a null pointer.
pub open spec fn struct_at(m: Seq<u8>, n: int, w: int) -> Result<Option<StructLoc>, ()> {
    let lo = ptr_lo(m, w);
    let hi = ptr_hi(m, w);
    if lo == 0 && hi == 0 {
        Ok(None)
    } else if lo % 4 != 0 {
        Err(())
    } else {
        let t = w + 1 + signed30(lo / 4);
        let ds = hi % 65536;
        let pc = hi / 65536;
        if t < 0 || t + ds + pc > n {
            Err(())
        } else {
            Ok(
                Some(
                    StructLoc {
                        data: t as u64,
                        data_words: ds as u64,
                        ptrs: (t + ds) as u64,
                        ptr_count: pc as u64,
                    },
                ),
            )
        }
    }
}

/// The byte list that the pointer in word `w` refers to; `None` for a null pointer.
pub open spec fn bytes_at(m: Seq<u8>, n: int, w: int) -> Result<Option<Span>, ()> {
    let lo = ptr_lo(m, w);
    let hi = ptr_hi(m, w);
    if lo == 0 && hi == 0 {
        Ok(None)
    } else if lo % 4 != 1 || hi % 8 != 2 {
        Err(())
    } else {
        let t = w + 1 + signed30(lo / 4);
        let count = hi / 8;
        if t < 0 || 8 * t + count > 8 * n {
            Err(())
        } else {
            Ok(Some(Span { start: word_byte(t) as u64, len: count as u64 }))
        }
    }
}

/// The struct in pointer field `i` of `s`; a field past the pointer section is null.
pub open spec fn struct_field(m: Seq<u8>, n: int, s: StructLoc, i: int) -> Result<
    StructLoc,
    (),
> {
    if i < s.ptr_count {
        match struct_at(m, n, s.ptrs + i) {
            Ok(Some(t)) => Ok(t),
            Ok(None) => Ok(empty_loc()),
            Err(()) => Err(()),
        }
    } else {
        Ok(empty_loc())
    }
}

/// The bytes of the data field in pointer field `i` of `s`; null reads as empty.
pub open spec fn data_field(m: Seq<u8>, n: int, s: StructLoc, i: int) -> Result<Seq<u8>, ()> {
    if i < s.ptr_count {
        match bytes_at(m, n, s.ptrs + i) {
            Ok(Some(sp)) => Ok(m.subrange(sp.start as int, sp.start + sp.len)),
            Ok(None) => Ok(Seq::empty()),
            Err(()) => Err(()),
        }
    } else {
        Ok(Seq::empty())
    }
}

/// The bytes of the text field in pointer field `i` of `s`, without the
/// terminating NUL; null reads as empty, and a text must end in NUL.
pub open spec fn text_field(m: Seq<u8>, n: int, s: StructLoc, i: int) -> Result<Seq<u8>, ()> {
    if i < s.ptr_count {
        match bytes_at(m, n, s.ptrs + i) {
            Ok(Some(sp)) => {
                if sp.len == 0 || m[sp.start + sp.len - 1] != 0 {
                    Err(())
                } else {
                    Ok(m.subrange(sp.start as int, sp.start + sp.len - 1))
                }
            },
            Ok(None) => Ok(Seq::empty()),
            Err(()) => Err(()),
        }
    } else {
        Ok(Seq::empty())
    }
}

/// The 64-bit little-endian value at byte `i`.
pub open spec fn le64(m: Seq<u8>, i: int) -> int {
    le32(m, i) + 0x1_0000_0000 * le32(m, i + 4)
}

/// Data word `k` of `s`; a word past the data section reads as zero.
pub open spec fn data_word(m: Seq<u8>, s: StructLoc, k: int) -> int {
    if k < s.data_words {
        le64(m, word_byte(s.data + k))
    } else {
        0
    }
}

/// The root struct of the message.
pub open spec fn root_of(m: Seq<u8>) -> Result<StructLoc, ()> {
    match segment_words(m) {
        Some(n) => if n >= 1 {
            match struct_at(m, n, 0) {
                Ok(Some(t)) => Ok(t),
                Ok(None) => Ok(empty_loc()),
                Err(()) => Err(()),
            }
        } else {
            Err(())
        },
        None => Err(()),
    }
}

/// Reads the segment table: the segment length in words.
pub fn read_segment_words(m: &[u8]) -> (r: Option<u64>)
    ensures
        r matches Some(n) ==> segment_words(m@) == Some(n as int),
        r is None ==> segment_words(m@) is None,
{
    if m.len() < 8 {
        return None;
    }
    let count = read_u32(m, 0);
    let n = read_u32(m, 4);
    if count == 0 && (m.len() - 8) / 8 >= n as usize {
        Some(n as u64)
    } else {
        None
    }
}

fn decode_offset(lo: u32) -> (r: i64)
    ensures
        r == signed30(lo as int / 4),
{
    let u = (lo / 4) as i64;
    if u >= 0x2000_0000 {
        u - 0x4000_0000
    } else {
        u
    }
}

/// Follows the struct pointer in word `w` of a segment of `n` words.
pub fn read_struct_ptr(m: &[u8], n: u64, w: u64) -> (r: Result<Option<StructLoc>, ()>)
    requires
        segment_words(m@) == Some(n as int),
        w < n,
    ensures
        r == struct_at(m@, n as int, w as int),
{
    let len = m.len();
    assert(8 + 8 * w + 8 <= len);
    let b = (8 + 8 * w) as usize;
    let lo = read_u32(m, b);
    let hi = read_u32(m, b + 4);
    if lo == 0 && hi == 0 {
        return Ok(None);
    }
    if lo % 4 != 0 {
        return Err(());
    }
    let t = w as i64 + 1 + decode_offset(lo);
    let ds = (hi % 65536) as u64;
    let pc = (hi / 65536) as u64;
    if t < 0 || t as u64 + ds + pc > n {
        return Err(());
    }
    Ok(Some(StructLoc { data: t as u64, data_words: ds, ptrs: t as u64 + ds, ptr_count: pc }))
}

/// Follows the byte-list pointer in word `w` of a segment of `n` words.
pub fn read_bytes_ptr(m: &[u8], n: u64, w: u64) -> (r: Result<Option<Span>, ()>)
    requires
        segment_words(m@) == Some(n as int),
        w < n,
    ensures
        r == bytes_at(m@, n as int, w as int),
        r matches Ok(Some(sp)) ==> sp.start + sp.len <= m@.len(),
{
    let len = m.len();
    assert(8 + 8 * w + 8 <= len);
    let b = (8 + 8 * w) as usize;
    let lo = read_u32(m, b);
    let hi = read_u32(m, b + 4);
    if lo == 0 && hi == 0 {
        return Ok(None);
    }
    if lo % 4 != 1 || hi % 8 != 2 {
        return Err(());
    }
    let t = w as i64 + 1 + decode_offset(lo);
    let count = (hi / 8) as u64;
    if t < 0 || 8 * (t as u64) + count > 8 * n {
        return Err(());
    }
    Ok(Some(Span { start: 8 + 8 * (t as u64), len: count }))
}

/// Reads the 64-bit little-endian value at byte `i`.
pub fn read_u64(b: &[u8], i: usize) -> (r: u64)
    requires
        i + 8 <= b@.len(),
    ensures
        r == le64(b@, i as int),
{
    let len = b.len();
    assert(i + 8 <= len);
    let lo = read_u32(b, i) as u64;
    let hi = read_u32(b, i + 4) as u64;
    lo + 0x1_0000_0000 * hi
}

/// Words taken by the byte list that pointer field `i` of `s` refers to.
pub open spec fn list_words_field(m: Seq<u8>, n: int, s: StructLoc, i: int) -> Result<int, ()> {
    if i < s.ptr_count {
        match bytes_at(m, n, s.ptrs + i) {
            Ok(Some(sp)) => Ok(words_for(sp.len as int)),
            Ok(None) => Ok(0),
            Err(()) => Err(()),
        }
    } else {
        Ok(0)
    }
}

/// Follows pointer field `i` of `s` to a struct.
pub fn read_struct_field(m: &[u8], n: u64, s: StructLoc, i: u64) -> (r: Result<StructLoc, ()>)
    requires
        segment_words(m@) == Some(n as int),
        loc_in(s, n as int),
    ensures
        r == struct_field(m@, n as int, s, i as int),
        r matches Ok(t) ==> loc_in(t, n as int),
{
    if i < s.ptr_count {
        match read_struct_ptr(m, n, s.ptrs + i) {
            Ok(Some(t)) => Ok(t),
            Ok(None) => Ok(StructLoc { data: 0, data_words: 0, ptrs: 0, ptr_count: 0 }),
            Err(()) => Err(()),
        }
    } else {
        Ok(StructLoc { data: 0, data_words: 0, ptrs: 0, ptr_count: 0 })
    }
}

/// Follows pointer field `i` of `s` to a byte list and returns its bytes.
pub fn read_data_field<'a>(m: &'a [u8], n: u64, s: StructLoc, i: u64) -> (r: Result<&'a [u8], ()>)
    requires
        segment_words(m@) == Some(n as int),
        loc_in(s, n as int),
    ensures
        r is Ok <==> data_field(m@, n as int, s, i as int) is Ok,
        r matches Ok(b) ==> data_field(m@, n as int, s, i as int) == Ok::<Seq<u8>, ()>(b@),
{
    if i < s.ptr_count {
        match read_bytes_ptr(m, n, s.ptrs + i) {
            Ok(Some(sp)) => {
                let len = m.len();
                assert(sp.start + sp.len <= len);
                let b: &'a [u8] = &m[sp.start as usize..(sp.start + sp.len) as usize];
                Ok(b)
            },
            Ok(None) => {
                let e: &'a [u8] = &m[0..0];
                assert(e@ =~= Seq::<u8>::empty());
                Ok(e)
            },
            Err(()) => Err(()),
        }
    } else {
        let e: &'a [u8] = &m[0..0];
        assert(e@ =~= Seq::<u8>::empty());
        Ok(e)
    }
}

/// Follows pointer field `i` of `s` to a text and returns its bytes without the NUL.
pub fn read_text_field<'a>(m: &'a [u8], n: u64, s: StructLoc, i: u64) -> (r: Result<&'a [u8], ()>)
    requires
        segment_words(m@) == Some(n as int),
        loc_in(s, n as int),
    ensures
        r is Ok <==> text_field(m@, n as int, s, i as int) is Ok,
        r matches Ok(b) ==> text_field(m@, n as int, s, i as int) == Ok::<Seq<u8>, ()>(b@),
{
    if i < s.ptr_count {
        match read_bytes_ptr(m, n, s.ptrs + i) {
            Ok(Some(sp)) => {
                if sp.len == 0 || m[(sp.start + sp.len - 1) as usize] != 0 {
                    Err(())
                } else {
                    Ok(&m[sp.start as usize..(sp.start + sp.len - 1) as usize])
                }
            },
            Ok(None) => {
                let e: &'a [u8] = &m[0..0];
                assert(e@ =~= Seq::<u8>::empty());
                Ok(e)
            },
            Err(()) => Err(()),
        }
    } else {
        let e: &'a [u8] = &m[0..0];
        assert(e@ =~= Seq::<u8>::empty());
        Ok(e)
    }
}

/// Words taken by the byte list in pointer field `i` of `s`.
pub fn read_list_words(m: &[u8], n: u64, s: StructLoc, i: u64) -> (r: Result<u64, ()>)
    requires
        segment_words(m@) == Some(n as int),
        loc_in(s, n as int),
    ensures
        r is Ok <==> list_words_field(m@, n as int, s, i as int) is Ok,
        r matches Ok(k) ==> list_words_field(m@, n as int, s, i as int) == Ok::<int, ()>(k as int),
        r matches Ok(k) ==> k <= n,
{
    if i < s.ptr_count {
        match read_bytes_ptr(m, n, s.ptrs + i) {
            Ok(Some(sp)) => Ok((sp.len + 7) / 8),
            Ok(None) => Ok(0),
            Err(()) => Err(()),
        }
    } else {
        Ok(0)
    }
}

/// Reads data word `k` of `s`.
pub fn read_data_word(m: &[u8], n: u64, s: StructLoc, k: u64) -> (r: u64)
    requires
        segment_words(m@) == Some(n as int),
        loc_in(s, n as int),
    ensures
        r == data_word(m@, s, k as int),
{
    if k < s.data_words {
        let len = m.len();
        assert(8 + 8 * (s.data + k) + 8 <= len);
        read_u64(m, (8 + 8 * (s.data + k)) as usize)
    } else {
        0
    }
}

/// Reads the segment table and the root pointer.
pub fn read_root(m: &[u8]) -> (r: Result<(u64, StructLoc), ()>)
    ensures
        r is Ok <==> root_of(m@) is Ok,
        r matches Ok((n, s)) ==> segment_words(m@) == Some(n as int) && root_of(m@) == Ok::<
            StructLoc,
            (),
        >(s) && loc_in(s, n as int),
{
    match read_segment_words(m) {
        Some(n) => {
            if n >= 1 {
                match read_struct_ptr(m, n, 0) {
                    Ok(Some(t)) => Ok((n, t)),
                    Ok(None) => Ok((n, StructLoc { data: 0, data_words: 0, ptrs: 0, ptr_count: 0 })),
                    Err(()) => Err(()),
                }
            } else {
                Err(())
            }
        },
        None => Err(()),
    }
}

/// Whether the pointer in word `w` is not null.
pub fn pointer_is_set(m: &[u8], n: u64, w: u64) -> (r: bool)
    requires
        segment_words(m@) == Some(n as int),
        w < n,
    ensures
        r == !(struct_at(m@, n as int, w as int) == Ok::<Option<StructLoc>, ()>(None)),
{
    let len = m.len();
    assert(8 + 8 * w + 8 <= len);
    let b = (8 + 8 * w) as usize;
    let lo = read_u32(m, b);
    let hi = read_u32(m, b + 4);
    !(lo == 0 && hi == 0)
}

} // verus!

//! Reader for the `Metadata` struct of an envelope.
use vstd::prelude::*;
use vstd::utf8::{decode_utf8, valid_utf8};
use crate::codec::EnvelopeError;
use crate::layout::{
    StructLoc, data_word, list_words_field, loc_in, read_data_word, read_list_words,
    read_text_field, segment_words, struct_at, text_field,
};

verus! {

/// Relies on `std::str::from_utf8`: it succeeds exactly on valid UTF-8 and
/// then yields the characters that the bytes encode.
#[verifier::external_body]
pub(crate) fn text_from_utf8(b: &[u8]) -> (r: Option<String>)
    ensures
        r is Some <==> valid_utf8(b@),
        r matches Some(s) ==> s@ == decode_utf8(b@),
{
    std::str::from_utf8(b).ok().map(|s| s.to_string())
}

/// The characters of a text field: its bytes must be valid UTF-8.
pub open spec fn text_chars(r: Result<Seq<u8>, ()>) -> Result<Seq<char>, ()> {
    match r {
        Ok(b) => if valid_utf8(b) {
            Ok(decode_utf8(b))
        } else {
            Err(())
        },
        Err(()) => Err(()),
    }
}

/// A view of a `Metadata` struct inside a message.
#[derive(Clone, Copy, Debug)]
pub struct Reader<'a> {
    pub message: &'a [u8],
    pub words: u64,
    pub loc: StructLoc,
}

impl<'a> Reader<'a> {
    /// The message has one segment of `words` words and the struct lies inside it.
    pub open spec fn wf(&self) -> bool {
        segment_words(self.message@) == Some(self.words as int) && loc_in(self.loc, self.words as int)
    }

    pub open spec fn domain_spec(&self) -> Result<Seq<char>, ()> {
        text_chars(text_field(self.message@, self.words as int, self.loc, 0))
    }

    pub open spec fn entity_spec(&self) -> Result<Seq<char>, ()> {
        text_chars(text_field(self.message@, self.words as int, self.loc, 1))
    }

    /// Pointer field `i` is present and not null.
    pub open spec fn has_field(&self, i: int) -> bool {
        i < self.loc.ptr_count && !(struct_at(self.message@, self.words as int, self.loc.ptrs + i)
            == Ok::<Option<StructLoc>, ()>(None))
    }

    /// Words of the struct and of the texts it points to.
    pub open spec fn size_spec(&self) -> Result<int, ()> {
        let m = self.message@;
        let n = self.words as int;
        match (list_words_field(m, n, self.loc, 0), list_words_field(m, n, self.loc, 1)) {
            (Ok(a), Ok(b)) => Ok(self.loc.data_words + self.loc.ptr_count + a + b),
            _ => Err(()),
        }
    }

    pub fn reborrow(&self) -> (r: Reader<'a>)
        ensures
            r == *self,
    {
        *self
    }

    pub fn total_size(&self) -> (r: Result<u64, EnvelopeError>)
        requires
            self.wf(),
        ensures
            r is Ok <==> self.size_spec() is Ok,
            r matches Ok(k) ==> self.size_spec() == Ok::<int, ()>(k as int),
    {
        let a = match read_list_words(self.message, self.words, self.loc, 0) {
            Ok(a) => a,
            Err(()) => return Err(EnvelopeError::CapnpError),
        };
        let b = match read_list_words(self.message, self.words, self.loc, 1) {
            Ok(b) => b,
            Err(()) => return Err(EnvelopeError::CapnpError),
        };
        Ok(self.loc.data_words + self.loc.ptr_count + a + b)
    }

    fn get_text(self, i: u64) -> (r: Result<String, EnvelopeError>)
        requires
            self.wf(),
        ensures
            r is Ok <==> text_chars(text_field(self.message@, self.words as int, self.loc, i as int)) is Ok,
            r matches Ok(s) ==> text_chars(text_field(self.message@, self.words as int, self.loc, i as int))
                == Ok::<Seq<char>, ()>(s@),
    {
        match read_text_field(self.message, self.words, self.loc, i) {
            Ok(b) => match text_from_utf8(b) {
                Some(s) => Ok(s),
                None => Err(EnvelopeError::CapnpError),
            },
            Err(()) => Err(EnvelopeError::CapnpError),
        }
    }

    pub fn get_domain(self) -> (r: Result<String, EnvelopeError>)
        requires
            self.wf(),
        ensures
            r is Ok <==> self.domain_spec() is Ok,
            r matches Ok(s) ==> self.domain_spec() == Ok::<Seq<char>, ()>(s@),
    {
        self.get_text(0)
    }

    pub fn has_domain(&self) -> (r: bool)
        requires
            self.wf(),
        ensures
            r == self.has_field(0),
    {
        self.has_pointer(0)
    }

    pub fn get_entity(self) -> (r: Result<String, EnvelopeError>)
        requires
            self.wf(),
        ensures
            r is Ok <==> self.entity_spec() is Ok,
            r matches Ok(s) ==> self.entity_spec() == Ok::<Seq<char>, ()>(s@),
    {
        self.get_text(1)
    }

    pub fn has_entity(&self) -> (r: bool)
        requires
            self.wf(),
        ensures
            r == self.has_field(1),
    {
        self.has_pointer(1)
    }

    pub fn get_timestamp(self) -> (r: u64)
        requires
            self.wf(),
        ensures
            r == data_word(self.message@, self.loc, 0),
    {
        read_data_word(self.message, self.words, self.loc, 0)
    }

    pub fn get_sequence(self) -> (r: u64)
        requires
            self.wf(),
        ensures
            r == data_word(self.message@, self.loc, 1),
    {
        read_data_word(self.message, self.words, self.loc, 1)
    }

    fn has_pointer(&self, i: u64) -> (r: bool)
        requires
            self.wf(),
        ensures
            r == self.has_field(i as int),
    {
        if i < self.loc.ptr_count {
            crate::layout::pointer_is_set(self.message, self.words, self.loc.ptrs + i)
        } else {
            false
        }
    }
}

} // verus!

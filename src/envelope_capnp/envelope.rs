//! Reader for the root `Envelope` struct of a message.
use vstd::prelude::*;
use crate::codec::EnvelopeError;
use crate::envelope_capnp::metadata;
use crate::layout::{
    StructLoc, data_field, list_words_field, loc_in, read_data_field, read_list_words, read_root,
    read_struct_field, root_of, segment_words, struct_at, struct_field,
};

verus! {

/// A view of an `Envelope` struct inside a message.
#[derive(Clone, Copy, Debug)]
pub struct Reader<'a> {
    pub message: &'a [u8],
    pub words: u64,
    pub loc: StructLoc,
}

impl<'a> Reader<'a> {
    /// The message has one segment of `words` words and the struct lies inside it.
    pub open spec fn wf(&self) -> bool {
        segment_words(self.message@) == Some(self.words as int) && loc_in(self.loc, self.words as int)
    }

    pub open spec fn metadata_spec(&self) -> Result<StructLoc, ()> {
        struct_field(self.message@, self.words as int, self.loc, 0)
    }

    pub open spec fn content_spec(&self) -> Result<Seq<u8>, ()> {
        data_field(self.message@, self.words as int, self.loc, 1)
    }

    /// Pointer field `i` is present and not null.
    pub open spec fn has_field(&self, i: int) -> bool {
        i < self.loc.ptr_count && !(struct_at(self.message@, self.words as int, self.loc.ptrs + i)
            == Ok::<Option<StructLoc>, ()>(None))
    }

    /// Words of the struct, of its content and of its metadata.
    pub open spec fn size_spec(&self) -> Result<int, ()> {
        let m = self.message@;
        let n = self.words as int;
        match (self.metadata_spec(), list_words_field(m, n, self.loc, 1)) {
            (Ok(md), Ok(c)) => {
                let r = metadata::Reader { message: self.message, words: self.words, loc: md };
                match r.size_spec() {
                    Ok(k) => Ok(self.loc.data_words + self.loc.ptr_count + c + k),
                    Err(()) => Err(()),
                }
            },
            _ => Err(()),
        }
    }

    /// Reads the segment table and the root pointer of `message`.
    pub fn get_root(message: &'a [u8]) -> (r: Result<Reader<'a>, EnvelopeError>)
        ensures
            r is Ok <==> root_of(message@) is Ok,
            r matches Ok(e) ==> e.wf() && e.message == message && root_of(message@) == Ok::<
                StructLoc,
                (),
            >(e.loc),
    {
        match read_root(message) {
            Ok((words, loc)) => Ok(Reader { message, words, loc }),
            Err(()) => Err(EnvelopeError::CapnpError),
        }
    }

    pub fn reborrow(&self) -> (r: Reader<'a>)
        ensures
            r == *self,
    {
        *self
    }

    pub fn total_size(&self) -> (r: Result<u64, EnvelopeError>)
        requires
            self.wf(),
        ensures
            r is Ok <==> self.size_spec() is Ok,
            r matches Ok(k) ==> self.size_spec() == Ok::<int, ()>(k as int),
    {
        let md = match read_struct_field(self.message, self.words, self.loc, 0) {
            Ok(md) => md,
            Err(()) => return Err(EnvelopeError::CapnpError),
        };
        let c = match read_list_words(self.message, self.words, self.loc, 1) {
            Ok(c) => c,
            Err(()) => return Err(EnvelopeError::CapnpError),
        };
        let r = metadata::Reader { message: self.message, words: self.words, loc: md };
        let k = r.total_size()?;
        proof {
            assert(k <= 0x1_0000_0000 * 4);
        }
        Ok(self.loc.data_words + self.loc.ptr_count + c + k)
    }

    pub fn get_metadata(self) -> (r: Result<metadata::Reader<'a>, EnvelopeError>)
        requires
            self.wf(),
        ensures
            r is Ok <==> self.metadata_spec() is Ok,
            r matches Ok(md) ==> md.wf() && md.message == self.message && md.words == self.words
                && self.metadata_spec() == Ok::<StructLoc, ()>(md.loc),
    {
        match read_struct_field(self.message, self.words, self.loc, 0) {
            Ok(loc) => Ok(metadata::Reader { message: self.message, words: self.words, loc }),
            Err(()) => Err(EnvelopeError::CapnpError),
        }
    }

    pub fn has_metadata(&self) -> (r: bool)
        requires
            self.wf(),
        ensures
            r == self.has_field(0),
    {
        self.has_pointer(0)
    }

    pub fn get_content(self) -> (r: Result<&'a [u8], EnvelopeError>)
        requires
            self.wf(),
        ensures
            r is Ok <==> self.content_spec() is Ok,
            r matches Ok(b) ==> self.content_spec() == Ok::<Seq<u8>, ()>(b@),
    {
        match read_data_field(self.message, self.words, self.loc, 1) {
            Ok(b) => Ok(b),
            Err(()) => Err(EnvelopeError::CapnpError),
        }
    }

    pub fn has_content(&self) -> (r: bool)
        requires
            self.wf(),
        ensures
            r == self.has_field(1),
    {
        self.has_pointer(1)
    }

    fn has_pointer(&self, i: u64) -> (r: bool)
        requires
            self.wf(),
        ensures
            r == self.has_field(i as int),
    {
        if i < self.loc.ptr_count {
            crate::layout::pointer_is_set(self.message, self.words, self.loc.ptrs + i)
        } else {
            false
        }
    }
}

} // verus!

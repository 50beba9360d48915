use vstd::prelude::*;

use crate::error::DecodeError;

verus! {

/// One buffer the store knows about: either its bytes, loaded by the caller
/// from wherever the document keeps them, or a marker that the external
/// source could not be read.
#[derive(Clone, Debug)]
pub enum BufferSlot {
    /// The raw bytes of the buffer.
    Loaded(Vec<u8>),
    /// The external source of this buffer could not be read.
    Unreadable,
}

/// Owns the raw bytes of one document for the duration of its decode.
///
/// Buffer ids are indices into the slot list, as they are in the interchange
/// format.  The store itself does no reading: the caller loads each buffer
/// (or records that it could not) before decoding, so resolution here is a
/// pure lookup and the decoder never touches an external source.
#[derive(Clone, Debug)]
pub struct BufferStore {
    pub slots: Vec<BufferSlot>,
}

impl BufferStore {
    /// What resolving `id` yields: the bytes, or the specific error.
    pub open spec fn spec_resolve(self, id: int) -> Result<Seq<u8>, DecodeError> {
        if !(0 <= id < self.slots@.len()) {
            Err(DecodeError::BufferNotFound)
        } else {
            match self.slots@[id] {
                BufferSlot::Loaded(bytes) => Ok(bytes@),
                BufferSlot::Unreadable => Err(DecodeError::BufferReadError),
            }
        }
    }

    /// An empty store.
    pub fn new() -> (s: BufferStore)
        ensures
            s.slots@.len() == 0,
    {
        BufferStore { slots: Vec::new() }
    }

    /// Number of buffers the store knows about.
    pub fn len(&self) -> (n: usize)
        ensures
            n == self.slots@.len(),
    {
        self.slots.len()
    }

    /// Append a loaded buffer; its id is the previous length of the store.
    pub fn push_loaded(&mut self, bytes: Vec<u8>)
        ensures
            final(self).slots@ == old(self).slots@.push(BufferSlot::Loaded(bytes)),
    {
        self.slots.push(BufferSlot::Loaded(bytes));
    }

    /// Record a buffer whose external source could not be read; resolving
    /// its id reports `BufferReadError`.
    pub fn push_unreadable(&mut self)
        ensures
            final(self).slots@ == old(self).slots@.push(BufferSlot::Unreadable),
    {
        self.slots.push(BufferSlot::Unreadable);
    }

    /// Look up a buffer by id.  Fails with `BufferNotFound` for an unknown
    /// id and `BufferReadError` for a buffer whose source could not be read.
    pub fn resolve(&self, id: u32) -> (r: Result<&Vec<u8>, DecodeError>)
        ensures
            match r {
                Ok(bytes) => self.spec_resolve(id as int) == Ok::<Seq<u8>, DecodeError>(bytes@),
                Err(e) => self.spec_resolve(id as int) == Err::<Seq<u8>, DecodeError>(e),
            },
    {
        if (id as usize) < self.slots.len() {
            match &self.slots[id as usize] {
                BufferSlot::Loaded(bytes) => Ok(bytes),
                BufferSlot::Unreadable => Err(DecodeError::BufferReadError),
            }
        } else {
            Err(DecodeError::BufferNotFound)
        }
    }
}

} // verus!

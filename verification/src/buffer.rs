//! The immutable, cheaply shareable byte buffer handed out to readers.

use vstd::prelude::*;

verus! {

/// An immutable byte buffer with zero-copy sharing: cloning a
/// `ReadOnlySource` shares the underlying allocation instead of copying it.
///
/// One such buffer backs each stored file; a later write replaces it
/// wholesale and a delete destroys it.
pub struct ReadOnlySource {
    data: std::rc::Rc<Vec<u8>>,
}

impl View for ReadOnlySource {
    type V = Seq<u8>;

    closed spec fn view(&self) -> Seq<u8> {
        self.data@
    }
}

impl ReadOnlySource {
    /// Wraps an owned byte vector as a shareable buffer.
    pub fn new(data: Vec<u8>) -> (r: Self)
        ensures
            r@ == data@,
    {
        ReadOnlySource { data: std::rc::Rc::new(data) }
    }

    /// The number of bytes held.
    pub fn len(&self) -> (r: usize)
        ensures
            r == self@.len(),
    {
        self.data.len()
    }

    /// Borrows the bytes held.
    pub fn as_slice(&self) -> (r: &[u8])
        ensures
            r@ == self@,
    {
        self.data.as_slice()
    }

    /// Copies the bytes held into an owned vector.
    pub fn to_vec(&self) -> (r: Vec<u8>)
        ensures
            r@ == self@,
    {
        vstd::slice::slice_to_vec(self.data.as_slice())
    }
}

impl Clone for ReadOnlySource {
    /// Shares the same allocation; the views are equal.
    fn clone(&self) -> (r: Self)
        ensures
            r@ == self@,
    {
        ReadOnlySource { data: self.data.clone() }
    }
}

} // verus!

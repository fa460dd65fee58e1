//! The loaded binary buffer and its metadata. Reading a file from disk is
//! the caller's business; the buffer itself arrives as plain bytes.

use vstd::prelude::*;

verus! {

/// A loaded binary buffer with its origin and a modification flag.
#[derive(Debug)]
pub struct BinaryData {
    /// The raw bytes of the buffer.
    pub data: Vec<u8>,
    /// Path the buffer was loaded from, if any.
    pub file_path: Option<String>,
    /// Whether the data has been modified.
    pub modified: bool,
}

impl Default for BinaryData {
    /// An empty, unmodified buffer with no origin.
    fn default() -> (r: Self)
        ensures
            r.data@ == Seq::<u8>::empty(),
            r.file_path is None,
            !r.modified,
    {
        BinaryData { data: Vec::new(), file_path: None, modified: false }
    }
}

impl BinaryData {
    /// An empty, unmodified buffer with no origin.
    pub fn new() -> (r: Self)
        ensures
            r.data@ == Seq::<u8>::empty(),
            r.file_path is None,
            !r.modified,
    {
        Self::default()
    }

    /// Installs freshly read bytes and their origin, clearing the
    /// modification flag.
    pub fn load(&mut self, data: Vec<u8>, path: String)
        ensures
            final(self).data@ == data@,
            final(self).file_path == Some(path),
            !final(self).modified,
    {
        self.data = data;
        self.file_path = Some(path);
        self.modified = false;
    }

    /// A read-only view of the raw bytes.
    pub fn bytes(&self) -> (r: &[u8])
        ensures
            r@ == self.data@,
    {
        self.data.as_slice()
    }

    /// The path the buffer came from, if a file is loaded.
    pub fn file_path(&self) -> (r: Option<&String>)
        ensures
            r is Some <==> self.file_path is Some,
            r is Some ==> *r->0 == self.file_path->0,
    {
        self.file_path.as_ref()
    }

    /// Whether a buffer is loaded (that is, whether it is non-empty).
    pub fn is_loaded(&self) -> (r: bool)
        ensures
            r == (self.data@.len() != 0),
    {
        !self.data.is_empty()
    }

    /// The size of the loaded data in bytes.
    pub fn size(&self) -> (r: usize)
        ensures
            r == self.data@.len(),
    {
        self.data.len()
    }

    /// Whether the data has been modified.
    pub fn is_modified(&self) -> (r: bool)
        ensures
            r == self.modified,
    {
        self.modified
    }

    /// Discards the loaded data and its origin.
    pub fn clear(&mut self)
        ensures
            final(self).data@ == Seq::<u8>::empty(),
            final(self).file_path is None,
            !final(self).modified,
    {
        self.data.clear();
        self.file_path = None;
        self.modified = false;
    }
}

} // verus!

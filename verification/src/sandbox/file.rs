//! Handles to sandbox-resident files.

use vstd::prelude::*;

verus! {

/// An owned reference to a sandbox-side file, identified by an opaque id.
/// The judging core tracks handles by value; issuing the uploads, reads and
/// deletes they stand for is the caller's part.
#[derive(Clone, Debug)]
pub struct FileHandle {
    id: String,
}

impl FileHandle {
    /// Adopts a sandbox-produced file id.
    pub fn from_id(id: String) -> (r: FileHandle)
        ensures
            r.spec_id() == id@,
    {
        FileHandle { id }
    }

    /// The id of the sandbox-side file this handle refers to.
    pub fn id(&self) -> (r: &String)
        ensures
            r@ == self.spec_id(),
    {
        &self.id
    }

    /// Another handle to the same sandbox file.
    pub fn share(&self) -> (r: FileHandle)
        ensures
            r.spec_id() == self.spec_id(),
    {
        FileHandle { id: self.id.clone() }
    }

    /// The id, viewed as a character sequence.
    pub closed spec fn spec_id(&self) -> Seq<char> {
        self.id@
    }
}

/// Error returned when a sandbox file cannot be fetched because its id is
/// unknown to the sandbox.
#[derive(Clone, Debug)]
pub struct FileGetError {
    pub id: String,
}

} // verus!

//! Workflow input files: bytes held in memory or borrowed from a built-in
//! pool.

use vstd::prelude::*;

use crate::builtin;

verus! {

/// Content of a workflow input file.
#[derive(Debug, Clone)]
pub enum File {
    /// Plain bytes.
    Memory(Vec<u8>),
    /// A reference into a built-in pool.
    Builtin(builtin::File),
}

impl File {
    /// The bytes this file holds.
    pub open spec fn spec_bytes(self) -> Seq<u8> {
        match self {
            File::Memory(m) => m@,
            File::Builtin(b) => b.content@,
        }
    }

    /// Materialises the file's content.
    pub fn as_bytes(&self) -> (r: &Vec<u8>)
        ensures
            r@ == self.spec_bytes(),
    {
        match self {
            File::Memory(m) => m,
            File::Builtin(b) => b.as_bytes(),
        }
    }

    /// Wraps a built-in pool reference.
    pub fn from_builtin(f: builtin::File) -> (r: File)
        ensures
            r == File::Builtin(f),
    {
        File::Builtin(f)
    }

    /// Wraps plain bytes.
    pub fn from_bytes(b: Vec<u8>) -> (r: File)
        ensures
            r == File::Memory(b),
    {
        File::Memory(b)
    }
}

} // verus!

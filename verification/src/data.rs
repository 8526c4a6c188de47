//! Input data providers: bytes held in memory or borrowed from a built-in
//! pool.

use vstd::prelude::*;

use crate::builtin;

verus! {

/// A source of file content.
#[derive(Debug, Clone)]
pub enum Provider {
    /// Plain bytes.
    Memory(Vec<u8>),
    /// A reference into a built-in pool.
    Builtin(builtin::File),
}

impl Provider {
    /// The bytes this provider denotes.
    pub open spec fn spec_bytes(self) -> Seq<u8> {
        match self {
            Provider::Memory(m) => m@,
            Provider::Builtin(b) => b.content@,
        }
    }

    /// Materialises the provider's content.
    pub fn as_bytes(&self) -> (r: &Vec<u8>)
        ensures
            r@ == self.spec_bytes(),
    {
        match self {
            Provider::Memory(m) => m,
            Provider::Builtin(b) => b.as_bytes(),
        }
    }

    /// Wraps a built-in pool reference.
    pub fn from_builtin(f: builtin::File) -> (r: Provider)
        ensures
            r == Provider::Builtin(f),
    {
        Provider::Builtin(f)
    }

    /// Wraps plain bytes.
    pub fn from_bytes(b: Vec<u8>) -> (r: Provider)
        ensures
            r == Provider::Memory(b),
    {
        Provider::Memory(b)
    }
}

} // verus!

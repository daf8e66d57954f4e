//! Blob objects: opaque file content.
use crate::error::GitError;
use crate::obj::{Obj, Type};
use vstd::prelude::*;

verus! {

/// A blob: file content with no further structure.
pub struct Blob {
    content: Vec<u8>,
}

impl Blob {
    /// A blob holding `content`.
    pub fn new(content: Vec<u8>) -> (r: Blob)
        ensures
            r.payload() == content@,
    {
        Blob { content }
    }
}

impl Obj for Blob {
    open spec fn kind(&self) -> Type {
        Type::Blob
    }

    closed spec fn payload(&self) -> Seq<u8> {
        self.content@
    }

    fn to_string(&self) -> (r: Result<String, GitError>) {
        crate::obj::render(Type::Blob, self.content.as_slice())
    }

    fn obj_type(&self) -> (r: Type) {
        Type::Blob
    }

    fn size(&self) -> (r: usize) {
        self.content.len()
    }

    fn content(&self) -> (r: &Vec<u8>) {
        &self.content
    }

    fn parent(&self) -> (r: Option<String>) {
        None
    }
}

} // verus!

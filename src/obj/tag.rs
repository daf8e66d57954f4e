//! Tag objects: kept opaque.
use crate::error::GitError;
use crate::obj::{Obj, Type};
use vstd::prelude::*;

verus! {

/// A tag: its payload is kept as it is.
pub struct Tag {
    content: Vec<u8>,
}

impl Tag {
    /// A tag with the given payload.
    pub fn new(content: Vec<u8>) -> (r: Tag)
        ensures
            r.payload() == content@,
    {
        Tag { content }
    }
}

impl Obj for Tag {
    open spec fn kind(&self) -> Type {
        Type::Tag
    }

    closed spec fn payload(&self) -> Seq<u8> {
        self.content@
    }

    fn to_string(&self) -> (r: Result<String, GitError>) {
        crate::obj::render(Type::Tag, self.content.as_slice())
    }

    fn obj_type(&self) -> (r: Type) {
        Type::Tag
    }

    fn size(&self) -> (r: usize) {
        self.content.len()
    }

    fn content(&self) -> (r: &Vec<u8>) {
        &self.content
    }

    fn parent(&self) -> (r: Option<String>) {
        None
    }
}

} // verus!

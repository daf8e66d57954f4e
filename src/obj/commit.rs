//! Commit objects: a text payload, one of whose lines may name a parent.
use crate::bytes::{find_byte, find_byte_in, range_equals, starts_with, NEWLINE};
use crate::obj::{Obj, Type};
use crate::error::GitError;
use crate::text::{lossy_string, opt_text, text_of};
use vstd::prelude::*;
use vstd::slice::slice_subrange;

verus! {

/// The token that opens a parent line: `"parent "`.
pub open spec fn parent_token() -> Seq<u8> {
    seq![112u8, 97u8, 114u8, 101u8, 110u8, 116u8, 32u8]
}

/// Where the line that starts `p` ends: its newline, or the end of `p`.
pub open spec fn line_end(p: Seq<u8>) -> int {
    match find_byte(p, NEWLINE) {
        Some(i) => i,
        None => p.len() as int,
    }
}

/// The address bytes of the first line of `p` that begins with `parent `:
/// the rest of that line.
pub open spec fn line_parent(p: Seq<u8>) -> Option<Seq<u8>>
    decreases p.len(),
{
    let end = line_end(p);
    if 0 <= end && starts_with(p.subrange(0, end), parent_token()) {
        Some(p.subrange(parent_token().len() as int, end))
    } else if 0 <= end < p.len() {
        line_parent(p.subrange(end + 1, p.len() as int))
    } else {
        None
    }
}

/// The parent address named by a commit payload, as text.
pub open spec fn parent_text(p: Seq<u8>) -> Option<Seq<char>> {
    match line_parent(p) {
        Some(b) => Some(text_of(b)),
        None => None,
    }
}

/// The parent address named by the first `parent ` line of a commit payload.
pub fn commit_parent(payload: &[u8]) -> (r: Option<String>)
    ensures
        opt_text(r) == parent_text(payload@),
{
    let token = vec![112u8, 97u8, 114u8, 101u8, 110u8, 116u8, 32u8];
    let mut pos: usize = 0;
    assert(payload@.subrange(0, payload@.len() as int) =~= payload@);
    while pos < payload.len()
        invariant
            pos <= payload@.len(),
            token@ == parent_token(),
            line_parent(payload@) == line_parent(
                payload@.subrange(pos as int, payload@.len() as int),
            ),
        decreases payload@.len() - pos,
    {
        let ghost q = payload@.subrange(pos as int, payload@.len() as int);
        let end = match find_byte_in(payload, NEWLINE, pos, payload.len()) {
            Some(i) => i,
            None => payload.len(),
        };
        assert(line_end(q) == end - pos);
        assert(q.subrange(0, end - pos) =~= payload@.subrange(pos as int, end as int));
        if end - pos >= 7 && range_equals(payload, pos, pos + 7, token.as_slice()) {
            assert(q.subrange(0, end - pos).subrange(0, 7) =~= payload@.subrange(
                pos as int,
                pos + 7,
            ));
            assert(q.subrange(7, end - pos) =~= payload@.subrange(pos + 7, end as int));
            return Some(lossy_string(slice_subrange(payload, pos + 7, end)));
        }
        proof {
            if end - pos >= 7 {
                assert(q.subrange(0, end - pos).subrange(0, 7) =~= payload@.subrange(
                    pos as int,
                    pos + 7,
                ));
            }
        }
        if end == payload.len() {
            return None;
        }
        assert(q.subrange(end - pos + 1, q.len() as int) =~= payload@.subrange(
            end + 1,
            payload@.len() as int,
        ));
        pos = end + 1;
    }
    None
}

/// A commit: its text payload, which names its parent in a `parent ` line.
pub struct Commit {
    content: Vec<u8>,
}

impl Commit {
    /// A commit with the given payload.
    pub fn new(content: Vec<u8>) -> (r: Commit)
        ensures
            r.payload() == content@,
    {
        Commit { content }
    }
}

impl Obj for Commit {
    open spec fn kind(&self) -> Type {
        Type::Commit
    }

    closed spec fn payload(&self) -> Seq<u8> {
        self.content@
    }

    fn to_string(&self) -> (r: Result<String, GitError>) {
        crate::obj::render(Type::Commit, self.content.as_slice())
    }

    fn obj_type(&self) -> (r: Type) {
        Type::Commit
    }

    fn size(&self) -> (r: usize) {
        self.content.len()
    }

    fn content(&self) -> (r: &Vec<u8>) {
        &self.content
    }

    fn parent(&self) -> (r: Option<String>) {
        commit_parent(self.content.as_slice())
    }
}

} // verus!

//! The object model: the four kinds of object, their loose encoding
//! `"<kind> <length>\0<payload>"`, and what each kind renders as.
use crate::bytes::{
    decimal, find_byte, find_byte_in, lemma_decimal_digits, lemma_find_byte, lemma_find_byte_at,
    push_decimal,
    range_equals, SPACE,
};
use crate::error::GitError;
use crate::hashing::{hex_chars, hex_string, is_hex_text, lemma_hex_chars, sha1_digest, sha1_of};
use crate::text::{lossy_string, opt_text, text_of};
use vstd::prelude::*;
use vstd::slice::{slice_subrange, slice_to_vec};

pub mod blob;
pub mod commit;
pub mod tag;
pub mod tree;

pub use blob::Blob;
pub use commit::Commit;
pub use tag::Tag;
pub use tree::Tree;

use commit::parent_text;
use tree::{listing, parse_entries, parse_tree, tree_listing};

verus! {

/// The kind of an object, named by the first token of its header.
#[derive(Debug, Clone, Copy, PartialEq, Eq, Structural)]
pub enum Type {
    Blob,
    Tree,
    Commit,
    Tag,
}

/// The header token of each kind.
pub open spec fn kind_word(k: Type) -> Seq<u8> {
    match k {
        Type::Blob => seq![98u8, 108u8, 111u8, 98u8],
        Type::Tree => seq![116u8, 114u8, 101u8, 101u8],
        Type::Commit => seq![99u8, 111u8, 109u8, 109u8, 105u8, 116u8],
        Type::Tag => seq![116u8, 97u8, 103u8],
    }
}

/// The kind whose header token is `w`, if any.
pub open spec fn kind_of_word(w: Seq<u8>) -> Option<Type> {
    if w == kind_word(Type::Blob) {
        Some(Type::Blob)
    } else if w == kind_word(Type::Tree) {
        Some(Type::Tree)
    } else if w == kind_word(Type::Commit) {
        Some(Type::Commit)
    } else if w == kind_word(Type::Tag) {
        Some(Type::Tag)
    } else {
        None
    }
}

/// The name of each kind, as text.
pub open spec fn kind_name(k: Type) -> Seq<char> {
    match k {
        Type::Blob => seq!['b', 'l', 'o', 'b'],
        Type::Tree => seq!['t', 'r', 'e', 'e'],
        Type::Commit => seq!['c', 'o', 'm', 'm', 'i', 't'],
        Type::Tag => seq!['t', 'a', 'g'],
    }
}

impl Type {
    /// The name of the kind, as it appears in object headers.
    pub fn name(&self) -> (r: &'static str)
        ensures
            r@ == kind_name(*self),
    {
        match self {
            Type::Blob => {
                proof {
                    reveal_strlit("blob");
                }
                "blob"
            },
            Type::Tree => {
                proof {
                    reveal_strlit("tree");
                }
                "tree"
            },
            Type::Commit => {
                proof {
                    reveal_strlit("commit");
                }
                "commit"
            },
            Type::Tag => {
                proof {
                    reveal_strlit("tag");
                }
                "tag"
            },
        }
    }
}

/// The header token of `k`.
pub fn kind_bytes(k: Type) -> (r: Vec<u8>)
    ensures
        r@ == kind_word(k),
{
    match k {
        Type::Blob => vec![98u8, 108u8, 111u8, 98u8],
        Type::Tree => vec![116u8, 114u8, 101u8, 101u8],
        Type::Commit => vec![99u8, 111u8, 109u8, 109u8, 105u8, 116u8],
        Type::Tag => vec![116u8, 97u8, 103u8],
    }
}

/// The loose encoding of an object: header, then payload.
pub open spec fn encode_spec(k: Type, p: Seq<u8>) -> Seq<u8> {
    kind_word(k) + seq![SPACE] + decimal(p.len()) + seq![0u8] + p
}

/// What decoding yields for `raw`: the kind and payload, or the error.
pub open spec fn decode_spec(raw: Seq<u8>) -> Result<(Type, Seq<u8>), GitError> {
    match find_byte(raw, 0) {
        None => Err(GitError::MalformedHeader),
        Some(nul) => {
            let header = raw.subrange(0, nul);
            match find_byte(header, SPACE) {
                None => Err(GitError::MalformedHeader),
                Some(sp) => {
                    let payload = raw.subrange(nul + 1, raw.len() as int);
                    match kind_of_word(header.subrange(0, sp)) {
                        None => Err(GitError::UnknownObjectKind),
                        Some(k) => {
                            if header.subrange(sp + 1, nul) == decimal(payload.len()) {
                                Ok((k, payload))
                            } else {
                                Err(GitError::MalformedHeader)
                            }
                        },
                    }
                },
            }
        },
    }
}

/// The content address of an object: the hex spelling of the digest of
/// its whole encoding, header included.
pub open spec fn object_address(k: Type, p: Seq<u8>) -> Seq<char> {
    hex_chars(sha1_of(encode_spec(k, p)))
}

/// Encodes an object as `"<kind> <length>\0<payload>"`.
pub fn encode_object(k: Type, payload: &[u8]) -> (r: Vec<u8>)
    requires
        encode_spec(k, payload@).len() <= usize::MAX,
    ensures
        r@ == encode_spec(k, payload@),
{
    let mut out = kind_bytes(k);
    out.push(SPACE);
    push_decimal(&mut out, payload.len());
    out.push(0u8);
    out.extend_from_slice(payload);
    assert(out@ =~= encode_spec(k, payload@));
    out
}

/// Splits encoded bytes into kind and payload, checking the header.
pub fn decode_object(raw: &[u8]) -> (r: Result<(Type, Vec<u8>), GitError>)
    ensures
        match decode_spec(raw@) {
            Ok((k, p)) => r matches Ok((k2, v)) && k2 == k && v@ == p,
            Err(e) => r matches Err(e2) && e2 == e,
        },
{
    let nul = match find_byte_in(raw, 0, 0, raw.len()) {
        None => {
            assert(raw@.subrange(0, raw@.len() as int) =~= raw@);
            return Err(GitError::MalformedHeader);
        },
        Some(i) => i,
    };
    assert(raw@.subrange(0, raw@.len() as int) =~= raw@);
    assert(find_byte(raw@, 0) == Some(nul as int));
    let ghost header = raw@.subrange(0, nul as int);
    let sp = match find_byte_in(raw, SPACE, 0, nul) {
        None => {
            return Err(GitError::MalformedHeader);
        },
        Some(i) => i,
    };
    assert(find_byte(header, SPACE) == Some(sp as int));
    assert(header.subrange(0, sp as int) =~= raw@.subrange(0, sp as int));
    assert(header.subrange(sp + 1, nul as int) =~= raw@.subrange(sp + 1, nul as int));
    let k = if range_equals(raw, 0, sp, kind_bytes(Type::Blob).as_slice()) {
        Type::Blob
    } else if range_equals(raw, 0, sp, kind_bytes(Type::Tree).as_slice()) {
        Type::Tree
    } else if range_equals(raw, 0, sp, kind_bytes(Type::Commit).as_slice()) {
        Type::Commit
    } else if range_equals(raw, 0, sp, kind_bytes(Type::Tag).as_slice()) {
        Type::Tag
    } else {
        return Err(GitError::UnknownObjectKind);
    };
    let mut len_text: Vec<u8> = Vec::new();
    push_decimal(&mut len_text, raw.len() - nul - 1);
    assert(len_text@ =~= decimal((raw@.len() - nul - 1) as nat));
    if !range_equals(raw, sp + 1, nul, len_text.as_slice()) {
        return Err(GitError::MalformedHeader);
    }
    let payload = slice_to_vec(slice_subrange(raw, nul + 1, raw.len()));
    Ok((k, payload))
}

/// Round trip: decoding the encoding of any payload under any kind gives
/// back that kind and that payload.
pub proof fn lemma_decode_encode(k: Type, p: Seq<u8>)
    ensures
        decode_spec(encode_spec(k, p)) == Ok::<(Type, Seq<u8>), GitError>((k, p)),
{
    let w = kind_word(k);
    let d = decimal(p.len());
    let e = encode_spec(k, p);
    lemma_decimal_digits(p.len());
    let nul = (w.len() + 1 + d.len()) as int;
    assert(e[nul] == 0u8);
    assert forall|j: int| 0 <= j < nul implies e[j] != 0u8 by {
        if j < w.len() {
            assert(e[j] == w[j]);
        } else if j > w.len() {
            assert(e[j] == d[j - w.len() - 1]);
        }
    }
    lemma_find_byte_at(e, 0u8, nul);
    let header = e.subrange(0, nul);
    assert(header =~= w + seq![SPACE] + d);
    assert(header[w.len() as int] == SPACE);
    assert forall|j: int| 0 <= j < w.len() implies header[j] != SPACE by {
        assert(header[j] == w[j]);
    }
    lemma_find_byte_at(header, SPACE, w.len() as int);
    assert(header.subrange(0, w.len() as int) =~= w);
    assert(header.subrange(w.len() + 1 as int, nul) =~= d);
    assert(e.subrange(nul + 1, e.len() as int) =~= p);
}

/// What an object of kind `k` with payload `p` renders as: the listing of a
/// tree, the payload as text for the other kinds; `None` for a tree whose
/// payload breaks the entry grammar.
pub open spec fn rendered(k: Type, p: Seq<u8>) -> Option<Seq<char>> {
    match k {
        Type::Tree => match parse_entries(p) {
            Some(es) => Some(text_of(listing(es))),
            None => None,
        },
        _ => Some(text_of(p)),
    }
}

/// The parent that an object names: only commits name one.
pub open spec fn parent_spec(k: Type, p: Seq<u8>) -> Option<Seq<char>> {
    if k == Type::Commit {
        parent_text(p)
    } else {
        None
    }
}

/// Renders an object of kind `k` for display.
pub fn render(k: Type, payload: &[u8]) -> (r: Result<String, GitError>)
    ensures
        match rendered(k, payload@) {
            Some(t) => r matches Ok(s) && s@ == t,
            None => r matches Err(e) && e == GitError::MalformedTree,
        },
{
    match k {
        Type::Tree => match parse_tree(payload) {
            Some(entries) => {
                let text = tree_listing(&entries);
                Ok(lossy_string(text.as_slice()))
            },
            None => Err(GitError::MalformedTree),
        },
        _ => Ok(lossy_string(payload)),
    }
}

/// What every kind of object offers.
pub trait Obj {
    /// The kind of the object.
    spec fn kind(&self) -> Type;

    /// The payload of the object, without header.
    spec fn payload(&self) -> Seq<u8>;

    /// The object rendered for display.
    fn to_string(&self) -> (r: Result<String, GitError>)
        ensures
            match rendered(self.kind(), self.payload()) {
                Some(t) => r matches Ok(s) && s@ == t,
                None => r matches Err(e) && e == GitError::MalformedTree,
            },
    ;

    /// The kind of the object.
    fn obj_type(&self) -> (r: Type)
        ensures
            r == self.kind(),
    ;

    /// The length of the payload in bytes.
    fn size(&self) -> (r: usize)
        ensures
            r == self.payload().len(),
    ;

    /// The payload.
    fn content(&self) -> (r: &Vec<u8>)
        ensures
            r@ == self.payload(),
    ;

    /// The content address of the object and its full encoding.
    fn hash(&self) -> (r: (String, Vec<u8>))
        requires
            encode_spec(self.kind(), self.payload()).len() <= usize::MAX,
        ensures
            r.1@ == encode_spec(self.kind(), self.payload()),
            r.0@ == object_address(self.kind(), self.payload()),
            r.0@.len() == 40,
            is_hex_text(r.0@),
    {
        let data = encode_object(self.obj_type(), self.content().as_slice());
        let digest = sha1_digest(data.as_slice());
        proof {
            lemma_hex_chars(digest@);
        }
        (hex_string(digest.as_slice()), data)
    }

    /// The address of the parent commit, for a commit that names one.
    fn parent(&self) -> (r: Option<String>)
        ensures
            opt_text(r) == parent_spec(self.kind(), self.payload()),
    ;
}

/// A decoded object of any kind.
pub enum Object {
    Blob(Blob),
    Tree(Tree),
    Commit(Commit),
    Tag(Tag),
}

impl Obj for Object {
    open spec fn kind(&self) -> Type {
        match self {
            Object::Blob(o) => o.kind(),
            Object::Tree(o) => o.kind(),
            Object::Commit(o) => o.kind(),
            Object::Tag(o) => o.kind(),
        }
    }

    open spec fn payload(&self) -> Seq<u8> {
        match self {
            Object::Blob(o) => o.payload(),
            Object::Tree(o) => o.payload(),
            Object::Commit(o) => o.payload(),
            Object::Tag(o) => o.payload(),
        }
    }

    fn to_string(&self) -> (r: Result<String, GitError>) {
        match self {
            Object::Blob(o) => o.to_string(),
            Object::Tree(o) => o.to_string(),
            Object::Commit(o) => o.to_string(),
            Object::Tag(o) => o.to_string(),
        }
    }

    fn obj_type(&self) -> (r: Type) {
        match self {
            Object::Blob(o) => o.obj_type(),
            Object::Tree(o) => o.obj_type(),
            Object::Commit(o) => o.obj_type(),
            Object::Tag(o) => o.obj_type(),
        }
    }

    fn size(&self) -> (r: usize) {
        match self {
            Object::Blob(o) => o.size(),
            Object::Tree(o) => o.size(),
            Object::Commit(o) => o.size(),
            Object::Tag(o) => o.size(),
        }
    }

    fn content(&self) -> (r: &Vec<u8>) {
        match self {
            Object::Blob(o) => o.content(),
            Object::Tree(o) => o.content(),
            Object::Commit(o) => o.content(),
            Object::Tag(o) => o.content(),
        }
    }

    fn parent(&self) -> (r: Option<String>) {
        match self {
            Object::Blob(o) => o.parent(),
            Object::Tree(o) => o.parent(),
            Object::Commit(o) => o.parent(),
            Object::Tag(o) => o.parent(),
        }
    }
}

impl Object {
    /// Decodes the loose encoding of an object into an object of its kind.
    pub fn new(raw_data: Vec<u8>) -> (r: Result<Object, GitError>)
        ensures
            match decode_spec(raw_data@) {
                Ok((k, p)) => r matches Ok(o) && o.kind() == k && o.payload() == p,
                Err(e) => r matches Err(e2) && e2 == e,
            },
    {
        match decode_object(raw_data.as_slice()) {
            Ok((Type::Blob, payload)) => Ok(Object::Blob(Blob::new(payload))),
            Ok((Type::Tree, payload)) => Ok(Object::Tree(Tree::new(payload))),
            Ok((Type::Commit, payload)) => Ok(Object::Commit(Commit::new(payload))),
            Ok((Type::Tag, payload)) => Ok(Object::Tag(Tag::new(payload))),
            Err(e) => Err(e),
        }
    }
}

/// Decodes the loose encoding of an object into an object of its kind.
pub fn new_obj(raw_data: Vec<u8>) -> (r: Result<Object, GitError>)
    ensures
        match decode_spec(raw_data@) {
            Ok((k, p)) => r matches Ok(o) && o.kind() == k && o.payload() == p,
            Err(e) => r matches Err(e2) && e2 == e,
        },
{
    Object::new(raw_data)
}

/// Content addressing is deterministic: the encoding, and so the address,
/// is a function of kind and payload alone, and two encodings are equal
/// exactly when their kinds and payloads are.
pub proof fn lemma_address_deterministic(k1: Type, p1: Seq<u8>, k2: Type, p2: Seq<u8>)
    ensures
        (k1 == k2 && p1 == p2) ==> object_address(k1, p1) == object_address(k2, p2),
        (encode_spec(k1, p1) == encode_spec(k2, p2)) <==> (k1 == k2 && p1 == p2),
{
    lemma_decode_encode(k1, p1);
    lemma_decode_encode(k2, p2);
}

/// Encodings are canonical: bytes that decode are exactly the encoding of
/// the kind and payload they decode to, so re-encoding a decoded object
/// gives back the bytes it was read from.
pub proof fn lemma_encode_decode(raw: Seq<u8>)
    ensures
        decode_spec(raw) matches Ok((k, p)) ==> encode_spec(k, p) == raw,
{
    if let Ok((k, p)) = decode_spec(raw) {
        lemma_find_byte(raw, 0);
        let nul = find_byte(raw, 0)->0;
        let header = raw.subrange(0, nul);
        lemma_find_byte(header, SPACE);
        let sp = find_byte(header, SPACE)->0;
        assert(header.subrange(0, sp) == kind_word(k));
        assert(header[sp] == SPACE);
        assert(raw[nul] == 0u8);
        assert(raw =~= header.subrange(0, sp) + seq![SPACE] + header.subrange(sp + 1, nul) + seq![
            0u8,
        ] + raw.subrange(nul + 1, raw.len() as int));
    }
}

} // verus!

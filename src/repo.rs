//! The object store of a repository: where loose objects live, how an
//! address or an abbreviated address finds one, and what writing one does.
use crate::codec::{compress, decompress, inflate_of, zlib_of};
use crate::error::GitError;
use crate::hashing::is_hex_text;
use crate::obj::{decode_spec, encode_spec, lemma_decode_encode, new_obj, Obj, Object, Type};
use crate::text::{is_hex_str, str_starts_with, text_starts_with};
use vstd::prelude::*;

verus! {

/// Length of a full address in hex digits.
pub const ADDRESS_LEN: usize = 40;

/// The shortest abbreviated address that lookups accept.
pub const MIN_PREFIX_LEN: usize = 4;

/// A full address: forty lowercase hex digits.
pub open spec fn is_address(a: Seq<char>) -> bool {
    a.len() == ADDRESS_LEN && is_hex_text(a)
}

/// An abbreviated address: at least four lowercase hex digits, fewer than forty.
pub open spec fn is_prefix(a: Seq<char>) -> bool {
    MIN_PREFIX_LEN <= a.len() < ADDRESS_LEN && is_hex_text(a)
}

/// The store directory under the repository root: `/.git`.
pub open spec fn dot_git() -> Seq<char> {
    seq!['/', '.', 'g', 'i', 't']
}

/// The objects directory below the store root, with separators: `/objects/`.
pub open spec fn objects_part() -> Seq<char> {
    seq!['/', 'o', 'b', 'j', 'e', 'c', 't', 's', '/']
}

/// The directory of the objects whose address begins as `a` does.
pub open spec fn object_dir(root: Seq<char>, a: Seq<char>) -> Seq<char> {
    root + objects_part() + a.subrange(0, 2)
}

/// The file of the object at address `a`: `<root>/objects/<a[0:2]>/<a[2:]>`.
pub open spec fn object_file(root: Seq<char>, a: Seq<char>) -> Seq<char> {
    object_dir(root, a) + seq!['/'] + a.subrange(2, a.len() as int)
}

/// A repository, known by the path of its store root (the `.git` directory).
pub struct Repo {
    git_dir: String,
}

impl View for Repo {
    type V = Seq<char>;

    closed spec fn view(&self) -> Seq<char> {
        self.git_dir@
    }
}

/// Where an object is looked for.
pub enum ObjLocation {
    /// The file of a full address.
    File(String),
    /// A directory to scan for a file whose name begins with `rest`.
    Scan { dir: String, rest: String },
}

/// What writing an object file takes: the directory to create if absent, and
/// the file to create with `data` if absent.
pub struct WritePlan {
    pub dir: String,
    pub path: String,
    pub data: Vec<u8>,
}

/// A store's files by path, after an object file is written: the file is
/// created when absent, and an existing file at that path is left untouched.
pub open spec fn store_write(files: Map<Seq<char>, Seq<u8>>, path: Seq<char>, bytes: Seq<u8>) -> Map<
    Seq<char>,
    Seq<u8>,
> {
    if files.contains_key(path) {
        files
    } else {
        files.insert(path, bytes)
    }
}

impl WritePlan {
    /// The files of a store once the plan is carried out, as the caller does
    /// it: the directory and the object file are created only when absent.
    pub open spec fn applied(&self, files: Map<Seq<char>, Seq<u8>>) -> Map<Seq<char>, Seq<u8>> {
        store_write(files, self.path@, self.data@)
    }
}

impl Repo {
    /// The repository whose working directory is `path`; its store root is
    /// `<path>/.git`.
    pub fn new(path: String) -> (r: Repo)
        ensures
            r@ == path@ + dot_git(),
    {
        let mut git_dir = path;
        proof {
            reveal_strlit("/.git");
        }
        git_dir.append("/.git");
        Repo { git_dir }
    }

    /// The path of the store root.
    pub fn git_dir(&self) -> (r: &String)
        ensures
            r@ == self@,
    {
        &self.git_dir
    }

    /// The directory of the objects whose address begins as `a` does.
    fn object_dir_path(&self, a: &str) -> (r: String)
        requires
            a@.len() >= 2,
        ensures
            r@ == object_dir(self@, a@),
    {
        let mut s = self.git_dir.clone();
        proof {
            reveal_strlit("/objects/");
        }
        s.append("/objects/");
        s.append(a.substring_char(0, 2));
        s
    }

    /// Where the object named by a full or abbreviated address is looked for.
    pub fn locate_obj(&self, obj_sha: &str) -> (r: Result<ObjLocation, GitError>)
        ensures
            is_address(obj_sha@) ==> (r matches Ok(ObjLocation::File(p)) && p@ == object_file(
                self@,
                obj_sha@,
            )),
            is_prefix(obj_sha@) ==> (r matches Ok(ObjLocation::Scan { dir, rest }) && dir@
                == object_dir(self@, obj_sha@) && rest@ == obj_sha@.subrange(
                2,
                obj_sha@.len() as int,
            )),
            !is_address(obj_sha@) && !is_prefix(obj_sha@) ==> (r matches Err(e) && e
                == GitError::InvalidAddress),
    {
        let n = obj_sha.unicode_len();
        if n < MIN_PREFIX_LEN || n > ADDRESS_LEN || !is_hex_str(obj_sha) {
            return Err(GitError::InvalidAddress);
        }
        let dir = self.object_dir_path(obj_sha);
        let rest = obj_sha.substring_char(2, n);
        if n == ADDRESS_LEN {
            let mut path = dir;
            proof {
                reveal_strlit("/");
            }
            path.append("/");
            path.append(rest);
            Ok(ObjLocation::File(path))
        } else {
            Ok(ObjLocation::Scan { dir, rest: String::from_str(rest) })
        }
    }

    /// How to store the encoded object `data` at the full address `obj_sha`:
    /// its directory, its file, and the compressed bytes the file holds.
    pub fn plan_write(&self, obj_sha: &str, data: &Vec<u8>) -> (r: Result<WritePlan, GitError>)
        ensures
            !is_address(obj_sha@) ==> (r matches Err(e) && e == GitError::InvalidAddress),
            is_address(obj_sha@) ==> (r matches Ok(plan) && plan.dir@ == object_dir(self@, obj_sha@)
                && plan.path@ == object_file(self@, obj_sha@) && plan.data@ == zlib_of(data@)
                && inflate_of(plan.data@) == Some(data@)),
    {
        let n = obj_sha.unicode_len();
        if n != ADDRESS_LEN || !is_hex_str(obj_sha) {
            return Err(GitError::InvalidAddress);
        }
        let dir = self.object_dir_path(obj_sha);
        let mut path = dir.clone();
        proof {
            reveal_strlit("/");
        }
        path.append("/");
        path.append(obj_sha.substring_char(2, n));
        let z = compress(data.as_slice())?;
        Ok(WritePlan { dir, path, data: z })
    }
}

/// Loads an object from the bytes of its file: inflates them, then decodes.
pub fn load_obj(file: &[u8]) -> (r: Result<Object, GitError>)
    ensures
        match inflate_of(file@) {
            None => r matches Err(e) && e == GitError::CorruptStream,
            Some(raw) => match decode_spec(raw) {
                Ok((k, p)) => r matches Ok(o) && o.kind() == k && o.payload() == p,
                Err(e) => r matches Err(e2) && e2 == e,
            },
        },
{
    let raw = decompress(file)?;
    new_obj(raw)
}

/// The texts of a list of names.
pub open spec fn name_views(v: Seq<String>) -> Seq<Seq<char>> {
    v.map_values(|s: String| s@)
}

/// How many of `names` begin with `rest`.
pub open spec fn match_count(names: Seq<Seq<char>>, rest: Seq<char>) -> nat
    decreases names.len(),
{
    if names.len() == 0 {
        0
    } else {
        match_count(names.drop_last(), rest) + if text_starts_with(names.last(), rest) {
            1nat
        } else {
            0nat
        }
    }
}

/// Picks the one name that begins with `rest`: `NotFound` when none does,
/// `AmbiguousPrefix` when several do.
pub fn select_prefix(names: &Vec<String>, rest: &str) -> (r: Result<String, GitError>)
    ensures
        match_count(name_views(names@), rest@) == 0 ==> (r matches Err(e) && e
            == GitError::NotFound),
        match_count(name_views(names@), rest@) == 1 ==> (r matches Ok(s) && exists|i: int|
            0 <= i < names@.len() && text_starts_with(#[trigger] names@[i]@, rest@) && s@
                == names@[i]@),
        match_count(name_views(names@), rest@) >= 2 ==> (r matches Err(e) && e
            == GitError::AmbiguousPrefix),
{
    let mut count: usize = 0;
    let mut found: usize = 0;
    let mut i: usize = 0;
    while i < names.len()
        invariant
            i <= names@.len(),
            count <= i,
            count == match_count(name_views(names@).subrange(0, i as int), rest@),
            count >= 1 ==> found < i && text_starts_with(names@[found as int]@, rest@),
        decreases names@.len() - i,
    {
        let m = str_starts_with(names[i].as_str(), rest);
        proof {
            let pre = name_views(names@).subrange(0, i + 1);
            assert(pre.drop_last() =~= name_views(names@).subrange(0, i as int));
            assert(pre.last() == names@[i as int]@);
        }
        if m {
            if count == 0 {
                found = i;
            }
            count = count + 1;
        }
        i = i + 1;
    }
    assert(name_views(names@).subrange(0, i as int) =~= name_views(names@));
    if count == 0 {
        Err(GitError::NotFound)
    } else if count == 1 {
        Ok(names[found].clone())
    } else {
        Err(GitError::AmbiguousPrefix)
    }
}

/// Writing is idempotent: carrying out the plans that two calls of
/// `plan_write` with the same store root, address and data make (both are
/// the plan its contract fixes) leaves the files as carrying out one does.
pub proof fn lemma_write_idempotent(
    files: Map<Seq<char>, Seq<u8>>,
    root: Seq<char>,
    address: Seq<char>,
    data: Seq<u8>,
    first: WritePlan,
    second: WritePlan,
)
    requires
        first.path@ == object_file(root, address),
        first.data@ == zlib_of(data),
        second.path@ == object_file(root, address),
        second.data@ == zlib_of(data),
    ensures
        second.applied(first.applied(files)) == first.applied(files),
        first.applied(files).contains_key(object_file(root, address)),
{
}

/// Two distinct names that begin with `rest` make the count at least two.
proof fn lemma_two_matches(names: Seq<Seq<char>>, rest: Seq<char>, i: int, j: int)
    requires
        0 <= i < names.len(),
        0 <= j < names.len(),
        i != j,
        text_starts_with(names[i], rest),
        text_starts_with(names[j], rest),
    ensures
        match_count(names, rest) >= 2,
    decreases names.len(),
{
    let last = names.len() - 1;
    if i != last && j != last {
        lemma_two_matches(names.drop_last(), rest, i, j);
    } else {
        let k = if i == last {
            j
        } else {
            i
        };
        lemma_one_match_at_least(names.drop_last(), rest, k);
    }
}

/// A name that begins with `rest` makes the count at least one.
proof fn lemma_one_match_at_least(names: Seq<Seq<char>>, rest: Seq<char>, i: int)
    requires
        0 <= i < names.len(),
        text_starts_with(names[i], rest),
    ensures
        match_count(names, rest) >= 1,
    decreases names.len(),
{
    if i != names.len() - 1 {
        lemma_one_match_at_least(names.drop_last(), rest, i);
    }
}

/// When only the name at `i` begins with `rest`, the count is one.
proof fn lemma_only_match(names: Seq<Seq<char>>, rest: Seq<char>, i: int)
    requires
        0 <= i < names.len(),
        text_starts_with(names[i], rest),
        forall|j: int| 0 <= j < names.len() && text_starts_with(#[trigger] names[j], rest) ==> j == i,
    ensures
        match_count(names, rest) == 1,
    decreases names.len(),
{
    let last = names.len() - 1;
    let pre = names.drop_last();
    if i == last {
        lemma_no_match(pre, rest);
    } else {
        assert forall|j: int| 0 <= j < pre.len() && text_starts_with(#[trigger] pre[j], rest) implies j == i by {
            assert(pre[j] == names[j]);
        }
        lemma_only_match(pre, rest, i);
    }
}

/// When no name begins with `rest`, the count is zero.
proof fn lemma_no_match(names: Seq<Seq<char>>, rest: Seq<char>)
    requires
        forall|j: int| 0 <= j < names.len() ==> !text_starts_with(#[trigger] names[j], rest),
    ensures
        match_count(names, rest) == 0,
    decreases names.len(),
{
    if names.len() > 0 {
        let pre = names.drop_last();
        assert forall|j: int| 0 <= j < pre.len() implies !text_starts_with(#[trigger] pre[j], rest) by {
            assert(pre[j] == names[j]);
        }
        lemma_no_match(pre, rest);
    }
}

/// Prefix resolution is unique: when two distinct names of a directory
/// begin with the rest of an abbreviated address, the lookup is ambiguous;
/// when exactly one does, the lookup picks it.
pub proof fn lemma_prefix_resolution(names: Seq<Seq<char>>, rest: Seq<char>)
    ensures
        (exists|i: int, j: int|
            0 <= i < names.len() && 0 <= j < names.len() && i != j && text_starts_with(
                #[trigger] names[i],
                rest,
            ) && text_starts_with(#[trigger] names[j], rest)) ==> match_count(names, rest) >= 2,
        forall|i: int|
            0 <= i < names.len() && text_starts_with(#[trigger] names[i], rest) && (forall|j: int|
                0 <= j < names.len() && text_starts_with(#[trigger] names[j], rest) ==> j == i)
                ==> match_count(names, rest) == 1,
        match_count(names, rest) == 1 ==> forall|i: int, j: int|
            0 <= i < names.len() && 0 <= j < names.len() && text_starts_with(
                #[trigger] names[i],
                rest,
            ) && text_starts_with(#[trigger] names[j], rest) ==> i == j,
{
    if exists|i: int, j: int|
        0 <= i < names.len() && 0 <= j < names.len() && i != j && text_starts_with(
            #[trigger] names[i],
            rest,
        ) && text_starts_with(#[trigger] names[j], rest) {
        let (i, j) = choose|i: int, j: int|
            0 <= i < names.len() && 0 <= j < names.len() && i != j && text_starts_with(
                #[trigger] names[i],
                rest,
            ) && text_starts_with(#[trigger] names[j], rest);
        lemma_two_matches(names, rest, i, j);
    }
    assert forall|i: int|
        0 <= i < names.len() && text_starts_with(#[trigger] names[i], rest) && (forall|j: int|
            0 <= j < names.len() && text_starts_with(#[trigger] names[j], rest) ==> j == i)
        implies match_count(names, rest) == 1 by {
        lemma_only_match(names, rest, i);
    }
    assert forall|i: int, j: int|
        match_count(names, rest) == 1 && 0 <= i < names.len() && 0 <= j < names.len()
            && text_starts_with(#[trigger] names[i], rest) && text_starts_with(
            #[trigger] names[j],
            rest,
        ) implies i == j by {
        if i != j {
            lemma_two_matches(names, rest, i, j);
        }
    }
}

/// Writing then reading: the file that `plan_write` makes for the encoding
/// of an object inflates back to that encoding, so `load_obj` on it gives
/// back the object's kind and payload.
pub proof fn lemma_write_then_read(k: Type, p: Seq<u8>, stored: Seq<u8>)
    requires
        inflate_of(stored) == Some(encode_spec(k, p)),
    ensures
        inflate_of(stored) matches Some(raw) && decode_spec(raw) == Ok::<(Type, Seq<u8>), GitError>(
            (k, p),
        ),
{
    lemma_decode_encode(k, p);
}

} // verus!

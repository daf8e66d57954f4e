//! References: named files holding either `ref: <path>` (symbolic) or an
//! address. Resolution follows symbolic references one file at a time; the
//! caller reads each file the walk asks for and hands its content back.
use crate::bytes::{range_equals, starts_with, trim_end, trimmed_end};
use crate::error::GitError;
use crate::repo::Repo;
use crate::text::{lossy_string, text_of};
use vstd::prelude::*;
use vstd::slice::slice_subrange;

verus! {

/// How many symbolic references a resolution follows before it gives up.
pub const MAX_REF_DEPTH: usize = 10;

/// The prefix of a symbolic reference: `"ref: "`.
pub open spec fn ref_token() -> Seq<u8> {
    seq![114u8, 101u8, 102u8, 58u8, 32u8]
}

/// The path a symbolic reference points to; `None` for a direct one.
pub open spec fn ref_target(content: Seq<u8>) -> Option<Seq<char>> {
    if starts_with(content, ref_token()) {
        Some(text_of(trim_end(content.subrange(5, content.len() as int))))
    } else {
        None
    }
}

/// The address a direct reference holds.
pub open spec fn ref_value(content: Seq<u8>) -> Seq<char> {
    text_of(trim_end(content))
}

/// The result of resolving `name` among `files` (reference files by path
/// relative to the store root), following at most `hops` symbolic references.
pub open spec fn resolve(files: Map<Seq<char>, Seq<u8>>, name: Seq<char>, hops: nat) -> Result<
    Seq<char>,
    GitError,
>
    decreases hops,
{
    if !files.contains_key(name) {
        Err(GitError::NotFound)
    } else {
        match ref_target(files[name]) {
            Some(t) => if hops == 0 {
                Err(GitError::RefLoop)
            } else {
                resolve(files, t, (hops - 1) as nat)
            },
            None => Ok(ref_value(files[name])),
        }
    }
}

/// The name of the head reference: `HEAD`.
pub open spec fn head_name() -> Seq<char> {
    seq!['H', 'E', 'A', 'D']
}

/// A resolution in progress: the reference file to read next, and how many
/// more symbolic references it may follow.
pub struct RefWalk {
    root: String,
    current: String,
    hops_left: usize,
}

/// What a resolution asks for after it has been handed a file.
pub enum RefStep {
    /// Read the file at this path and hand its content back.
    Read(String),
    /// The reference resolves to this address.
    Resolved(String),
    /// The resolution failed.
    Failed(GitError),
}

impl RefWalk {
    /// The store root the reference names are relative to.
    pub closed spec fn root(&self) -> Seq<char> {
        self.root@
    }

    /// The name of the reference file to read next.
    pub closed spec fn name(&self) -> Seq<char> {
        self.current@
    }

    /// How many more symbolic references the walk may follow.
    pub closed spec fn hops(&self) -> nat {
        self.hops_left as nat
    }

    /// The path of the reference file to read next.
    pub fn path(&self) -> (r: String)
        ensures
            r@ == self.root() + seq!['/'] + self.name(),
    {
        let mut p = self.root.clone();
        proof {
            reveal_strlit("/");
        }
        p.append("/");
        p.append(self.current.as_str());
        p
    }

    /// Hands the walk the content of the file it asked for (`None` when the
    /// file does not exist) and says what comes next.
    pub fn feed(&mut self, content: Option<Vec<u8>>) -> (r: RefStep)
        ensures
            final(self).root() == old(self).root(),
            match content {
                None => r matches RefStep::Failed(e) && e == GitError::NotFound,
                Some(c) => match ref_target(c@) {
                    None => r matches RefStep::Resolved(v) && v@ == ref_value(c@),
                    Some(t) => if old(self).hops() == 0 {
                        r matches RefStep::Failed(e) && e == GitError::RefLoop
                    } else {
                        &&& r matches RefStep::Read(p) && p@ == final(self).root() + seq!['/']
                            + t
                        &&& final(self).name() == t
                        &&& final(self).hops() == old(self).hops() - 1
                    },
                },
            },
    {
        let c = match content {
            None => return RefStep::Failed(GitError::NotFound),
            Some(c) => c,
        };
        let token = vec![114u8, 101u8, 102u8, 58u8, 32u8];
        if c.len() >= 5 && range_equals(c.as_slice(), 0, 5, token.as_slice()) {
            if self.hops_left == 0 {
                return RefStep::Failed(GitError::RefLoop);
            }
            let rest = slice_subrange(c.as_slice(), 5, c.len());
            let end = trimmed_end(rest, rest.len());
            assert(rest@.subrange(0, rest@.len() as int) =~= rest@);
            self.current = lossy_string(slice_subrange(rest, 0, end));
            self.hops_left = self.hops_left - 1;
            RefStep::Read(self.path())
        } else {
            let end = trimmed_end(c.as_slice(), c.len());
            assert(c@.subrange(0, c@.len() as int) =~= c@);
            RefStep::Resolved(lossy_string(slice_subrange(c.as_slice(), 0, end)))
        }
    }
}

impl Repo {
    /// Starts resolving the reference at `ref_path`, relative to the store root.
    pub fn get_ref(&self, ref_path: String) -> (r: RefWalk)
        ensures
            r.root() == self@,
            r.name() == ref_path@,
            r.hops() == MAX_REF_DEPTH,
    {
        RefWalk { root: self.git_dir().clone(), current: ref_path, hops_left: MAX_REF_DEPTH }
    }

    /// Starts resolving `HEAD`.
    pub fn head_ref(&self) -> (r: RefWalk)
        ensures
            r.root() == self@,
            r.name() == head_name(),
            r.hops() == MAX_REF_DEPTH,
    {
        proof {
            reveal_strlit("HEAD");
        }
        self.get_ref(String::from_str("HEAD"))
    }
}

/// Each step of a walk agrees with `resolve`: handed the content of the file
/// it asks for, a walk either ends with the result of resolving its current
/// reference, or moves on to a reference that resolves to the same result
/// with one hop fewer.
pub proof fn lemma_feed_agrees(files: Map<Seq<char>, Seq<u8>>, name: Seq<char>, hops: nat)
    ensures
        !files.contains_key(name) ==> resolve(files, name, hops) == Err::<Seq<char>, GitError>(
            GitError::NotFound,
        ),
        files.contains_key(name) ==> match ref_target(files[name]) {
            None => resolve(files, name, hops) == Ok::<Seq<char>, GitError>(
                ref_value(files[name]),
            ),
            Some(t) => if hops == 0 {
                resolve(files, name, hops) == Err::<Seq<char>, GitError>(GitError::RefLoop)
            } else {
                resolve(files, name, hops) == resolve(files, t, (hops - 1) as nat)
            },
        },
{
}

/// A chain of symbolic references that ends in a direct one, and is no
/// longer than the hops allowed, resolves to the address at its end.
pub proof fn lemma_chain_resolves(
    files: Map<Seq<char>, Seq<u8>>,
    chain: Seq<Seq<char>>,
    hops: nat,
)
    requires
        chain.len() >= 1,
        chain.len() - 1 <= hops,
        forall|i: int|
            0 <= i < chain.len() - 1 ==> files.contains_key(#[trigger] chain[i]) && ref_target(
                files[chain[i]],
            ) == Some(chain[i + 1]),
        files.contains_key(chain.last()),
        ref_target(files[chain.last()]) is None,
    ensures
        resolve(files, chain[0], hops) == Ok::<Seq<char>, GitError>(ref_value(files[chain.last()])),
    decreases chain.len(),
{
    if chain.len() > 1 {
        let tail = chain.drop_first();
        assert forall|i: int| 0 <= i < tail.len() - 1 implies files.contains_key(
            #[trigger] tail[i],
        ) && ref_target(files[tail[i]]) == Some(tail[i + 1]) by {
            assert(tail[i] == chain[i + 1]);
        }
        assert(chain[0] == chain[0]);
        assert(files.contains_key(chain[0]));
        lemma_chain_resolves(files, tail, (hops - 1) as nat);
    }
}

/// Resolution terminates on cycles: when every reference in a set is
/// symbolic and points into the set, resolving any of them fails with
/// `RefLoop`, whatever the number of hops allowed.
pub proof fn lemma_cycle_fails(
    files: Map<Seq<char>, Seq<u8>>,
    cycle: Set<Seq<char>>,
    start: Seq<char>,
    hops: nat,
)
    requires
        cycle.contains(start),
        forall|n: Seq<char>|
            #[trigger] cycle.contains(n) ==> files.contains_key(n) && ref_target(files[n]) is Some
                && cycle.contains(ref_target(files[n])->0),
    ensures
        resolve(files, start, hops) == Err::<Seq<char>, GitError>(GitError::RefLoop),
    decreases hops,
{
    if hops > 0 {
        lemma_cycle_fails(files, cycle, ref_target(files[start])->0, (hops - 1) as nat);
    }
}

/// One entry of a directory listing, as the caller read it.
pub struct ListedEntry {
    pub name: String,
    pub is_dir: bool,
    pub is_file: bool,
}

/// The path of `name` inside the directory `dir`.
pub open spec fn child_path(dir: Seq<char>, name: Seq<char>) -> Seq<char> {
    dir + seq!['/'] + name
}

/// The paths of the regular files among `es`, in order.
pub open spec fn listed_files(dir: Seq<char>, es: Seq<ListedEntry>) -> Seq<Seq<char>>
    decreases es.len(),
{
    if es.len() == 0 {
        Seq::empty()
    } else if es.last().is_file && !es.last().is_dir {
        listed_files(dir, es.drop_last()).push(child_path(dir, es.last().name@))
    } else {
        listed_files(dir, es.drop_last())
    }
}

/// The paths of the directories among `es`, in order.
pub open spec fn listed_dirs(dir: Seq<char>, es: Seq<ListedEntry>) -> Seq<Seq<char>>
    decreases es.len(),
{
    if es.len() == 0 {
        Seq::empty()
    } else if es.last().is_dir {
        listed_dirs(dir, es.drop_last()).push(child_path(dir, es.last().name@))
    } else {
        listed_dirs(dir, es.drop_last())
    }
}

/// The texts of a list of strings.
pub open spec fn texts(v: Seq<String>) -> Seq<Seq<char>> {
    v.map_values(|s: String| s@)
}

/// A listing of every reference file under `refs/`, in progress: the
/// directories still to read and the files found so far, as paths relative
/// to the store root.
pub struct RefScan {
    pending: Vec<String>,
    found: Vec<String>,
}

impl RefScan {
    /// The directories still to read.
    pub closed spec fn pending(&self) -> Seq<Seq<char>> {
        texts(self.pending@)
    }

    /// The reference files found so far.
    pub closed spec fn found(&self) -> Seq<Seq<char>> {
        texts(self.found@)
    }

    /// The next directory to read, if any is left.
    pub fn next_dir(&mut self) -> (r: Option<String>)
        ensures
            final(self).found() == old(self).found(),
            old(self).pending().len() == 0 ==> r is None && final(self).pending() == old(
                self,
            ).pending(),
            old(self).pending().len() > 0 ==> (r matches Some(d) && d@ == old(self).pending().last()
                && final(self).pending() == old(self).pending().drop_last()),
    {
        if self.pending.len() == 0 {
            return None;
        }
        let r = self.pending.pop();
        assert(texts(self.pending@) =~= texts(old(self).pending@).drop_last());
        r
    }

    /// Records the entries of the directory `dir`: files are references,
    /// directories are read later; anything else is passed over.
    pub fn add_entries(&mut self, dir: &str, entries: &Vec<ListedEntry>)
        ensures
            final(self).found() == old(self).found() + listed_files(dir@, entries@),
            final(self).pending() == old(self).pending() + listed_dirs(dir@, entries@),
    {
        let mut i: usize = 0;
        proof {
            assert(entries@.subrange(0, 0) =~= Seq::<ListedEntry>::empty());
            assert(texts(self.found@) + Seq::<Seq<char>>::empty() =~= texts(self.found@));
            assert(texts(self.pending@) + Seq::<Seq<char>>::empty() =~= texts(self.pending@));
        }
        while i < entries.len()
            invariant
                i <= entries@.len(),
                texts(self.found@) == texts(old(self).found@) + listed_files(
                    dir@,
                    entries@.subrange(0, i as int),
                ),
                texts(self.pending@) == texts(old(self).pending@) + listed_dirs(
                    dir@,
                    entries@.subrange(0, i as int),
                ),
            decreases entries@.len() - i,
        {
            let e = &entries[i];
            let ghost pre = entries@.subrange(0, i + 1);
            assert(pre.drop_last() =~= entries@.subrange(0, i as int));
            assert(pre.last() == entries@[i as int]);
            if e.is_dir || e.is_file {
                let mut p = String::from_str(dir);
                proof {
                    reveal_strlit("/");
                }
                p.append("/");
                p.append(e.name.as_str());
                assert(p@ == child_path(dir@, e.name@));
                if e.is_dir {
                    let ghost before = self.pending@;
                    let ghost pv = p@;
                    self.pending.push(p);
                    assert(texts(self.pending@) =~= texts(before).push(pv));
                    assert(listed_dirs(dir@, pre) == listed_dirs(dir@, pre.drop_last()).push(pv));
                    assert(texts(self.pending@) =~= texts(old(self).pending@) + listed_dirs(dir@, pre));
                } else {
                    let ghost before = self.found@;
                    let ghost pv = p@;
                    self.found.push(p);
                    assert(texts(self.found@) =~= texts(before).push(pv));
                    assert(listed_files(dir@, pre) == listed_files(dir@, pre.drop_last()).push(pv));
                    assert(texts(self.found@) =~= texts(old(self).found@) + listed_files(dir@, pre));
                }
            }
            i = i + 1;
        }
        assert(entries@.subrange(0, i as int) =~= entries@);
    }

    /// The reference files found.
    pub fn refs(self) -> (r: Vec<String>)
        ensures
            texts(r@) == self.found(),
    {
        self.found
    }
}

impl Repo {
    /// Starts listing every reference file under `refs/`.
    pub fn all_refs(&self) -> (r: RefScan)
        ensures
            r.pending() == seq![refs_dir()],
            r.found() == Seq::<Seq<char>>::empty(),
    {
        proof {
            reveal_strlit("refs");
        }
        let name = String::from_str("refs");
        assert(name@ == refs_dir());
        let mut pending: Vec<String> = Vec::new();
        pending.push(name);
        let found: Vec<String> = Vec::new();
        let r = RefScan { pending, found };
        assert(texts(r.pending@) =~= seq![refs_dir()]);
        assert(texts(r.found@) =~= Seq::<Seq<char>>::empty());
        r
    }
}

/// The directory that holds the references: `refs`.
pub open spec fn refs_dir() -> Seq<char> {
    seq!['r', 'e', 'f', 's']
}

} // verus!

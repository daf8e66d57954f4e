//! Walking a commit's history: from a commit to its parent, and so on back
//! to the root commit. The caller loads each commit the walk asks for.
use crate::obj::{parent_spec, Obj, Object};
use vstd::prelude::*;

verus! {

/// What a history walk asks for next.
pub enum LogStep {
    /// Load the commit at this address and hand it to the walk.
    Load(String),
    /// The walk is over: the last commit has no parent, or its parent was
    /// already visited.
    Done,
}

/// A history walk in progress: the addresses visited so far, in order.
pub struct LogWalk {
    seen: Vec<String>,
}

impl LogWalk {
    /// The addresses visited so far, in order.
    pub closed spec fn seen(&self) -> Seq<Seq<char>> {
        self.seen@.map_values(|s: String| s@)
    }

    /// A walk that starts at the commit with address `start`.
    pub fn new(start: &String) -> (r: LogWalk)
        ensures
            r.seen() == seq![start@],
            r.seen().no_duplicates(),
    {
        let mut seen: Vec<String> = Vec::new();
        seen.push(start.clone());
        let r = LogWalk { seen };
        assert(r.seen() =~= seq![start@]);
        proof {
            lemma_walk_no_repeats(Seq::empty(), start@);
            assert(Seq::<Seq<char>>::empty().push(start@) =~= seq![start@]);
        }
        r
    }

    /// Whether `a` has been visited.
    fn visited(&self, a: &String) -> (r: bool)
        ensures
            r == self.seen().contains(a@),
    {
        let mut i: usize = 0;
        while i < self.seen.len()
            invariant
                i <= self.seen@.len(),
                forall|j: int| 0 <= j < i ==> self.seen@[j]@ != a@,
            decreases self.seen@.len() - i,
        {
            if self.seen[i] == *a {
                assert(self.seen()[i as int] == a@);
                return true;
            }
            i = i + 1;
        }
        assert forall|j: int| 0 <= j < self.seen().len() implies self.seen()[j] != a@ by {
            assert(self.seen()[j] == self.seen@[j]@);
        }
        false
    }

    /// Hands the walk the commit it asked for last and says what comes next:
    /// its parent, unless it has none or the parent was already visited.
    pub fn advance(&mut self, commit: &Object) -> (r: LogStep)
        ensures
            old(self).seen().no_duplicates() ==> final(self).seen().no_duplicates(),
            match parent_spec(commit.kind(), commit.payload()) {
                None => r is Done && final(self).seen() == old(self).seen(),
                Some(t) => if old(self).seen().contains(t) {
                    r is Done && final(self).seen() == old(self).seen()
                } else {
                    r matches LogStep::Load(a) && a@ == t && final(self).seen() == old(
                        self,
                    ).seen().push(t)
                },
            },
    {
        match commit.parent() {
            None => LogStep::Done,
            Some(p) => {
                if self.visited(&p) {
                    LogStep::Done
                } else {
                    self.seen.push(p.clone());
                    assert(self.seen() =~= old(self).seen().push(p@));
                    proof {
                        if old(self).seen().no_duplicates() {
                            lemma_walk_no_repeats(old(self).seen(), p@);
                        }
                    }
                    LogStep::Load(p)
                }
            },
        }
    }
}

/// Adding an address not yet visited keeps the visited list free of repeats.
proof fn lemma_walk_no_repeats(seen: Seq<Seq<char>>, t: Seq<char>)
    requires
        seen.no_duplicates(),
        !seen.contains(t),
    ensures
        seen.push(t).no_duplicates(),
{
    let s2 = seen.push(t);
    assert forall|i: int, j: int| 0 <= i < s2.len() && 0 <= j < s2.len() && i != j implies s2[i]
        != s2[j] by {
        if i < seen.len() && j < seen.len() {
            assert(s2[i] == seen[i] && s2[j] == seen[j]);
        } else if i == seen.len() {
            assert(s2[j] == seen[j]);
        } else {
            assert(s2[i] == seen[i]);
        }
    }
}

} // verus!

//! Plain commit data and the in-memory commit store.
//!
//! A commit is held as plain values: a numeric identifier, a timestamp, the
//! one-line summary and the identifiers of its parents. The store is the
//! engine's read-only view of the repository: a sequence of commits looked up
//! by identifier, with the first match winning.

use vstd::prelude::*;

verus! {

/// The mathematical value of a [`Commit`]: the same fields over `Seq`.
#[verifier::ext_equal]
pub ghost struct CommitView {
    pub id: u64,
    pub timestamp: i64,
    pub summary: Seq<char>,
    pub parents: Seq<u64>,
}

/// A commit as the layout engine sees it: an opaque identifier, an ordered
/// timestamp, a one-line summary, and zero or more parent identifiers.
/// Commits with more than two parents can be represented but are rejected by
/// the engine when selected for expansion.
pub struct Commit {
    pub id: u64,
    pub timestamp: i64,
    pub summary: String,
    pub parents: Vec<u64>,
}

impl View for Commit {
    type V = CommitView;

    open spec fn view(&self) -> CommitView {
        CommitView {
            id: self.id,
            timestamp: self.timestamp,
            summary: self.summary@,
            parents: self.parents@,
        }
    }
}

impl DeepView for Commit {
    type V = CommitView;

    open spec fn deep_view(&self) -> CommitView {
        self.view()
    }
}

/// Copies a vector of identifiers element by element.
fn copy_ids(v: &Vec<u64>) -> (r: Vec<u64>)
    ensures
        r@ == v@,
{
    let mut r: Vec<u64> = Vec::new();
    let mut i: usize = 0;
    while i < v.len()
        invariant
            i <= v.len(),
            r@ == v@.subrange(0, i as int),
        decreases v.len() - i,
    {
        r.push(v[i]);
        i = i + 1;
    }
    assert(v@.subrange(0, v@.len() as int) =~= v@);
    r
}

impl Commit {
    /// Builds a commit from its plain parts.
    pub fn new(id: u64, timestamp: i64, summary: String, parents: Vec<u64>) -> (c: Commit)
        ensures
            c@ == (CommitView { id, timestamp, summary: summary@, parents: parents@ }),
    {
        Commit { id, timestamp, summary, parents }
    }

    /// Produces an owned commit with the same value, so that one commit can
    /// sit in several lanes without aliasing.
    pub fn duplicate(&self) -> (c: Commit)
        ensures
            c@ == self@,
    {
        Commit {
            id: self.id,
            timestamp: self.timestamp,
            summary: self.summary.clone(),
            parents: copy_ids(&self.parents),
        }
    }
}

/// The first commit in `s` whose identifier is `id`, if any.
pub open spec fn store_find(s: Seq<CommitView>, id: u64) -> Option<CommitView>
    decreases s.len(),
{
    if s.len() == 0 {
        None
    } else if s[0].id == id {
        Some(s[0])
    } else {
        store_find(s.drop_first(), id)
    }
}

/// The read-only set of commits a layout run works over, looked up by
/// identifier; when several commits share an identifier the first one wins.
pub struct CommitStore {
    pub commits: Vec<Commit>,
}

impl CommitStore {
    /// An empty store.
    pub fn new() -> (s: CommitStore)
        ensures
            s.commits.deep_view() == Seq::<CommitView>::empty(),
    {
        let commits: Vec<Commit> = Vec::new();
        assert(commits.deep_view() =~= Seq::<CommitView>::empty());
        CommitStore { commits }
    }

    /// Adds a commit at the end of the store.
    pub fn push(&mut self, c: Commit)
        ensures
            final(self).commits.deep_view() == old(self).commits.deep_view().push(c@),
    {
        let ghost before = self.commits.deep_view();
        self.commits.push(c);
        assert(self.commits.deep_view() =~= before.push(self.commits@[before.len() as int]@));
    }

    /// Finds the index of the first commit with the given identifier.
    pub fn find(&self, id: u64) -> (r: Option<usize>)
        ensures
            match r {
                Some(i) => {
                    &&& i < self.commits.len()
                    &&& store_find(self.commits.deep_view(), id)
                        == Some(self.commits.deep_view()[i as int])
                },
                None => store_find(self.commits.deep_view(), id) is None,
            },
    {
        let ghost dv = self.commits.deep_view();
        proof {
            assert(dv.skip(0) =~= dv);
        }
        let mut i: usize = 0;
        while i < self.commits.len()
            invariant
                i <= self.commits.len(),
                dv == self.commits.deep_view(),
                store_find(dv, id) == store_find(dv.skip(i as int), id),
            decreases self.commits.len() - i,
        {
            if self.commits[i].id == id {
                proof {
                    assert(dv.skip(i as int)[0] == dv[i as int]);
                }
                return Some(i);
            }
            proof {
                assert(dv.skip(i as int).drop_first() =~= dv.skip(i as int + 1));
                assert(dv.skip(i as int)[0] == dv[i as int]);
            }
            i = i + 1;
        }
        proof {
            assert(dv.skip(i as int).len() == 0);
        }
        None
    }
}

} // verus!

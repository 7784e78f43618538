//! Branch references and the stop-condition list.
//!
//! A branch is held as plain values: the identifier of the commit it points
//! at, its display name and its kind. From the full branch list and the name
//! of the checked-out branch, [`branches_data`] builds the ordered list of
//! stop conditions: a leading `None` entry (walk full history) followed by
//! every branch whose name is related to the checkout's name, where related
//! means one name contains the other.

use vstd::prelude::*;

verus! {

/// Whether a branch is local to the repository or tracks a remote.
#[derive(Clone, Copy, PartialEq, Eq, Structural, Debug)]
pub enum BranchKind {
    Local,
    Remote,
}

/// The mathematical value of a [`BranchData`].
#[verifier::ext_equal]
pub ghost struct BranchView {
    pub oid: u64,
    pub shorthand: Seq<char>,
    pub kind: Option<BranchKind>,
}

/// A branch reference: the identifier of its target commit, its short
/// display name, and its kind. Immutable once created.
pub struct BranchData {
    oid: u64,
    shorthand: String,
    kind: Option<BranchKind>,
}

impl View for BranchData {
    type V = BranchView;

    closed spec fn view(&self) -> BranchView {
        BranchView { oid: self.oid, shorthand: self.shorthand@, kind: self.kind }
    }
}

impl DeepView for BranchData {
    type V = BranchView;

    open spec fn deep_view(&self) -> BranchView {
        self.view()
    }
}

impl BranchData {
    /// Builds a branch reference from its plain parts.
    pub fn new(oid: u64, shorthand: String, kind: Option<BranchKind>) -> (b: BranchData)
        ensures
            b@ == (BranchView { oid, shorthand: shorthand@, kind }),
    {
        BranchData { oid, shorthand, kind }
    }

    /// The branch's short display name.
    pub fn shorthand(&self) -> (r: &String)
        ensures
            r@ == self@.shorthand,
    {
        &self.shorthand
    }

    /// The identifier of the commit the branch points at.
    pub fn oid(&self) -> (r: u64)
        ensures
            r == self@.oid,
    {
        self.oid
    }

    /// An owned branch reference with the same value.
    pub fn duplicate(&self) -> (b: BranchData)
        ensures
            b@ == self@,
    {
        BranchData { oid: self.oid, shorthand: self.shorthand.clone(), kind: self.kind }
    }
}

/// The display name of the first branch in `branches` that points at `id`,
/// if any.
pub open spec fn label_of(branches: Seq<BranchView>, id: u64) -> Option<Seq<char>>
    decreases branches.len(),
{
    if branches.len() == 0 {
        None
    } else if branches[0].oid == id {
        Some(branches[0].shorthand)
    } else {
        label_of(branches.drop_first(), id)
    }
}

/// Resolves the branch label of the commit `id`: the display name of the
/// first branch pointing at it, or `None` when no branch does.
pub fn short_hand_current_commit(branches: &Vec<BranchData>, id: u64) -> (r: Option<String>)
    ensures
        r.deep_view() == label_of(branches.deep_view(), id),
{
    let ghost dv = branches.deep_view();
    proof {
        assert(dv.skip(0) =~= dv);
    }
    let mut i: usize = 0;
    while i < branches.len()
        invariant
            i <= branches.len(),
            dv == branches.deep_view(),
            label_of(dv, id) == label_of(dv.skip(i as int), id),
        decreases branches.len() - i,
    {
        proof {
            assert(dv.skip(i as int)[0] == dv[i as int]);
        }
        if branches[i].oid == id {
            return Some(branches[i].shorthand.clone());
        }
        proof {
            assert(dv.skip(i as int).drop_first() =~= dv.skip(i as int + 1));
        }
        i = i + 1;
    }
    proof {
        assert(dv.skip(i as int).len() == 0);
    }
    None
}

/// Whether `needle` occurs as a contiguous run inside `hay`.
pub open spec fn is_substring(needle: Seq<char>, hay: Seq<char>) -> bool {
    exists|k: int|
        0 <= k && k + needle.len() <= hay.len() && #[trigger] hay.subrange(k, k + needle.len())
            == needle
}

/// Whether `needle` occurs at position `k` of `hay`.
fn matches_at(hay: &str, needle: &str, k: usize, hay_len: usize, needle_len: usize) -> (r: bool)
    requires
        hay_len == hay@.len(),
        needle_len == needle@.len(),
        k + needle_len <= hay_len,
    ensures
        r == (hay@.subrange(k as int, k as int + needle@.len() as int) == needle@),
{
    let ghost sub = hay@.subrange(k as int, k as int + needle@.len() as int);
    let mut i: usize = 0;
    while i < needle_len
        invariant
            i <= needle_len,
            hay_len == hay@.len(),
            needle_len == needle@.len(),
            k + needle_len <= hay_len,
            sub == hay@.subrange(k as int, k as int + needle@.len() as int),
            forall|j: int| 0 <= j < i ==> sub[j] == needle@[j],
        decreases needle_len - i,
    {
        let hc = hay.get_char(k + i);
        let nc = needle.get_char(i);
        if hc != nc {
            proof {
                assert(sub[i as int] == hay@[k + i]);
            }
            return false;
        }
        proof {
            assert(sub[i as int] == hay@[k + i]);
        }
        i = i + 1;
    }
    proof {
        assert(sub =~= needle@);
    }
    true
}

/// Whether the characters of `needle` occur contiguously inside `hay`.
pub fn contains_str(hay: &str, needle: &str) -> (r: bool)
    ensures
        r == is_substring(needle@, hay@),
{
    let hay_len = hay.unicode_len();
    let needle_len = needle.unicode_len();
    if needle_len > hay_len {
        return false;
    }
    let diff = hay_len - needle_len;
    let mut k: usize = 0;
    loop
        invariant
            hay_len == hay@.len(),
            needle_len == needle@.len(),
            needle_len <= hay_len,
            diff == hay_len - needle_len,
            k <= diff,
            forall|j: int|
                0 <= j < k ==> #[trigger] hay@.subrange(j, j + needle@.len() as int) != needle@,
        ensures
            forall|j: int|
                0 <= j <= diff ==> #[trigger] hay@.subrange(j, j + needle@.len() as int)
                    != needle@,
        decreases diff - k,
    {
        if matches_at(hay, needle, k, hay_len, needle_len) {
            return true;
        }
        if k == diff {
            break;
        }
        k = k + 1;
    }
    false
}

/// Whether a branch name is related to the checkout's name: one contains the
/// other.
pub open spec fn related(head: Seq<char>, name: Seq<char>) -> bool {
    is_substring(name, head) || is_substring(head, name)
}

/// The stop-condition entries contributed by `branches` when the checkout's
/// branch name is known: every branch related to it, in order.
pub open spec fn related_stops(head: Seq<char>, branches: Seq<BranchView>) -> Seq<
    Option<BranchView>,
>
    decreases branches.len(),
{
    if branches.len() == 0 {
        Seq::empty()
    } else {
        let rest = related_stops(head, branches.drop_last());
        if related(head, branches.last().shorthand) {
            rest.push(Some(branches.last()))
        } else {
            rest
        }
    }
}

/// The stop-condition entries contributed by `branches` when the checkout's
/// branch name is unknown: every branch, in order.
pub open spec fn all_stops(branches: Seq<BranchView>) -> Seq<Option<BranchView>>
    decreases branches.len(),
{
    if branches.len() == 0 {
        Seq::empty()
    } else {
        all_stops(branches.drop_last()).push(Some(branches.last()))
    }
}

/// The full stop-condition list: the given leading entry, then the branch
/// entries selected by [`related_stops`] or [`all_stops`].
pub open spec fn stops_spec(
    head: Option<Seq<char>>,
    branches: Seq<BranchView>,
    first: Option<BranchView>,
) -> Seq<Option<BranchView>> {
    match head {
        Some(h) => seq![first] + related_stops(h, branches),
        None => seq![first] + all_stops(branches),
    }
}

/// Builds the ordered stop-condition list for a session: `stop_condition`
/// first (conventionally `None`, meaning no boundary), then, when the
/// checkout resolves to a branch name, every branch whose name contains or is
/// contained in that name; otherwise every branch.
pub fn branches_data(
    head_shorthand: &Option<String>,
    branches: &Vec<BranchData>,
    stop_condition: Option<BranchData>,
) -> (r: Vec<Option<BranchData>>)
    ensures
        r.deep_view() == stops_spec(
            head_shorthand.deep_view(),
            branches.deep_view(),
            stop_condition.deep_view(),
        ),
        r@.len() >= 1,
{
    let ghost dv = branches.deep_view();
    let ghost first = stop_condition.deep_view();
    let mut r: Vec<Option<BranchData>> = Vec::new();
    r.push(stop_condition);
    match head_shorthand {
        Some(head) => {
            proof {
                assert(dv.take(0) =~= Seq::<BranchView>::empty());
                assert(r.deep_view() =~= seq![first] + related_stops(head@, dv.take(0)));
            }
            let mut i: usize = 0;
            while i < branches.len()
                invariant
                    i <= branches.len(),
                    dv == branches.deep_view(),
                    r.deep_view() == seq![first] + related_stops(head@, dv.take(i as int)),
                decreases branches.len() - i,
            {
                let ghost prev = r.deep_view();
                let b = &branches[i];
                let fwd = contains_str(head.as_str(), b.shorthand().as_str());
                let bwd = contains_str(b.shorthand().as_str(), head.as_str());
                proof {
                    assert(dv.take(i as int + 1).drop_last() =~= dv.take(i as int));
                    assert(dv.take(i as int + 1).last() == dv[i as int]);
                }
                if fwd || bwd {
                    r.push(Some(b.duplicate()));
                    proof {
                        assert(r.deep_view() =~= prev.push(Some(dv[i as int])));
                    }
                }
                i = i + 1;
            }
            proof {
                assert(dv.take(i as int) =~= dv);
            }
        },
        None => {
            proof {
                assert(dv.take(0) =~= Seq::<BranchView>::empty());
                assert(r.deep_view() =~= seq![first] + all_stops(dv.take(0)));
            }
            let mut i: usize = 0;
            while i < branches.len()
                invariant
                    i <= branches.len(),
                    dv == branches.deep_view(),
                    r.deep_view() == seq![first] + all_stops(dv.take(i as int)),
                decreases branches.len() - i,
            {
                let ghost prev = r.deep_view();
                r.push(Some(branches[i].duplicate()));
                proof {
                    assert(dv.take(i as int + 1).drop_last() =~= dv.take(i as int));
                    assert(dv.take(i as int + 1).last() == dv[i as int]);
                    assert(r.deep_view() =~= prev.push(Some(dv[i as int])));
                }
                i = i + 1;
            }
            proof {
                assert(dv.take(i as int) =~= dv);
            }
        },
    }
    r
}

} // verus!

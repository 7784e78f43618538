//! The immutable output row of a layout run.
//!
//! A row carries the connector text (possibly two lines, separated by an
//! embedded newline), the identifier of the commit it stands for, the
//! display name of a branch pointing at that commit if one does, and the
//! commit's one-line summary. Ownership passes to the presentation layer,
//! which never mutates it.

use vstd::prelude::*;
use vstd::string::StrSliceExecFns;

verus! {

/// The mathematical value of a [`GraphNode`].
#[verifier::ext_equal]
pub ghost struct RowView {
    pub grapheme: Seq<char>,
    pub oid: u64,
    pub branch_shorthand: Option<Seq<char>>,
    pub summary: Seq<char>,
}

/// One display row of the commit graph.
pub struct GraphNode {
    pub grapheme: String,
    pub oid: u64,
    pub branch_shorthand: Option<String>,
    pub summary: String,
}

impl View for GraphNode {
    type V = RowView;

    open spec fn view(&self) -> RowView {
        RowView {
            grapheme: self.grapheme@,
            oid: self.oid,
            branch_shorthand: self.branch_shorthand.deep_view(),
            summary: self.summary@,
        }
    }
}

impl DeepView for GraphNode {
    type V = RowView;

    open spec fn deep_view(&self) -> RowView {
        self.view()
    }
}

impl GraphNode {
    /// The identifier of the commit this row stands for.
    pub fn id(&self) -> (r: u64)
        ensures
            r == self@.oid,
    {
        self.oid
    }
}

/// The abbreviated form of a commit's hexadecimal identifier: its first
/// seven characters.
pub fn short_id(id: &str) -> (r: String)
    requires
        id@.len() >= 7,
    ensures
        r@ == id@.subrange(0, 7),
{
    let s = id.substring_char(0, 7);
    s.to_owned()
}

} // verus!

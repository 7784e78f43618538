//! Box-drawing connector text for graph rows.
//!
//! Each row of the rendered graph carries a connector: the glyphs that show
//! the row's relationship to the parallel lanes around it. A plain row shows
//! the lane bars and a node marker; a split (two-parent commit) adds a second
//! line fanning out to the new lane; a join (lanes reconverging on one
//! ancestor) adds a second line closing the collapsed lanes; a root commit
//! adds a terminal mark; and a split and a join in the same step are drawn as
//! one combined second line rather than two conflicting ones.

use vstd::prelude::*;
use vstd::string::StringExecFns;

verus! {

/// `s` repeated `n` times.
pub open spec fn repeat_chars(s: Seq<char>, n: nat) -> Seq<char>
    decreases n,
{
    if n == 0 {
        Seq::empty()
    } else {
        repeat_chars(s, (n - 1) as nat) + s
    }
}

/// Builds the string `piece` repeated `n` times.
pub fn repeat_str(piece: &str, n: usize) -> (r: String)
    ensures
        r@ == repeat_chars(piece@, n as nat),
{
    let mut r = String::new();
    let mut i: usize = 0;
    proof {
        assert(r@ =~= repeat_chars(piece@, 0));
    }
    while i < n
        invariant
            i <= n,
            r@ == repeat_chars(piece@, i as nat),
        decreases n - i,
    {
        r.append(piece);
        i = i + 1;
    }
    r
}

/// The first line of every row: one bar per lane left of the active one, the
/// node marker, and, on a split row, one bar per lane right of it.
pub open spec fn node_glyph(l: nat, mi: nat, split: bool) -> Seq<char>
    recommends
        mi < l,
{
    if split {
        repeat_chars("│ "@, mi) + "├●"@ + repeat_chars("│ "@, (l - mi - 1) as nat)
    } else {
        repeat_chars("│ "@, (l - 1) as nat) + "├●"@
    }
}

/// The extra line under a root commit's row: the lane ends here.
pub open spec fn terminal_glyph() -> Seq<char> {
    "\n\u{257d}"@
}

/// The extra line under a split row: a fan-out from the active column to the
/// column of the second parent.
pub open spec fn fork_glyph(l: nat, mi: nat) -> Seq<char>
    recommends
        mi < l,
{
    "\n"@ + repeat_chars("│ "@, mi) + "├"@ + repeat_chars("──"@, (l - mi - 1) as nat) + "─┐"@
}

/// The extra line under a join row: `dup` collapsed lanes folding back into
/// an already-traced one.
pub open spec fn join_glyph(l: nat, dup: nat) -> Seq<char>
    recommends
        0 < dup < l,
{
    "\n"@ + repeat_chars("│ "@, (l - dup - 1) as nat) + "├─"@ + repeat_chars(
        "──"@,
        (dup - 1) as nat,
    ) + "┘"@
}

/// The extra line when a split and a join fall on the same row.
pub open spec fn combined_glyph() -> Seq<char> {
    "\n├─┤"@
}

/// The whole connector of one row, decided by the lane count `l` before the
/// step, the active column `mi`, the active commit's parent count `np`, and
/// the number `dup` of lanes collapsed by deduplication.
pub open spec fn connector_spec(l: nat, mi: nat, np: nat, dup: nat) -> Seq<char>
    recommends
        mi < l,
        np <= 2,
        np == 1 && dup > 0 ==> dup < l,
{
    let base = node_glyph(l, mi, np == 2);
    if np != 1 && dup > 0 {
        base + combined_glyph()
    } else if np == 0 {
        base + terminal_glyph()
    } else if np == 2 {
        base + fork_glyph(l, mi)
    } else if dup > 0 {
        base + join_glyph(l, dup)
    } else {
        base
    }
}

/// Builds the first line of a row's connector.
pub fn paint(l: usize, max_index: usize, new_branch: bool) -> (r: String)
    requires
        max_index < l,
    ensures
        r@ == node_glyph(l as nat, max_index as nat, new_branch),
{
    if new_branch {
        let mut r = repeat_str("│ ", max_index);
        r.append("├●");
        let right = repeat_str("│ ", l - (max_index + 1));
        r.append(right.as_str());
        assert(r@ =~= node_glyph(l as nat, max_index as nat, true));
        r
    } else {
        let mut r = repeat_str("│ ", l - 1);
        r.append("├●");
        r
    }
}

/// Builds the whole connector of one row.
pub fn paint_connector(l: usize, max_index: usize, parents_len: usize, dup: usize) -> (r: String)
    requires
        max_index < l,
        parents_len <= 2,
        parents_len == 1 && dup > 0 ==> dup < l,
    ensures
        r@ == connector_spec(l as nat, max_index as nat, parents_len as nat, dup as nat),
{
    let mut r = paint(l, max_index, parents_len == 2);
    if parents_len != 1 && dup > 0 {
        r.append("\n├─┤");
    } else if parents_len == 0 {
        r.append("\n\u{257d}");
    } else if parents_len == 2 {
        r.append("\n");
        let bars = repeat_str("│ ", max_index);
        r.append(bars.as_str());
        r.append("├");
        let dashes = repeat_str("──", l - (max_index + 1));
        r.append(dashes.as_str());
        r.append("─┐");
        assert(r@ =~= node_glyph(l as nat, max_index as nat, true) + fork_glyph(
            l as nat,
            max_index as nat,
        ));
    } else if dup > 0 {
        r.append("\n");
        let bars = repeat_str("│ ", l - (dup + 1));
        r.append(bars.as_str());
        r.append("├─");
        let dashes = repeat_str("──", dup - 1);
        r.append(dashes.as_str());
        r.append("┘");
        assert(r@ =~= node_glyph(l as nat, max_index as nat, false) + join_glyph(
            l as nat,
            dup as nat,
        ));
    }
    r
}

} // verus!

//! The listing pipeline: the hidden-entry filter, then the default
//! ordering, then the user's sort chain, then one rendered row per entry.

use vstd::prelude::*;

use crate::entry::FileInfo;
use crate::layout::rendered_line;
use crate::layout::render;
use crate::layout::spec_name_width;
use crate::layout::spec_suffix_width;
use crate::order::EntryOrder;
use crate::order::SortOption;
use crate::order::apply_chain;
use crate::order::chain_apply;
use crate::order::default_order;
use crate::order::stable_sorted;

verus! {

/// An entry is shown unless its name begins with a dot and hidden entries
/// were not requested.
pub open spec fn visible(e: FileInfo, show_all: bool) -> bool {
    show_all || e.name@.len() == 0 || e.name@[0] != '.'
}

/// The visible entries, in input order.
pub open spec fn visible_filter(s: Seq<FileInfo>, show_all: bool) -> Seq<FileInfo>
    decreases s.len(),
{
    if s.len() == 0 {
        Seq::empty()
    } else if visible(s.last(), show_all) {
        visible_filter(s.drop_last(), show_all).push(s.last())
    } else {
        visible_filter(s.drop_last(), show_all)
    }
}

/// Whether `e` is shown under the hidden-entry policy.
fn is_visible(e: &FileInfo, show_all: bool) -> (r: bool)
    ensures
        r == visible(*e, show_all),
{
    if show_all {
        true
    } else {
        let n = e.name.as_str().unicode_len();
        if n == 0 {
            true
        } else {
            e.name.as_str().get_char(0) != '.'
        }
    }
}

/// Keep exactly the visible entries, in their input order: with `show_all`
/// every entry stays; without it entries whose name begins with `'.'` are
/// excluded.
pub fn filter_hidden(entries: Vec<FileInfo>, show_all: bool) -> (r: Vec<FileInfo>)
    ensures
        r@ == visible_filter(entries@, show_all),
{
    let ghost all = entries@;
    let mut rest = entries;
    let mut r: Vec<FileInfo> = Vec::new();
    while rest.len() > 0
        invariant
            rest@.len() <= all.len(),
            rest@ == all.skip(all.len() - rest@.len()),
            r@ == visible_filter(all.take(all.len() - rest@.len()), show_all),
        decreases rest@.len(),
    {
        let ghost done = all.len() - rest@.len();
        let e = rest.remove(0);
        proof {
            assert(rest@ =~= all.skip(done + 1));
            assert(e == all[done]);
            assert(all.take(done + 1).drop_last() =~= all.take(done));
            assert(all.take(done + 1).last() == all[done]);
        }
        if is_visible(&e, show_all) {
            r.push(e);
        }
    }
    proof {
        assert(all.take(all.len() as int) =~= all);
    }
    r
}

/// The final order of a listing: the visible entries, default-ordered
/// (directories first, then lowercased name), then refined by the user's
/// chain of stable sorting passes.
pub open spec fn final_order(s: Seq<FileInfo>, show_all: bool, chain: Seq<SortOption>) -> Seq<
    FileInfo,
> {
    chain_apply(chain, stable_sorted(EntryOrder::DirFirstName, visible_filter(s, show_all)))
}

/// Run the whole listing pipeline: filter hidden entries, apply the
/// default ordering, refine it with the user's sort chain, and render one
/// colored fixed-width row per remaining entry, row parity following the
/// final rendered position. The chain runs after the default ordering and
/// refines it; an empty chain leaves the default order as the final one.
pub fn list_lines(
    entries: Vec<FileInfo>,
    show_all: bool,
    chain: &Vec<SortOption>,
    width: usize,
) -> (r: Vec<String>)
    ensures
        r@.len() == final_order(entries@, show_all, chain@).len(),
        forall|i: int|
            0 <= i < r@.len() ==> r@[i]@ == rendered_line(
                final_order(entries@, show_all, chain@)[i],
                spec_name_width(final_order(entries@, show_all, chain@)) as int,
                spec_suffix_width(final_order(entries@, show_all, chain@)) as int,
                width as int,
                i % 2 == 0,
            ),
{
    let visible_entries = filter_hidden(entries, show_all);
    let ordered = default_order(visible_entries);
    let refined = apply_chain(chain, ordered);
    render(&refined, width)
}

} // verus!

use crate::types::{entry_views, Date, Entry, EntryView};
use vstd::prelude::*;

verus! {

/// `a` is no later than `b`.
pub open spec fn date_le(a: Date, b: Date) -> bool {
    ||| a.year < b.year
    ||| a.year == b.year && a.month < b.month
    ||| a.year == b.year && a.month == b.month && a.day <= b.day
}

/// No sale is followed by one of an earlier date.
pub open spec fn dates_ascending(entries: Seq<EntryView>) -> bool {
    forall|i: int, j: int|
        0 <= i <= j < entries.len() ==> date_le(
            (#[trigger] entries[i]).date,
            (#[trigger] entries[j]).date,
        )
}

/// No sale is followed by one of an earlier year.
pub open spec fn years_ascending(entries: Seq<EntryView>) -> bool {
    forall|i: int, j: int|
        0 <= i <= j < entries.len() ==> (#[trigger] entries[i]).date.year <= (
        #[trigger] entries[j]).date.year
}

/// Sorts `entries` with `sort_unstable_by_key` of the standard library's
/// slices, by year, then month, then day: afterwards the same sales stand
/// in the order of their dates. Which of two sales of one day comes first
/// is left open.
#[verifier::external_body]
fn sort_by_date(entries: &mut Vec<Entry>)
    ensures
        entry_views(final(entries)@).to_multiset() == entry_views(old(entries)@).to_multiset(),
        dates_ascending(entry_views(final(entries)@)),
{
    entries.sort_unstable_by_key(|entry| (entry.date.year, entry.date.month, entry.date.day));
}

/// Puts the sales in the order of their dates, the order in which they are
/// reported on. No sale is added or lost.
pub fn sort_entries(entries: &mut Vec<Entry>)
    ensures
        entry_views(final(entries)@).to_multiset() == entry_views(old(entries)@).to_multiset(),
        final(entries)@.len() == old(entries)@.len(),
        dates_ascending(entry_views(final(entries)@)),
        years_ascending(entry_views(final(entries)@)),
{
    sort_by_date(entries);
    proof {
        broadcast use vstd::seq_lib::group_to_multiset_ensures;

        let before = entry_views(old(entries)@);
        let after = entry_views(entries@);
        assert(before.len() == before.to_multiset().len());
        assert(after.len() == after.to_multiset().len());
        assert forall|i: int, j: int| 0 <= i <= j < after.len() implies (#[trigger] after[i]).date.year
            <= (#[trigger] after[j]).date.year by {
            assert(date_le(after[i].date, after[j].date));
        }
    }
}

} // verus!

use crate::bucket::PriceBand;
use crate::seqs::{lemma_filter_nothing, lemma_filter_push};
use crate::types::{EntryView, PropertyView};
use crate::year::{processed, BucketKey, ProcessedYearEntry, ProcessedYearEntryView, YearEntryView};
use vstd::prelude::*;

verus! {

/// The buckets of one postcode within a yearly report.
#[derive(Debug)]
pub struct PostcodeEntries {
    pub postcode: String,
    pub entries: Vec<ProcessedYearEntry>,
}

/// What a `PostcodeEntries` holds, as plain values.
pub struct PostcodeEntriesView {
    pub postcode: Seq<char>,
    pub entries: Seq<ProcessedYearEntryView>,
}

impl View for PostcodeEntries {
    type V = PostcodeEntriesView;

    open spec fn view(&self) -> PostcodeEntriesView {
        PostcodeEntriesView {
            postcode: self.postcode@,
            entries: self.entries@.map_values(|entry: ProcessedYearEntry| entry@),
        }
    }
}

/// The report of one year: every postcode that had a sale in it, in the
/// order in which the postcodes first occurred, each with its buckets.
#[derive(Debug)]
pub struct ProcessedYearEntries {
    pub year: i32,
    pub postcodes: Vec<PostcodeEntries>,
}

/// What a `ProcessedYearEntries` holds, as plain values.
pub struct ProcessedYearEntriesView {
    pub year: i32,
    pub postcodes: Seq<PostcodeEntriesView>,
}

impl View for ProcessedYearEntries {
    type V = ProcessedYearEntriesView;

    open spec fn view(&self) -> ProcessedYearEntriesView {
        ProcessedYearEntriesView {
            year: self.year,
            postcodes: self.postcodes@.map_values(|postcode: PostcodeEntries| postcode@),
        }
    }
}

/// The views of a run of reports, in order.
pub open spec fn report_views(reports: Seq<ProcessedYearEntries>) -> Seq<ProcessedYearEntriesView> {
    reports.map_values(|report: ProcessedYearEntries| report@)
}

/// The bucket key of a sale.
pub open spec fn key_of(entry: EntryView) -> BucketKey {
    (entry.property_type, entry.property_age)
}

/// The test for a sale in `postcode`.
pub open spec fn in_postcode(postcode: Seq<char>) -> spec_fn(EntryView) -> bool {
    |entry: EntryView| entry.postcode == postcode
}

/// The test for a sale in `postcode` that falls under `key`.
pub open spec fn in_bucket(postcode: Seq<char>, key: BucketKey) -> spec_fn(EntryView) -> bool {
    |entry: EntryView| entry.postcode == postcode && key_of(entry) == key
}

/// The test for a sale in `year`.
pub open spec fn in_year(year: i32) -> spec_fn(EntryView) -> bool {
    |entry: EntryView| entry.date.year == year
}

/// The samples of a run of sales, in order.
pub open spec fn samples_from(entries: Seq<EntryView>) -> Seq<PropertyView> {
    entries.map_values(|entry: EntryView| entry.sample())
}

/// The postcodes of `entries`, each once, in the order of their first sale.
pub open spec fn postcodes_of(entries: Seq<EntryView>) -> Seq<Seq<char>>
    decreases entries.len(),
{
    if entries.len() == 0 {
        Seq::empty()
    } else {
        let earlier = postcodes_of(entries.drop_last());
        if earlier.contains(entries.last().postcode) {
            earlier
        } else {
            earlier.push(entries.last().postcode)
        }
    }
}

/// The samples that `entries` put under `key` in `postcode`, in order.
pub open spec fn samples_of(entries: Seq<EntryView>, postcode: Seq<char>, key: BucketKey) -> Seq<
    PropertyView,
> {
    samples_from(entries.filter(in_bucket(postcode, key)))
}

/// What `postcode` has gathered from `entries`: the year of its first sale,
/// and under each key that has any the samples of its sales.
pub open spec fn year_entry_of(entries: Seq<EntryView>, postcode: Seq<char>) -> YearEntryView {
    YearEntryView {
        year: entries.filter(in_postcode(postcode)).first().date.year,
        samples: Map::new(
            |key: BucketKey| samples_of(entries, postcode, key).len() > 0,
            |key: BucketKey| samples_of(entries, postcode, key),
        ),
    }
}

/// The buckets of `postcode` in the report on `entries`.
pub open spec fn postcode_report(
    entries: Seq<EntryView>,
    postcode: Seq<char>,
    band: PriceBand,
) -> PostcodeEntriesView {
    PostcodeEntriesView {
        postcode,
        entries: seq![processed(year_entry_of(entries, postcode), band)],
    }
}

/// The report on `entries`, the sales of one year, under `year`.
pub open spec fn report_of(
    entries: Seq<EntryView>,
    year: i32,
    band: PriceBand,
) -> ProcessedYearEntriesView {
    ProcessedYearEntriesView {
        year,
        postcodes: postcodes_of(entries).map_values(
            |postcode: Seq<char>| postcode_report(entries, postcode, band),
        ),
    }
}

/// `postcodes_of` lists every postcode that has a sale, and none twice.
pub proof fn lemma_postcodes_of(entries: Seq<EntryView>)
    ensures
        postcodes_of(entries).no_duplicates(),
        forall|postcode: Seq<char>| #[trigger]
            postcodes_of(entries).contains(postcode) <==> entries.filter(in_postcode(postcode)).len()
                > 0,
    decreases entries.len(),
{
    if entries.len() == 0 {
        assert forall|postcode: Seq<char>| #[trigger]
            postcodes_of(entries).contains(postcode) <==> entries.filter(in_postcode(postcode)).len()
                > 0 by {
            lemma_filter_nothing(entries, in_postcode(postcode));
        }
    } else {
        let earlier = entries.drop_last();
        let last = entries.last();
        lemma_postcodes_of(earlier);
        assert(earlier.push(last) =~= entries);
        assert forall|postcode: Seq<char>| #[trigger]
            postcodes_of(entries).contains(postcode) <==> entries.filter(in_postcode(postcode)).len()
                > 0 by {
            lemma_filter_push(earlier, last, in_postcode(postcode));
            let before = postcodes_of(earlier);
            if !before.contains(last.postcode) {
                assert(before.push(last.postcode).last() == last.postcode);
                if postcode != last.postcode && before.push(last.postcode).contains(postcode) {
                    let i = choose|i: int|
                        0 <= i < before.len() + 1 && before.push(last.postcode)[i] == postcode;
                    assert(before[i] == postcode);
                }
                if before.contains(postcode) {
                    let i = choose|i: int| 0 <= i < before.len() && before[i] == postcode;
                    assert(before.push(last.postcode)[i] == postcode);
                }
            }
        }
    }
}

/// What one more sale changes in what the postcodes have gathered: its own
/// postcode is listed if it was not, and has the sale's sample appended
/// under the sale's key; every other postcode keeps what it had.
pub proof fn lemma_route(entries: Seq<EntryView>, entry: EntryView)
    ensures
        postcodes_of(entries.push(entry)) == if postcodes_of(entries).contains(entry.postcode) {
            postcodes_of(entries)
        } else {
            postcodes_of(entries).push(entry.postcode)
        },
        year_entry_of(entries.push(entry), entry.postcode) == (if postcodes_of(entries).contains(
            entry.postcode,
        ) {
            year_entry_of(entries, entry.postcode)
        } else {
            YearEntryView { year: entry.date.year, samples: Map::empty() }
        }).with(key_of(entry), entry.sample()),
        forall|postcode: Seq<char>|
            postcode != entry.postcode ==> #[trigger] year_entry_of(entries.push(entry), postcode)
                == year_entry_of(entries, postcode),
{
    let longer = entries.push(entry);
    assert(longer.drop_last() =~= entries);
    lemma_postcodes_of(entries);
    let own = entry.postcode;
    let known = postcodes_of(entries).contains(own);
    let base = if known {
        year_entry_of(entries, own)
    } else {
        YearEntryView { year: entry.date.year, samples: Map::empty() }
    };
    lemma_filter_push(entries, entry, in_postcode(own));
    lemma_filter_nothing(entries, in_postcode(own));
    assert forall|key: BucketKey|
        samples_of(longer, own, key) == if key == key_of(entry) {
            base.list(key).push(entry.sample())
        } else {
            base.list(key)
        } by {
        lemma_filter_push(entries, entry, in_bucket(own, key));
        let before = entries.filter(in_bucket(own, key));
        assert(samples_from(before.push(entry)) =~= samples_from(before).push(entry.sample()));
        if !known {
            lemma_filter_nothing(entries, in_bucket(own, key));
        }
        assert(samples_of(entries, own, key) =~= base.list(key));
    }
    assert(year_entry_of(longer, own).samples =~= base.with(key_of(entry), entry.sample()).samples);
    assert forall|postcode: Seq<char>| postcode != own implies #[trigger] year_entry_of(
        longer,
        postcode,
    ) == year_entry_of(entries, postcode) by {
        lemma_filter_push(entries, entry, in_postcode(postcode));
        assert forall|key: BucketKey|
            samples_of(longer, postcode, key) == samples_of(entries, postcode, key) by {
            lemma_filter_push(entries, entry, in_bucket(postcode, key));
        }
        assert(year_entry_of(longer, postcode).samples =~= year_entry_of(entries, postcode).samples);
    }
}

/// Where the last run of sales of one year begins in `entries`.
pub open spec fn last_run_start(entries: Seq<EntryView>) -> int
    decreases entries.len(),
{
    if entries.len() <= 1 {
        0
    } else if entries[entries.len() - 2].date.year != entries.last().date.year {
        entries.len() - 1
    } else {
        last_run_start(entries.drop_last())
    }
}

/// The last run of `entries` begins within them.
pub proof fn lemma_last_run_start(entries: Seq<EntryView>)
    ensures
        0 <= last_run_start(entries) <= entries.len(),
        entries.len() > 0 ==> last_run_start(entries) < entries.len(),
        forall|i: int|
            last_run_start(entries) <= i < entries.len() ==> (#[trigger] entries[i]).date.year
                == entries.last().date.year,
        last_run_start(entries) > 0 ==> entries[last_run_start(entries) - 1].date.year
            != entries.last().date.year,
    decreases entries.len(),
{
    if entries.len() > 1 && entries[entries.len() - 2].date.year == entries.last().date.year {
        let earlier = entries.drop_last();
        lemma_last_run_start(earlier);
        assert forall|i: int| last_run_start(entries) <= i < entries.len() implies (
        #[trigger] entries[i]).date.year == entries.last().date.year by {
            if i < earlier.len() {
                assert(earlier[i] == entries[i]);
            }
        }
    }
}

/// The reports on a stream of sales: one for each run of sales of one year,
/// in the order of the runs.
pub open spec fn reports_of(entries: Seq<EntryView>, band: PriceBand) -> Seq<
    ProcessedYearEntriesView,
>
    decreases entries.len(),
{
    if entries.len() == 0 {
        Seq::empty()
    } else {
        let start = last_run_start(entries);
        proof {
            lemma_last_run_start(entries);
        }
        reports_of(entries.take(start), band).push(
            report_of(entries.skip(start), entries.last().date.year, band),
        )
    }
}

} // verus!

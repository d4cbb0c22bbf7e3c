use crate::bucket::{
    bucket_of, lemma_statistics_ignore_order, prices_of, PriceBand, PriceBucketView,
};
use crate::order::years_ascending;
use crate::report::{
    in_bucket, in_postcode, in_year, key_of, last_run_start, lemma_last_run_start,
    lemma_postcodes_of, postcode_report, postcodes_of, report_of, reports_of, samples_from,
    samples_of, year_entry_of, ProcessedYearEntriesView,
};
use crate::seqs::{
    lemma_filter_everything, lemma_filter_nothing, lemma_filter_same_elements, lemma_filter_twice,
    lemma_map_same_elements,
};
use crate::types::{EntryView, PropertyView};
use vstd::prelude::*;

verus! {

/// The years of a stream of sales, each once.
pub open spec fn years_in(entries: Seq<EntryView>) -> Set<i32> {
    entries.map_values(|entry: EntryView| entry.date.year).to_set()
}

/// The years of a run of reports, in order.
pub open spec fn report_years(reports: Seq<ProcessedYearEntriesView>) -> Seq<i32> {
    reports.map_values(|report: ProcessedYearEntriesView| report.year)
}

/// The test for a sale that falls into the same bucket as `entry`: the same
/// year, postcode, property type and property age.
pub open spec fn shares_bucket(entry: EntryView) -> spec_fn(EntryView) -> bool {
    |other: EntryView|
        other.date.year == entry.date.year && other.postcode == entry.postcode && key_of(other)
            == key_of(entry)
}

/// In a stream whose years never fall, the last run of one year holds all
/// the sales of that year, and what stands before it all the others.
proof fn lemma_last_run_is_last_year(entries: Seq<EntryView>)
    requires
        years_ascending(entries),
        entries.len() > 0,
    ensures
        entries.skip(last_run_start(entries)) == entries.filter(in_year(entries.last().date.year)),
        years_ascending(entries.take(last_run_start(entries))),
        forall|i: int|
            0 <= i < last_run_start(entries) ==> (#[trigger] entries[i]).date.year
                < entries.last().date.year,
        forall|year: i32|
            year != entries.last().date.year ==> #[trigger] entries.filter(in_year(year))
                == entries.take(last_run_start(entries)).filter(in_year(year)),
{
    let start = last_run_start(entries);
    let last_year = entries.last().date.year;
    let head = entries.take(start);
    let tail = entries.skip(start);
    lemma_last_run_start(entries);
    assert(head + tail =~= entries);
    assert forall|i: int| 0 <= i < start implies (#[trigger] entries[i]).date.year < last_year by {
        assert(entries[i].date.year <= entries[start - 1].date.year);
        assert(entries[start - 1].date.year <= entries[entries.len() - 1].date.year);
    }
    assert forall|i: int, j: int| 0 <= i <= j < head.len() implies (#[trigger] head[i]).date.year <= (
    #[trigger] head[j]).date.year by {
        assert(entries[i].date.year <= entries[j].date.year);
    }
    assert forall|year: i32|
        entries.filter(in_year(year)) == if year == last_year {
            tail
        } else {
            head.filter(in_year(year))
        } by {
        Seq::filter_distributes_over_add(head, tail, in_year(year));
        if year == last_year {
            lemma_filter_everything(tail, in_year(year));
            assert forall|i: int| 0 <= i < head.len() implies !in_year(year)(#[trigger] head[i]) by {
                assert(head[i] == entries[i]);
            }
            lemma_filter_nothing(head, in_year(year));
            assert(head.filter(in_year(year)) + tail =~= tail);
        } else {
            lemma_filter_nothing(tail, in_year(year));
            assert(head.filter(in_year(year)) + tail.filter(in_year(year)) =~= head.filter(
                in_year(year),
            ));
        }
    }
}

/// Some sale of `entries` is of `year`.
pub open spec fn has_sale(entries: Seq<EntryView>, year: i32) -> bool {
    exists|i: int| 0 <= i < entries.len() && (#[trigger] entries[i]).date.year == year
}

/// Some report of `reports` is that of `year`.
pub open spec fn has_report(reports: Seq<ProcessedYearEntriesView>, year: i32) -> bool {
    exists|r: int| 0 <= r < reports.len() && (#[trigger] reports[r]).year == year
}

/// The years of `reports` rise strictly.
pub open spec fn years_rise(reports: Seq<ProcessedYearEntriesView>) -> bool {
    forall|a: int, b: int|
        0 <= a < b < reports.len() ==> (#[trigger] reports[a]).year < (#[trigger] reports[b]).year
}

/// `reports` go by year over `entries`: each is the report on all the sales
/// of its year, their years rise strictly, and they are exactly the years
/// that have a sale.
pub open spec fn go_by_year(
    entries: Seq<EntryView>,
    reports: Seq<ProcessedYearEntriesView>,
    band: PriceBand,
) -> bool {
    &&& forall|r: int|
        0 <= r < reports.len() ==> #[trigger] reports[r] == report_of(
            entries.filter(in_year(reports[r].year)),
            reports[r].year,
            band,
        )
    &&& years_rise(reports)
    &&& forall|r: int| 0 <= r < reports.len() ==> has_sale(entries, (#[trigger] reports[r]).year)
    &&& forall|i: int|
        0 <= i < entries.len() ==> has_report(reports, (#[trigger] entries[i]).date.year)
}

/// Reports that go by year over the sales before the last year still do so
/// with the report of the last year behind them.
proof fn lemma_go_by_year_step(
    entries: Seq<EntryView>,
    start: int,
    earlier: Seq<ProcessedYearEntriesView>,
    band: PriceBand,
)
    requires
        0 <= start < entries.len(),
        go_by_year(entries.take(start), earlier, band),
        forall|i: int|
            0 <= i < start ==> (#[trigger] entries[i]).date.year < entries.last().date.year,
        forall|i: int|
            start <= i < entries.len() ==> (#[trigger] entries[i]).date.year
                == entries.last().date.year,
        entries.skip(start) == entries.filter(in_year(entries.last().date.year)),
        forall|year: i32|
            year != entries.last().date.year ==> #[trigger] entries.filter(in_year(year))
                == entries.take(start).filter(in_year(year)),
    ensures
        go_by_year(
            entries,
            earlier.push(report_of(entries.skip(start), entries.last().date.year, band)),
            band,
        ),
{
    let head = entries.take(start);
    let last_year = entries.last().date.year;
    let reports = earlier.push(report_of(entries.skip(start), last_year, band));
    assert forall|r: int| 0 <= r < earlier.len() implies (#[trigger] earlier[r]).year < last_year
        && has_sale(entries, earlier[r].year) by {
        assert(has_sale(head, earlier[r].year));
        let i = choose|i: int| 0 <= i < head.len() && (#[trigger] head[i]).date.year == earlier[r].year;
        assert(head[i] == entries[i]);
    }
    assert forall|r: int| 0 <= r < reports.len() implies #[trigger] reports[r] == report_of(
        entries.filter(in_year(reports[r].year)),
        reports[r].year,
        band,
    ) by {
        if r < earlier.len() {
            assert(reports[r] == earlier[r]);
        }
    }
    assert(years_rise(reports)) by {
        assert forall|a: int, b: int| 0 <= a < b < reports.len() implies (#[trigger] reports[a]).year
            < (#[trigger] reports[b]).year by {
            assert(reports[a] == earlier[a]);
            if b < earlier.len() {
                assert(reports[b] == earlier[b]);
            }
        }
    }
    assert forall|r: int| 0 <= r < reports.len() implies has_sale(
        entries,
        (#[trigger] reports[r]).year,
    ) by {
        if r < earlier.len() {
            assert(reports[r] == earlier[r]);
        } else {
            assert(entries[entries.len() - 1].date.year == reports[r].year);
        }
    }
    assert forall|i: int| 0 <= i < entries.len() implies has_report(
        reports,
        (#[trigger] entries[i]).date.year,
    ) by {
        if i < start {
            assert(head[i] == entries[i]);
            assert(has_report(earlier, head[i].date.year));
            let r = choose|r: int|
                0 <= r < earlier.len() && (#[trigger] earlier[r]).year == head[i].date.year;
            assert(reports[r] == earlier[r]);
        } else {
            assert(reports[reports.len() - 1].year == entries[i].date.year);
        }
    }
}

/// For a stream whose years never fall, the reports go by year: each
/// report is the report on all the sales of its year, the years of the
/// reports rise strictly, and they are exactly the years that have a sale.
pub proof fn lemma_reports_by_year(entries: Seq<EntryView>, band: PriceBand)
    requires
        years_ascending(entries),
    ensures
        go_by_year(entries, reports_of(entries, band), band),
    decreases entries.len(),
{
    if entries.len() > 0 {
        let start = last_run_start(entries);
        lemma_last_run_start(entries);
        lemma_last_run_is_last_year(entries);
        lemma_reports_by_year(entries.take(start), band);
        lemma_go_by_year_step(entries, start, reports_of(entries.take(start), band), band);
    }
}

/// A stream whose years never fall gets one report for each year that has
/// a sale, and the reports stand in the order of their years.
pub proof fn lemma_one_report_per_year(entries: Seq<EntryView>, band: PriceBand)
    requires
        years_ascending(entries),
    ensures
        reports_of(entries, band).len() == years_in(entries).len(),
        report_years(reports_of(entries, band)).to_set() == years_in(entries),
        years_rise(reports_of(entries, band)),
{
    let reports = reports_of(entries, band);
    let years = report_years(reports);
    let entry_years = entries.map_values(|entry: EntryView| entry.date.year);
    lemma_reports_by_year(entries, band);
    assert forall|a: int, b: int| 0 <= a < years.len() && 0 <= b < years.len() && a != b implies years[a]
        != years[b] by {
        if a < b {
            assert(reports[a].year < reports[b].year);
        } else {
            assert(reports[b].year < reports[a].year);
        }
    }
    years.unique_seq_to_set();
    assert forall|year: i32| years.to_set().contains(year) <==> years_in(entries).contains(year) by {
        if years.contains(year) {
            let r = choose|r: int| 0 <= r < years.len() && years[r] == year;
            assert(has_sale(entries, reports[r].year));
            let i = choose|i: int| 0 <= i < entries.len() && (#[trigger] entries[i]).date.year == year;
            assert(entry_years[i] == year);
        }
        if entry_years.contains(year) {
            let i = choose|i: int| 0 <= i < entry_years.len() && entry_years[i] == year;
            assert(has_report(reports, entries[i].date.year));
            let r = choose|r: int| 0 <= r < reports.len() && (#[trigger] reports[r]).year == year;
            assert(years[r] == year);
        }
    }
    assert(years.to_set() =~= years_in(entries));
}

/// Report `r` of `reports` is the report of the year of `entry`, and lists
/// the postcode of `entry` at `p`.
pub open spec fn is_place_of(
    reports: Seq<ProcessedYearEntriesView>,
    r: int,
    p: int,
    entry: EntryView,
) -> bool {
    &&& 0 <= r < reports.len()
    &&& 0 <= p < reports[r].postcodes.len()
    &&& reports[r].year == entry.date.year
    &&& reports[r].postcodes[p].postcode == entry.postcode
}

/// The bucket that `reports` show at the place `r`, `p` under the property
/// type and age of `entry`.
pub open spec fn bucket_at(
    reports: Seq<ProcessedYearEntriesView>,
    r: int,
    p: int,
    entry: EntryView,
) -> PriceBucketView {
    reports[r].postcodes[p].entries[0].buckets[key_of(entry)]
}

/// `r`, `p` is the one place of `entry` in `reports`, and there the one
/// entry of its postcode, of the year of `entry`, has a bucket under the
/// property type and age of `entry`.
pub open spec fn is_only_place_of(
    reports: Seq<ProcessedYearEntriesView>,
    r: int,
    p: int,
    entry: EntryView,
) -> bool {
    &&& is_place_of(reports, r, p, entry)
    &&& forall|r2: int, p2: int| #[trigger]
        is_place_of(reports, r2, p2, entry) ==> r2 == r && p2 == p
    &&& reports[r].postcodes[p].entries.len() == 1
    &&& reports[r].postcodes[p].entries[0].year == entry.date.year
    &&& reports[r].postcodes[p].entries[0].buckets.dom().contains(key_of(entry))
}

/// In the reports on a stream whose years never fall, every sale has
/// exactly one place: one report, that of its year, and in it one
/// postcode, its own. There the bucket under the sale's property type and
/// age summarises exactly the sales that share its year, postcode, type
/// and age, the sale itself among them.
pub proof fn lemma_every_sale_in_one_bucket(entries: Seq<EntryView>, band: PriceBand, i: int)
    requires
        years_ascending(entries),
        0 <= i < entries.len(),
    ensures
        exists|r: int, p: int|
            #[trigger] is_only_place_of(reports_of(entries, band), r, p, entries[i]) && bucket_at(
                reports_of(entries, band),
                r,
                p,
                entries[i],
            ) == bucket_of(samples_from(entries.filter(shares_bucket(entries[i]))), band),
        entries.filter(shares_bucket(entries[i])).contains(entries[i]),
{
    let entry = entries[i];
    let year = entry.date.year;
    let postcode = entry.postcode;
    let key = key_of(entry);
    let reports = reports_of(entries, band);
    lemma_reports_by_year(entries, band);
    assert(has_report(reports, entries[i].date.year));
    let r = choose|r: int| 0 <= r < reports.len() && (#[trigger] reports[r]).year == year;
    let run = entries.filter(in_year(year));
    assert(reports[r] == report_of(run, year, band));
    // The sale stands in the run of its year, under its postcode and key.
    entries.lemma_filter_contains(in_year(year), i);
    let at = choose|at: int| 0 <= at < run.len() && run[at] == entry;
    lemma_filter_nothing(run, in_postcode(postcode));
    assert(in_postcode(postcode)(run[at]));
    lemma_filter_nothing(run, in_bucket(postcode, key));
    assert(in_bucket(postcode, key)(run[at]));
    lemma_postcodes_of(run);
    assert(postcodes_of(run).contains(postcode));
    let p = choose|p: int| 0 <= p < postcodes_of(run).len() && postcodes_of(run)[p] == postcode;
    assert(reports[r].postcodes[p] == postcode_report(run, postcode, band));
    let gathered = year_entry_of(run, postcode);
    assert(gathered.samples.dom().contains(key));
    // Its bucket holds the sales that share its year, postcode and key.
    lemma_filter_twice(entries, in_year(year), in_bucket(postcode, key), shares_bucket(entry));
    assert(samples_of(run, postcode, key) == samples_from(entries.filter(shares_bucket(entry))));
    entries.lemma_filter_contains(shares_bucket(entry), i);
    // The year of the postcode's entry is that of its first sale in the run.
    let local = run.filter(in_postcode(postcode));
    assert(local.contains(local[0]));
    run.lemma_filter_contains_rev(in_postcode(postcode), local[0]);
    let first_at = choose|j: int| 0 <= j < run.len() && run[j] == local[0];
    entries.lemma_filter_pred(in_year(year), first_at);
    assert(in_year(year)(run[first_at]));
    assert(gathered.year == year);
    // No other place shows the sale.
    assert forall|r2: int, p2: int| #[trigger] is_place_of(reports, r2, p2, entry) implies r2 == r
        && p2 == p by {
        if r2 < r {
            assert(reports[r2].year < reports[r].year);
        } else if r < r2 {
            assert(reports[r].year < reports[r2].year);
        }
        assert(postcodes_of(run)[p2] == postcode);
    }
    assert(is_only_place_of(reports, r, p, entry));
}

/// The year of the last sale is always reported on, whether or not another
/// year came before it: the last report is that of the last sale's year,
/// on the last run of sales of one year, which holds the last sale.
pub proof fn lemma_last_year_is_reported(entries: Seq<EntryView>, band: PriceBand)
    requires
        entries.len() > 0,
    ensures
        reports_of(entries, band).len() > 0,
        reports_of(entries, band).last() == report_of(
            entries.skip(last_run_start(entries)),
            entries.last().date.year,
            band,
        ),
        entries.skip(last_run_start(entries)).contains(entries.last()),
{
    lemma_last_run_start(entries);
    let run = entries.skip(last_run_start(entries));
    assert(run[run.len() - 1] == entries.last());
}

/// A stream of sales of one year gets exactly one report, that of the year:
/// the year of the last sale is reported on though no other year follows.
pub proof fn lemma_single_year(entries: Seq<EntryView>, band: PriceBand)
    requires
        entries.len() > 0,
        forall|i: int|
            0 <= i < entries.len() ==> (#[trigger] entries[i]).date.year == entries[0].date.year,
    ensures
        reports_of(entries, band) == seq![report_of(entries, entries[0].date.year, band)],
{
    lemma_last_run_start(entries);
    let start = last_run_start(entries);
    if start > 0 {
        assert(entries[start - 1].date.year == entries[0].date.year);
        assert(entries[entries.len() - 1].date.year == entries[0].date.year);
    }
    assert(entries.skip(0) =~= entries);
    assert(entries.take(0).len() == 0);
    assert(reports_of(entries.take(0), band) =~= Seq::<ProcessedYearEntriesView>::empty());
    assert(reports_of(entries, band) =~= seq![report_of(entries, entries[0].date.year, band)]);
}

/// Two buckets have the same count, median and price range.
pub open spec fn same_statistics(one: PriceBucketView, other: PriceBucketView) -> bool {
    &&& one.count == other.count
    &&& one.median_doubled == other.median_doubled
    &&& one.range == other.range
}

/// The count, the median and the price range of the sales that share a
/// bucket go by which sales they are, not by the order in which they come.
pub proof fn lemma_same_sales_same_statistics(
    first: Seq<EntryView>,
    second: Seq<EntryView>,
    entry: EntryView,
    band: PriceBand,
)
    requires
        first.to_multiset() == second.to_multiset(),
    ensures
        same_statistics(
            bucket_of(samples_from(first.filter(shares_bucket(entry))), band),
            bucket_of(samples_from(second.filter(shares_bucket(entry))), band),
        ),
{
    broadcast use vstd::seq_lib::group_to_multiset_ensures;

    let a = first.filter(shares_bucket(entry));
    let b = second.filter(shares_bucket(entry));
    lemma_filter_same_elements(first, second, shares_bucket(entry));
    let sample = |e: EntryView| e.sample();
    let price = |p: PropertyView| p.price;
    lemma_map_same_elements(a, b, sample);
    assert(a.map_values(sample) =~= samples_from(a));
    assert(b.map_values(sample) =~= samples_from(b));
    lemma_map_same_elements(samples_from(a), samples_from(b), price);
    assert(samples_from(a).map_values(price) =~= prices_of(samples_from(a)));
    assert(samples_from(b).map_values(price) =~= prices_of(samples_from(b)));
    lemma_statistics_ignore_order(prices_of(samples_from(a)), prices_of(samples_from(b)));
}

/// Two runs over the same sales show every sale in a bucket of the same
/// count, median and price range, whatever the order in which the sales of
/// one year came to stand in each run.
pub proof fn lemma_rerun_same_statistics(
    first: Seq<EntryView>,
    second: Seq<EntryView>,
    band: PriceBand,
    i: int,
)
    requires
        years_ascending(first),
        years_ascending(second),
        first.to_multiset() == second.to_multiset(),
        0 <= i < first.len(),
    ensures
        exists|r1: int, p1: int, r2: int, p2: int|
            #![trigger
                is_only_place_of(reports_of(first, band), r1, p1, first[i]),
                is_only_place_of(reports_of(second, band), r2, p2, first[i]),
            ]
            {
                &&& is_only_place_of(reports_of(first, band), r1, p1, first[i])
                &&& is_only_place_of(reports_of(second, band), r2, p2, first[i])
                &&& same_statistics(
                    bucket_at(reports_of(first, band), r1, p1, first[i]),
                    bucket_at(reports_of(second, band), r2, p2, first[i]),
                )
            },
{
    broadcast use vstd::seq_lib::group_to_multiset_ensures;

    let entry = first[i];
    assert(first.contains(entry));
    assert(second.to_multiset().count(entry) > 0);
    assert(second.contains(entry));
    let j = choose|j: int| 0 <= j < second.len() && second[j] == entry;
    lemma_every_sale_in_one_bucket(first, band, i);
    lemma_every_sale_in_one_bucket(second, band, j);
    let one = reports_of(first, band);
    let other = reports_of(second, band);
    let (r1, p1) = choose|r: int, p: int|
        #[trigger] is_only_place_of(one, r, p, entry) && bucket_at(one, r, p, entry) == bucket_of(
            samples_from(first.filter(shares_bucket(entry))),
            band,
        );
    let (r2, p2) = choose|r: int, p: int|
        #[trigger] is_only_place_of(other, r, p, entry) && bucket_at(other, r, p, entry)
            == bucket_of(samples_from(second.filter(shares_bucket(entry))), band);
    lemma_same_sales_same_statistics(first, second, entry, band);
    assert(is_only_place_of(one, r1, p1, entry) && is_only_place_of(other, r2, p2, entry)
        && same_statistics(bucket_at(one, r1, p1, entry), bucket_at(other, r2, p2, entry)));
}

} // verus!

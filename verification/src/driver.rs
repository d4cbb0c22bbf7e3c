use crate::aggregate::YearAggregate;
use crate::bucket::PriceBand;
use crate::error::PipelineError;
use crate::report::{
    last_run_start, lemma_last_run_start, report_views, reports_of, ProcessedYearEntries,
    ProcessedYearEntriesView,
};
use crate::types::{entry_views, Entry, EntryView};
use vstd::prelude::*;

verus! {

/// What one more sale does to the reports on a stream: a sale of another
/// year leaves them all standing and opens a new one; a sale of the same
/// year changes the last report only.
pub proof fn lemma_reports_step(entries: Seq<EntryView>, entry: EntryView, band: PriceBand)
    requires
        entries.len() > 0,
    ensures
        reports_of(entries.push(entry), band).len() > 0,
        reports_of(entries, band).len() > 0,
        reports_of(entries.push(entry), band).drop_last() == if entry.date.year
            != entries.last().date.year {
            reports_of(entries, band)
        } else {
            reports_of(entries, band).drop_last()
        },
{
    let longer = entries.push(entry);
    let start = last_run_start(entries);
    lemma_last_run_start(entries);
    lemma_last_run_start(longer);
    assert(longer.drop_last() =~= entries);
    assert(longer[longer.len() - 2] == entries.last());
    if entry.date.year != entries.last().date.year {
        assert(longer.take(entries.len() as int) =~= entries);
    } else {
        assert(last_run_start(longer) == start);
        assert(longer.take(start) =~= entries.take(start));
        assert(reports_of(entries, band).drop_last() =~= reports_of(entries.take(start), band));
    }
    assert(reports_of(longer, band).drop_last() =~= reports_of(
        longer.take(last_run_start(longer)),
        band,
    ));
}

/// The walk over a stream of sales in the order of their dates. It gathers
/// the sales of the current year, and hands out that year's report when a
/// sale of another year arrives or the stream ends.
pub struct Driver {
    aggregate: YearAggregate,
    current_year: i32,
    band: PriceBand,
    seen: Ghost<Seq<EntryView>>,
}

impl Driver {
    /// The sales accepted so far, in order.
    pub closed spec fn seen(&self) -> Seq<EntryView> {
        self.seen@
    }

    /// The sales that the driver holds: those gathered for the report of
    /// the current year.
    pub closed spec fn gathered(&self) -> Seq<EntryView> {
        self.aggregate.routed()
    }

    /// The band that the reports list sales of.
    pub closed spec fn band(&self) -> PriceBand {
        self.band
    }

    /// The driver has accepted a sale, its current year is that of the last
    /// one, and it has gathered the last run of sales of one year.
    pub closed spec fn wf(&self) -> bool {
        &&& self.aggregate.wf()
        &&& self.seen@.len() > 0
        &&& self.current_year == self.seen@.last().date.year
        &&& self.aggregate.routed() == self.seen@.skip(last_run_start(self.seen@))
    }

    /// The driver holds the sales of one year only: the last run of sales
    /// of one year in what it has accepted.
    pub proof fn lemma_gathers_one_year(&self)
        requires
            self.wf(),
        ensures
            self.seen().len() > 0,
            self.gathered() == self.seen().skip(last_run_start(self.seen())),
            forall|i: int|
                0 <= i < self.gathered().len() ==> (#[trigger] self.gathered()[i]).date.year
                    == self.seen().last().date.year,
    {
        lemma_last_run_start(self.seen@);
    }

    /// Begins a walk with the first sale of the stream.
    pub fn start(first: &Entry, band: PriceBand) -> (driver: Driver)
        ensures
            driver.wf(),
            driver.seen() == seq![first@],
            driver.band() == band,
    {
        let mut aggregate = YearAggregate::new();
        aggregate.route(first);
        let driver = Driver {
            aggregate,
            current_year: first.date.year,
            band,
            seen: Ghost(Seq::empty().push(first@)),
        };
        proof {
            assert(driver.seen@ =~= seq![first@]);
            assert(seq![first@].skip(0) =~= Seq::<EntryView>::empty().push(first@));
        }
        driver
    }

    /// The year whose sales are being gathered.
    pub fn current_year(&self) -> (year: i32)
        requires
            self.wf(),
        ensures
            year == self.seen().last().date.year,
    {
        self.current_year
    }

    /// Takes the next sale of the stream. Where its year is not the current
    /// one, the report of the current year is completed and handed out
    /// first, and the sale begins the gathering of its own year.
    pub fn accept(&mut self, entry: &Entry) -> (flushed: Option<ProcessedYearEntries>)
        requires
            old(self).wf(),
        ensures
            final(self).wf(),
            final(self).seen() == old(self).seen().push(entry@),
            final(self).band() == old(self).band(),
            match flushed {
                Some(report) => entry.date.year != old(self).seen().last().date.year && report@
                    == reports_of(old(self).seen(), old(self).band()).last(),
                None => entry.date.year == old(self).seen().last().date.year,
            },
    {
        let ghost before = self.seen@;
        let ghost after = before.push(entry@);
        proof {
            lemma_last_run_start(before);
            lemma_last_run_start(after);
            assert(after.drop_last() =~= before);
            assert(after[after.len() - 2] == before.last());
        }
        let flushed = if entry.date.year != self.current_year {
            let report = self.aggregate.drain_to_report(self.current_year, &self.band);
            self.current_year = entry.date.year;
            Some(report)
        } else {
            None
        };
        self.aggregate.route(entry);
        proof {
            self.seen@ = after;
            assert(self.aggregate.routed() =~= after.skip(last_run_start(after)));
        }
        flushed
    }

    /// Ends the walk: completes and hands out the report of the current
    /// year.
    pub fn finish(self) -> (report: ProcessedYearEntries)
        requires
            self.wf(),
        ensures
            report@ == reports_of(self.seen(), self.band()).last(),
    {
        let mut aggregate = self.aggregate;
        aggregate.drain_to_report(self.current_year, &self.band)
    }
}

/// The reports on a stream of sales: one for each run of sales of one year,
/// in the order of the runs. A stream without sales is refused.
pub fn yearly_reports(entries: &Vec<Entry>, band: PriceBand) -> (result: Result<
    Vec<ProcessedYearEntries>,
    PipelineError,
>)
    ensures
        match result {
            Ok(reports) => entries@.len() > 0 && report_views(reports@) == reports_of(
                entry_views(entries@),
                band,
            ),
            Err(error) => entries@.len() == 0 && error == PipelineError::EmptyInput,
        },
{
    if entries.len() == 0 {
        return Err(PipelineError::EmptyInput);
    }
    let ghost stream = entry_views(entries@);
    let mut driver = Driver::start(&entries[0], band);
    let mut reports: Vec<ProcessedYearEntries> = Vec::new();
    let mut i: usize = 1;
    proof {
        assert(stream.take(1) =~= seq![entries@[0]@]);
        lemma_last_run_start(stream.take(1));
        assert(reports_of(stream.take(1).take(0), band) =~= Seq::<
            ProcessedYearEntriesView,
        >::empty());
        assert(reports_of(stream.take(1), band).drop_last() =~= Seq::<
            ProcessedYearEntriesView,
        >::empty());
    }
    while i < entries.len()
        invariant
            1 <= i <= entries@.len(),
            stream == entry_views(entries@),
            driver.wf(),
            driver.band() == band,
            driver.seen() == stream.take(i as int),
            report_views(reports@) == reports_of(stream.take(i as int), band).drop_last(),
        decreases entries@.len() - i,
    {
        proof {
            lemma_reports_step(stream.take(i as int), entries@[i as int]@, band);
            assert(stream.take(i as int).push(entries@[i as int]@) =~= stream.take(i + 1));
        }
        match driver.accept(&entries[i]) {
            Some(report) => {
                proof {
                    assert(report_views(reports@.push(report)) =~= report_views(reports@).push(
                        report@,
                    ));
                    let earlier = reports_of(stream.take(i as int), band);
                    assert(earlier.drop_last().push(earlier.last()) =~= earlier);
                }
                reports.push(report);
            },
            None => {},
        }
        i = i + 1;
    }
    let last = driver.finish();
    proof {
        assert(stream.take(i as int) =~= stream);
        assert(report_views(reports@.push(last)) =~= report_views(reports@).push(last@));
        let all = reports_of(stream, band);
        assert(all.drop_last().push(all.last()) =~= all);
    }
    reports.push(last);
    Ok(reports)
}

} // verus!

use crate::bucket::PriceBand;
use crate::report::{
    lemma_postcodes_of, lemma_route, postcode_report, postcodes_of, report_of, year_entry_of,
    PostcodeEntries, ProcessedYearEntries,
};
use crate::types::{Entry, EntryView, Property};
use crate::year::{process_year_entry, ProcessedYearEntry, YearEntry};
use vstd::prelude::*;

verus! {

/// The sales of the year being read, gathered by postcode, then by property
/// type and age.
pub struct YearAggregate {
    postcodes: Vec<String>,
    entries: Vec<YearEntry>,
    routed: Ghost<Seq<EntryView>>,
}

impl YearAggregate {
    /// The sales routed into the aggregate since it was last empty, in order.
    pub closed spec fn routed(&self) -> Seq<EntryView> {
        self.routed@
    }

    /// The aggregate holds exactly what its routed sales amount to: their
    /// postcodes in the order of first sale, each with what it has gathered.
    pub closed spec fn wf(&self) -> bool {
        &&& self.postcodes@.len() == self.entries@.len()
        &&& self.postcodes@.len() == postcodes_of(self.routed@).len()
        &&& forall|p: int|
            0 <= p < self.postcodes@.len() ==> (#[trigger] self.postcodes@[p])@ == postcodes_of(
                self.routed@,
            )[p]
        &&& forall|p: int|
            0 <= p < self.entries@.len() ==> (#[trigger] self.entries@[p])@ == year_entry_of(
                self.routed@,
                postcodes_of(self.routed@)[p],
            )
    }

    /// An aggregate without sales.
    pub fn new() -> (aggregate: YearAggregate)
        ensures
            aggregate.wf(),
            aggregate.routed() == Seq::<EntryView>::empty(),
    {
        YearAggregate { postcodes: Vec::new(), entries: Vec::new(), routed: Ghost(Seq::empty()) }
    }

    /// How many postcodes have a sale.
    pub fn postcode_count(&self) -> (count: usize)
        requires
            self.wf(),
        ensures
            count == postcodes_of(self.routed()).len(),
    {
        self.postcodes.len()
    }

    /// Where `postcode` stands among the postcodes seen.
    fn position(&self, postcode: &String) -> (found: Option<usize>)
        requires
            self.wf(),
        ensures
            match found {
                Some(p) => p < self.postcodes@.len() && self.postcodes@[p as int]@ == postcode@,
                None => !postcodes_of(self.routed@).contains(postcode@),
            },
    {
        let mut p: usize = 0;
        while p < self.postcodes.len()
            invariant
                self.wf(),
                p <= self.postcodes@.len(),
                forall|q: int| 0 <= q < p ==> postcodes_of(self.routed@)[q] != postcode@,
            decreases self.postcodes@.len() - p,
        {
            if self.postcodes[p] == *postcode {
                return Some(p);
            }
            assert(self.postcodes@[p as int]@ == postcodes_of(self.routed@)[p as int]);
            p = p + 1;
        }
        None
    }

    /// Files one sale under its postcode, property type and property age,
    /// listing the postcode if this is its first sale.
    pub fn route(&mut self, entry: &Entry)
        requires
            old(self).wf(),
        ensures
            final(self).wf(),
            final(self).routed() == old(self).routed().push(entry@),
    {
        let ghost before = self.routed@;
        let ghost after = before.push(entry@);
        proof {
            lemma_route(before, entry@);
            lemma_postcodes_of(before);
        }
        let p: usize = match self.position(&entry.postcode) {
            Some(p) => p,
            None => {
                self.postcodes.push(entry.postcode.clone());
                self.entries.push(YearEntry::new(entry.date.year));
                self.postcodes.len() - 1
            },
        };
        let property = Property { address: entry.address.clone(), price: entry.price };
        assert(property@ == entry@.sample());
        self.entries[p].add(entry.property_type, entry.property_age, property);
        proof {
            self.routed@ = after;
            assert(postcodes_of(after)[p as int] == entry@.postcode);
            assert forall|q: int| 0 <= q < self.entries@.len() implies (#[trigger] self.entries@[q])@
                == year_entry_of(after, postcodes_of(after)[q]) by {
                if q != p {
                    assert(postcodes_of(after)[q] != postcodes_of(after)[p as int]);
                }
            }
        }
    }

    /// Summarises the sales gathered, postcode by postcode, into the report
    /// of `year`, and leaves the aggregate empty.
    pub fn drain_to_report(&mut self, year: i32, band: &PriceBand) -> (report: ProcessedYearEntries)
        requires
            old(self).wf(),
        ensures
            report@ == report_of(old(self).routed(), year, *band),
            final(self).wf(),
            final(self).routed() == Seq::<EntryView>::empty(),
    {
        let ghost routed = self.routed@;
        let mut postcodes: Vec<PostcodeEntries> = Vec::new();
        let mut p: usize = 0;
        while p < self.entries.len()
            invariant
                self.wf(),
                self.routed@ == routed,
                p <= self.entries@.len(),
                postcodes@.len() == p,
                forall|q: int|
                    0 <= q < p ==> (#[trigger] postcodes@[q])@ == postcode_report(
                        routed,
                        postcodes_of(routed)[q],
                        *band,
                    ),
            decreases self.entries@.len() - p,
        {
            let ghost entries_before = self.entries@;
            let processed = process_year_entry(&mut self.entries[p], band);
            assert(self.entries@ =~= entries_before);
            let mut entries: Vec<ProcessedYearEntry> = Vec::new();
            entries.push(processed);
            let postcode = PostcodeEntries { postcode: self.postcodes[p].clone(), entries };
            proof {
                assert(postcode@.entries =~= postcode_report(
                    routed,
                    postcodes_of(routed)[p as int],
                    *band,
                ).entries);
            }
            postcodes.push(postcode);
            p = p + 1;
        }
        self.postcodes.clear();
        self.entries.clear();
        proof {
            self.routed@ = Seq::empty();
        }
        let report = ProcessedYearEntries { year, postcodes };
        proof {
            assert(report@.postcodes =~= report_of(routed, year, *band).postcodes);
        }
        report
    }
}

} // verus!

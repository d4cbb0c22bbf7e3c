use crate::bucket::{bucket_of, to_price_bucket, PriceBand, PriceBucket, PriceBucketView};
use crate::types::{property_views, Property, PropertyAge, PropertyType, PropertyView};
use vstd::prelude::*;

verus! {

/// The key of a bucket within one postcode and year.
pub type BucketKey = (PropertyType, PropertyAge);

/// The place of a bucket in the table of a year entry: the five property
/// types in order, each with its new builds before its established ones.
pub open spec fn slot_of(key: BucketKey) -> int {
    let by_type: int = match key.0 {
        PropertyType::Detached => 0,
        PropertyType::SemiDetached => 2,
        PropertyType::Terraced => 4,
        PropertyType::Flat => 6,
        PropertyType::Other => 8,
    };
    match key.1 {
        PropertyAge::New => by_type,
        PropertyAge::Old => by_type + 1,
    }
}

fn slot(property_type: PropertyType, property_age: PropertyAge) -> (k: usize)
    ensures
        k == slot_of((property_type, property_age)),
        k < 10,
{
    let by_type: usize = match property_type {
        PropertyType::Detached => 0,
        PropertyType::SemiDetached => 2,
        PropertyType::Terraced => 4,
        PropertyType::Flat => 6,
        PropertyType::Other => 8,
    };
    match property_age {
        PropertyAge::New => by_type,
        PropertyAge::Old => by_type + 1,
    }
}

/// The samples that one postcode has gathered in the year being read, by
/// property type and property age.
#[derive(Debug)]
pub struct YearEntry {
    properties: [Vec<Property>; 10],
    year: i32,
}

/// What a `YearEntry` holds: its year, and for each bucket key that has
/// samples, those samples in the order they came.
pub struct YearEntryView {
    pub year: i32,
    pub samples: Map<BucketKey, Seq<PropertyView>>,
}

impl YearEntryView {
    /// The samples under `key`, none where the key is absent.
    pub open spec fn list(self, key: BucketKey) -> Seq<PropertyView> {
        if self.samples.dom().contains(key) {
            self.samples[key]
        } else {
            Seq::empty()
        }
    }

    /// This entry with `sample` appended under `key`.
    pub open spec fn with(self, key: BucketKey, sample: PropertyView) -> YearEntryView {
        YearEntryView {
            year: self.year,
            samples: self.samples.insert(key, self.list(key).push(sample)),
        }
    }
}

impl View for YearEntry {
    type V = YearEntryView;

    closed spec fn view(&self) -> YearEntryView {
        YearEntryView {
            year: self.year,
            samples: Map::new(
                |key: BucketKey| self.properties@[slot_of(key)]@.len() > 0,
                |key: BucketKey| property_views(self.properties@[slot_of(key)]@),
            ),
        }
    }
}

impl YearEntry {
    /// An entry of `year` without samples.
    pub fn new(year: i32) -> (entry: YearEntry)
        ensures
            entry@ == (YearEntryView { year, samples: Map::empty() }),
    {
        let entry = YearEntry {
            properties: [
                Vec::new(),
                Vec::new(),
                Vec::new(),
                Vec::new(),
                Vec::new(),
                Vec::new(),
                Vec::new(),
                Vec::new(),
                Vec::new(),
                Vec::new(),
            ],
            year,
        };
        assert(entry@.samples =~= Map::<BucketKey, Seq<PropertyView>>::empty());
        entry
    }

    /// The year of the sale that opened the entry.
    pub fn year(&self) -> (year: i32)
        ensures
            year == self@.year,
    {
        self.year
    }

    /// The samples gathered under a property type and age.
    pub fn samples(&self, property_type: PropertyType, property_age: PropertyAge) -> (samples: &Vec<
        Property,
    >)
        ensures
            property_views(samples@) == self@.list((property_type, property_age)),
    {
        let k: usize = slot(property_type, property_age);
        assert(property_views(self.properties@[k as int]@) =~= self@.list(
            (property_type, property_age),
        ));
        &self.properties[k]
    }

    /// Appends `property` to the samples of its property type and age.
    pub fn add(&mut self, property_type: PropertyType, property_age: PropertyAge, property: Property)
        ensures
            final(self)@ == old(self)@.with((property_type, property_age), property@),
    {
        let k: usize = slot(property_type, property_age);
        let ghost key = (property_type, property_age);
        let ghost before = self.properties@[k as int]@;
        self.properties[k].push(property);
        proof {
            assert(self.properties@[k as int]@ == before.push(property));
            assert(forall|j: int|
                0 <= j < 10 && j != k ==> self.properties@[j] == old(self).properties@[j]);
            assert(property_views(before.push(property)) =~= property_views(before).push(property@));
            assert forall|other: BucketKey| other != key implies slot_of(other) != slot_of(key) by {}
            assert(property_views(before) =~= old(self)@.list(key));
            let target = old(self)@.with(key, property@).samples;
            assert forall|other: BucketKey| self@.samples.dom().contains(other) implies (
            #[trigger] target.dom().contains(other)) && self@.samples[other] == target[other] by {
                if other != key {
                    assert(self.properties@[slot_of(other)] == old(self).properties@[slot_of(other)]);
                }
            }
            assert forall|other: BucketKey| #[trigger]
                target.dom().contains(other) implies self@.samples.dom().contains(other) by {
                if other != key {
                    assert(self.properties@[slot_of(other)] == old(self).properties@[slot_of(other)]);
                }
            }
            assert(self@.samples =~= target);
        }
    }
}

/// The buckets of one postcode in one year.
#[derive(Debug)]
pub struct ProcessedYearEntry {
    year: i32,
    buckets: [Option<PriceBucket>; 10],
}

/// What a `ProcessedYearEntry` holds: its year, and the bucket of each key
/// that had samples.
pub struct ProcessedYearEntryView {
    pub year: i32,
    pub buckets: Map<BucketKey, PriceBucketView>,
}

impl View for ProcessedYearEntry {
    type V = ProcessedYearEntryView;

    closed spec fn view(&self) -> ProcessedYearEntryView {
        ProcessedYearEntryView {
            year: self.year,
            buckets: Map::new(
                |key: BucketKey| self.buckets@[slot_of(key)] is Some,
                |key: BucketKey| self.buckets@[slot_of(key)]->0@,
            ),
        }
    }
}

impl ProcessedYearEntry {
    /// The year of the entry that was summarised.
    pub fn year(&self) -> (year: i32)
        ensures
            year == self@.year,
    {
        self.year
    }

    /// The bucket of a property type and age, if any sale fell under them.
    pub fn bucket(&self, property_type: PropertyType, property_age: PropertyAge) -> (found: Option<
        &PriceBucket,
    >)
        ensures
            match found {
                Some(bucket) => self@.buckets.dom().contains((property_type, property_age))
                    && self@.buckets[(property_type, property_age)] == bucket@,
                None => !self@.buckets.dom().contains((property_type, property_age)),
            },
    {
        let k: usize = slot(property_type, property_age);
        match &self.buckets[k] {
            Some(bucket) => Some(bucket),
            None => None,
        }
    }
}

/// The buckets that the samples of a year entry give: one for each key that
/// has samples, summarising them.
pub open spec fn processed(entry: YearEntryView, band: PriceBand) -> ProcessedYearEntryView {
    ProcessedYearEntryView {
        year: entry.year,
        buckets: entry.samples.map_values(|samples: Seq<PropertyView>| bucket_of(samples, band)),
    }
}

/// Summarises every bucket of `entry` that has samples, under the entry's
/// year. The entry keeps its samples.
pub fn process_year_entry(entry: &mut YearEntry, band: &PriceBand) -> (result: ProcessedYearEntry)
    ensures
        result@ == processed(old(entry)@, *band),
        *final(entry) == *old(entry),
{
    let mut buckets: [Option<PriceBucket>; 10] = [
        None,
        None,
        None,
        None,
        None,
        None,
        None,
        None,
        None,
        None,
    ];
    let mut k: usize = 0;
    while k < 10
        invariant
            k <= 10,
            *entry == *old(entry),
            forall|j: int| k <= j < 10 ==> buckets@[j] is None,
            forall|j: int|
                0 <= j < k ==> #[trigger] buckets@[j] is Some == (entry.properties@[j]@.len() > 0),
            forall|j: int|
                0 <= j < k && entry.properties@[j]@.len() > 0 ==> (#[trigger] buckets@[j])->0@
                    == bucket_of(property_views(entry.properties@[j]@), *band),
        decreases 10 - k,
    {
        if entry.properties[k].len() > 0 {
            let bucket = to_price_bucket(&mut entry.properties[k], band);
            buckets[k] = Some(bucket);
        }
        proof {
            assert(entry.properties@ =~= old(entry).properties@);
            assert(entry.properties == old(entry).properties);
        }
        k = k + 1;
    }
    let result = ProcessedYearEntry { year: entry.year, buckets };
    proof {
        assert(result@.buckets =~= processed(entry@, *band).buckets);
    }
    result
}

} // verus!

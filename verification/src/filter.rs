use crate::types::{DurationOfTransfer, EntryView, PropertyType};
use vstd::prelude::*;
use vstd::string::StringExecFns;

verus! {

/// Which sales a run reports on.
#[derive(Debug)]
pub struct Filter {
    /// The first year that is reported on.
    pub min_year: i32,
    /// The tenure whose sales are kept.
    pub tenure: DurationOfTransfer,
    /// The outcodes whose sales are kept.
    pub postcodes: Vec<String>,
    /// The property types whose sales are dropped.
    pub excluded_types: Vec<PropertyType>,
}

/// What a `Filter` holds, as plain values.
pub struct FilterView {
    pub min_year: i32,
    pub tenure: DurationOfTransfer,
    pub postcodes: Seq<Seq<char>>,
    pub excluded_types: Seq<PropertyType>,
}

impl FilterView {
    /// Whether a sale with these properties is reported on: it is not
    /// older than the first year, has the tenure asked for, lies in a
    /// listed outcode and is of no excluded type.
    pub open spec fn admits(
        self,
        year: i32,
        duration: DurationOfTransfer,
        postcode: Seq<char>,
        property_type: PropertyType,
    ) -> bool {
        &&& year >= self.min_year
        &&& duration == self.tenure
        &&& self.postcodes.contains(postcode)
        &&& !self.excluded_types.contains(property_type)
    }

    /// Whether `entry` is reported on.
    pub open spec fn keeps(self, entry: EntryView) -> bool {
        self.admits(entry.date.year, entry.duration, entry.postcode, entry.property_type)
    }
}

impl View for Filter {
    type V = FilterView;

    open spec fn view(&self) -> FilterView {
        FilterView {
            min_year: self.min_year,
            tenure: self.tenure,
            postcodes: self.postcodes@.map_values(|postcode: String| postcode@),
            excluded_types: self.excluded_types@,
        }
    }
}

/// The filter of an ordinary run: leasehold sales from 2021 on, of any
/// property type but `Other`, in the four outcodes around the docks.
pub open spec fn standard_filter() -> FilterView {
    FilterView {
        min_year: 2021,
        tenure: DurationOfTransfer::Leasehold,
        postcodes: seq!["E14"@, "E16"@, "SE1"@, "SE16"@],
        excluded_types: seq![PropertyType::Other],
    }
}

impl Default for Filter {
    fn default() -> (filter: Filter)
        ensures
            filter@ == standard_filter(),
    {
        let mut postcodes: Vec<String> = Vec::new();
        postcodes.push(String::from_str("E14"));
        postcodes.push(String::from_str("E16"));
        postcodes.push(String::from_str("SE1"));
        postcodes.push(String::from_str("SE16"));
        let mut excluded_types: Vec<PropertyType> = Vec::new();
        excluded_types.push(PropertyType::Other);
        let filter = Filter {
            min_year: 2021,
            tenure: DurationOfTransfer::Leasehold,
            postcodes,
            excluded_types,
        };
        proof {
            assert(filter@.postcodes =~= standard_filter().postcodes);
            assert(filter@.excluded_types =~= standard_filter().excluded_types);
        }
        filter
    }
}

impl Filter {
    fn lists_postcode(&self, postcode: &String) -> (listed: bool)
        ensures
            listed == self@.postcodes.contains(postcode@),
    {
        let mut i: usize = 0;
        while i < self.postcodes.len()
            invariant
                i <= self.postcodes@.len(),
                forall|j: int| 0 <= j < i ==> self@.postcodes[j] != postcode@,
            decreases self.postcodes@.len() - i,
        {
            if self.postcodes[i] == *postcode {
                assert(self@.postcodes[i as int] == postcode@);
                return true;
            }
            i = i + 1;
        }
        false
    }

    fn excludes_type(&self, property_type: PropertyType) -> (excluded: bool)
        ensures
            excluded == self@.excluded_types.contains(property_type),
    {
        let mut i: usize = 0;
        while i < self.excluded_types.len()
            invariant
                i <= self.excluded_types@.len(),
                forall|j: int| 0 <= j < i ==> self.excluded_types@[j] != property_type,
            decreases self.excluded_types@.len() - i,
        {
            if self.excluded_types[i] == property_type {
                return true;
            }
            i = i + 1;
        }
        false
    }

    /// Whether a sale with these properties is reported on.
    pub fn admits(
        &self,
        year: i32,
        duration: DurationOfTransfer,
        postcode: &String,
        property_type: PropertyType,
    ) -> (kept: bool)
        ensures
            kept == self@.admits(year, duration, postcode@, property_type),
    {
        year >= self.min_year && duration == self.tenure && self.lists_postcode(postcode)
            && !self.excludes_type(property_type)
    }
}

} // verus!

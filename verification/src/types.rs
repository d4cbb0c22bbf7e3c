use vstd::prelude::*;

verus! {

/// The built form of a property.
#[derive(Clone, Copy, Debug, PartialEq, Eq, Structural, Hash)]
pub enum PropertyType {
    Detached,
    SemiDetached,
    Terraced,
    Flat,
    Other,
}

/// Whether a property was newly built when it was sold.
#[derive(Clone, Copy, Debug, PartialEq, Eq, Structural, Hash)]
pub enum PropertyAge {
    New,
    Old,
}

/// The tenure that a sale transfers.
#[derive(Clone, Copy, Debug, PartialEq, Eq, Structural, Hash)]
pub enum DurationOfTransfer {
    Freehold,
    Leasehold,
}

/// The calendar day of a sale.
#[derive(Clone, Copy, Debug, PartialEq, Eq, Structural, Hash)]
pub struct Date {
    pub year: i32,
    pub month: u32,
    pub day: u32,
}

/// One sold property as a price bucket shows it.
#[derive(Debug)]
pub struct Property {
    pub address: String,
    pub price: i32,
}

/// What a `Property` holds, as plain values.
pub struct PropertyView {
    pub address: Seq<char>,
    pub price: i32,
}

impl View for Property {
    type V = PropertyView;

    open spec fn view(&self) -> PropertyView {
        PropertyView { address: self.address@, price: self.price }
    }
}

impl Clone for Property {
    fn clone(&self) -> (copy: Self)
        ensures
            copy@ == self@,
    {
        Property { address: self.address.clone(), price: self.price }
    }
}

/// One sale, read and validated.
#[derive(Debug)]
pub struct Entry {
    pub price: i32,
    pub date: Date,
    pub address: String,
    /// The outcode: the postcode's part before its space.
    pub postcode: String,
    pub property_type: PropertyType,
    pub property_age: PropertyAge,
    pub duration: DurationOfTransfer,
}

/// What an `Entry` holds, as plain values.
pub struct EntryView {
    pub price: i32,
    pub date: Date,
    pub address: Seq<char>,
    pub postcode: Seq<char>,
    pub property_type: PropertyType,
    pub property_age: PropertyAge,
    pub duration: DurationOfTransfer,
}

impl EntryView {
    /// The sample that this sale adds to its bucket.
    pub open spec fn sample(self) -> PropertyView {
        PropertyView { address: self.address, price: self.price }
    }
}

impl View for Entry {
    type V = EntryView;

    open spec fn view(&self) -> EntryView {
        EntryView {
            price: self.price,
            date: self.date,
            address: self.address@,
            postcode: self.postcode@,
            property_type: self.property_type,
            property_age: self.property_age,
            duration: self.duration,
        }
    }
}

impl Clone for Entry {
    fn clone(&self) -> (copy: Self)
        ensures
            copy@ == self@,
    {
        Entry {
            price: self.price,
            date: self.date,
            address: self.address.clone(),
            postcode: self.postcode.clone(),
            property_type: self.property_type,
            property_age: self.property_age,
            duration: self.duration,
        }
    }
}

/// The views of a run of entries, in order.
pub open spec fn entry_views(entries: Seq<Entry>) -> Seq<EntryView> {
    entries.map_values(|e: Entry| e@)
}

/// The views of a run of samples, in order.
pub open spec fn property_views(samples: Seq<Property>) -> Seq<PropertyView> {
    samples.map_values(|p: Property| p@)
}

} // verus!

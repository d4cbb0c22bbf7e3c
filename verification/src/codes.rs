use crate::types::{DurationOfTransfer, PropertyAge, PropertyType};
use vstd::prelude::*;
use vstd::string::StrSliceExecFns;

verus! {

/// The property type that a code of the dataset stands for: `D`, `S`, `T`
/// and `F` name the four built forms, anything else is `Other`.
pub open spec fn property_type_of(code: Seq<char>) -> PropertyType {
    if code == seq!['D'] {
        PropertyType::Detached
    } else if code == seq!['S'] {
        PropertyType::SemiDetached
    } else if code == seq!['T'] {
        PropertyType::Terraced
    } else if code == seq!['F'] {
        PropertyType::Flat
    } else {
        PropertyType::Other
    }
}

/// The property age that a code stands for: `Y` is a new build, anything
/// else an established one.
pub open spec fn property_age_of(code: Seq<char>) -> PropertyAge {
    if code == seq!['Y'] {
        PropertyAge::New
    } else {
        PropertyAge::Old
    }
}

/// The tenure that a code stands for: `F` is freehold, anything else
/// leasehold.
pub open spec fn duration_of(code: Seq<char>) -> DurationOfTransfer {
    if code == seq!['F'] {
        DurationOfTransfer::Freehold
    } else {
        DurationOfTransfer::Leasehold
    }
}

/// The one character of `code`, if it has exactly one.
fn single_char(code: &str) -> (c: Option<char>)
    ensures
        match c {
            Some(ch) => code@ == seq![ch],
            None => code@.len() != 1,
        },
{
    if code.unicode_len() == 1 {
        let ch = code.get_char(0);
        assert(code@ =~= seq![ch]);
        Some(ch)
    } else {
        None
    }
}

/// Reads the property type of a record from its code.
pub fn to_property_type(code: &str) -> (property_type: PropertyType)
    ensures
        property_type == property_type_of(code@),
{
    match single_char(code) {
        Some(ch) => {
            assert(seq![ch][0] == ch);
            if ch == 'D' {
                PropertyType::Detached
            } else if ch == 'S' {
                PropertyType::SemiDetached
            } else if ch == 'T' {
                PropertyType::Terraced
            } else if ch == 'F' {
                PropertyType::Flat
            } else {
                PropertyType::Other
            }
        },
        None => PropertyType::Other,
    }
}

/// Reads the property age of a record from its code.
pub fn to_property_age(code: &str) -> (property_age: PropertyAge)
    ensures
        property_age == property_age_of(code@),
{
    match single_char(code) {
        Some(ch) => {
            assert(seq![ch][0] == ch);
            if ch == 'Y' {
                PropertyAge::New
            } else {
                PropertyAge::Old
            }
        },
        None => PropertyAge::Old,
    }
}

/// Reads the tenure of a record from its code.
pub fn to_duration_of_transfer(code: &str) -> (duration: DurationOfTransfer)
    ensures
        duration == duration_of(code@),
{
    match single_char(code) {
        Some(ch) => {
            assert(seq![ch][0] == ch);
            if ch == 'F' {
                DurationOfTransfer::Freehold
            } else {
                DurationOfTransfer::Leasehold
            }
        },
        None => DurationOfTransfer::Leasehold,
    }
}

} // verus!

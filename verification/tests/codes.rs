use price_paid::codes::{to_duration_of_transfer, to_property_age, to_property_type};
use price_paid::types::{DurationOfTransfer, PropertyAge, PropertyType};

#[test]
fn property_type_codes() {
    assert_eq!(to_property_type("D"), PropertyType::Detached);
    assert_eq!(to_property_type("S"), PropertyType::SemiDetached);
    assert_eq!(to_property_type("T"), PropertyType::Terraced);
    assert_eq!(to_property_type("F"), PropertyType::Flat);
    assert_eq!(to_property_type("O"), PropertyType::Other);
    assert_eq!(to_property_type(""), PropertyType::Other);
    assert_eq!(to_property_type("DD"), PropertyType::Other);
    assert_eq!(to_property_type("d"), PropertyType::Other);
}

#[test]
fn property_age_codes() {
    assert_eq!(to_property_age("Y"), PropertyAge::New);
    assert_eq!(to_property_age("N"), PropertyAge::Old);
    assert_eq!(to_property_age(""), PropertyAge::Old);
    assert_eq!(to_property_age("YY"), PropertyAge::Old);
}

#[test]
fn duration_codes() {
    assert_eq!(to_duration_of_transfer("F"), DurationOfTransfer::Freehold);
    assert_eq!(to_duration_of_transfer("L"), DurationOfTransfer::Leasehold);
    assert_eq!(to_duration_of_transfer(""), DurationOfTransfer::Leasehold);
    assert_eq!(to_duration_of_transfer("FF"), DurationOfTransfer::Leasehold);
}

use price_paid::error::PipelineError;
use price_paid::filter::Filter;
use price_paid::ingest::{entry_from_record, read_entry, COLUMNS, DATE_FORMAT};
use price_paid::types::{Date, DurationOfTransfer, PropertyAge, PropertyType};

fn record(price: &str, date: &str, postcode: &str, kind: &str, age: &str, tenure: &str) -> Vec<String> {
    [
        "{5BBE9CB3-6332-4EB0-9CD3-8737CEA4A65A}",
        price,
        date,
        postcode,
        kind,
        age,
        tenure,
        "12",
        "FLAT 3",
        "DOCK ROAD",
        "POPLAR",
        "LONDON",
        "TOWER HAMLETS",
        "GREATER LONDON",
        "A",
        "A",
    ]
    .iter()
    .map(|field| String::from(*field))
    .collect()
}

fn sound() -> Vec<String> {
    record("425000", "2022-03-31 00:00", "E14 9GE", "F", "N", "L")
}

#[test]
fn sound_record_gives_its_sale() {
    let entry = entry_from_record(&sound(), &Filter::default()).unwrap().unwrap();
    assert_eq!(entry.price, 425_000);
    assert_eq!(entry.date, Date { year: 2022, month: 3, day: 31 });
    assert_eq!(entry.address, "12, FLAT 3, DOCK ROAD, LONDON");
    assert_eq!(entry.postcode, "E14");
    assert_eq!(entry.property_type, PropertyType::Flat);
    assert_eq!(entry.property_age, PropertyAge::Old);
    assert_eq!(entry.duration, DurationOfTransfer::Leasehold);
}

#[test]
fn date_is_read_in_the_format_of_the_dataset() {
    assert_eq!(DATE_FORMAT, "%Y-%m-%d %H:%M");
    let entry = entry_from_record(
        &record("1", "2024-02-29 13:45", "SE16 7AA", "D", "Y", "L"),
        &Filter::default(),
    )
    .unwrap()
    .unwrap();
    assert_eq!(entry.date, Date { year: 2024, month: 2, day: 29 });
    assert_eq!(entry.property_age, PropertyAge::New);
    assert_eq!(entry.postcode, "SE16");
}

#[test]
fn unreadable_date_is_an_error() {
    for date in ["", "2022-03-31", "2023-02-29 00:00", "31/03/2022 00:00", "2022-13-01 00:00", "2022-03-31 00:00 "] {
        let outcome = entry_from_record(&record("425000", date, "E14 9GE", "F", "N", "L"), &Filter::default());
        assert_eq!(outcome.unwrap_err(), PipelineError::UnparsableDate);
    }
}

#[test]
fn unreadable_price_is_an_error() {
    for price in ["", "12.5", "abc", "99999999999"] {
        let outcome = entry_from_record(&record(price, "2022-03-31 00:00", "E14 9GE", "F", "N", "L"), &Filter::default());
        assert_eq!(outcome.unwrap_err(), PipelineError::UnparsablePrice);
    }
}

#[test]
fn unreadable_price_is_an_error_though_the_filter_would_drop_the_sale() {
    let outcome = entry_from_record(&record("abc", "2022-03-31 00:00", "W1 1AA", "F", "N", "L"), &Filter::default());
    assert_eq!(outcome.unwrap_err(), PipelineError::UnparsablePrice);
}

#[test]
fn short_record_is_an_error() {
    assert_eq!(COLUMNS, 12);
    let mut fields = sound();
    fields.truncate(11);
    assert_eq!(entry_from_record(&fields, &Filter::default()).unwrap_err(), PipelineError::MissingColumn);
    assert_eq!(
        read_entry(&fields, Date { year: 2022, month: 3, day: 31 }, &Filter::default()).unwrap_err(),
        PipelineError::MissingColumn
    );
    assert_eq!(entry_from_record(&Vec::new(), &Filter::default()).unwrap_err(), PipelineError::MissingColumn);
    fields.push(String::from("LONDON"));
    assert!(entry_from_record(&fields, &Filter::default()).unwrap().is_some());
}

#[test]
fn missing_column_comes_before_other_errors() {
    let mut fields = record("abc", "never", "E14 9GE", "F", "N", "L");
    fields.truncate(5);
    assert_eq!(entry_from_record(&fields, &Filter::default()).unwrap_err(), PipelineError::MissingColumn);
}

#[test]
fn unreadable_date_comes_before_unreadable_price() {
    let outcome = entry_from_record(&record("abc", "never", "E14 9GE", "F", "N", "L"), &Filter::default());
    assert_eq!(outcome.unwrap_err(), PipelineError::UnparsableDate);
}

#[test]
fn sale_before_the_first_year_is_dropped() {
    let outcome = entry_from_record(&record("425000", "2020-12-31 00:00", "E14 9GE", "F", "N", "L"), &Filter::default());
    assert!(outcome.unwrap().is_none());
    let outcome = entry_from_record(&record("425000", "2021-01-01 00:00", "E14 9GE", "F", "N", "L"), &Filter::default());
    assert!(outcome.unwrap().is_some());
}

#[test]
fn freehold_sale_is_dropped() {
    let outcome = entry_from_record(&record("425000", "2022-03-31 00:00", "E14 9GE", "F", "N", "F"), &Filter::default());
    assert!(outcome.unwrap().is_none());
}

#[test]
fn sale_in_an_unlisted_outcode_is_dropped() {
    let outcome = entry_from_record(&record("425000", "2022-03-31 00:00", "E1 9GE", "F", "N", "L"), &Filter::default());
    assert!(outcome.unwrap().is_none());
    let outcome = entry_from_record(&record("425000", "2022-03-31 00:00", "E14", "F", "N", "L"), &Filter::default());
    assert!(outcome.unwrap().is_some());
}

#[test]
fn sale_of_another_kind_of_property_is_dropped() {
    for kind in ["O", "", "X"] {
        let outcome = entry_from_record(&record("425000", "2022-03-31 00:00", "E14 9GE", kind, "N", "L"), &Filter::default());
        assert!(outcome.unwrap().is_none());
    }
}

#[test]
fn filter_is_configuration() {
    let filter = Filter {
        min_year: 1995,
        tenure: DurationOfTransfer::Freehold,
        postcodes: vec![String::from("W1")],
        excluded_types: vec![PropertyType::Flat],
    };
    let kept = entry_from_record(&record("5", "1995-01-01 00:00", "W1 1AA", "O", "Y", "F"), &filter).unwrap().unwrap();
    assert_eq!(kept.property_type, PropertyType::Other);
    assert_eq!(kept.duration, DurationOfTransfer::Freehold);
    assert!(entry_from_record(&record("5", "1995-01-01 00:00", "W1 1AA", "F", "Y", "F"), &filter).unwrap().is_none());
    assert!(entry_from_record(&record("5", "1994-12-31 00:00", "W1 1AA", "O", "Y", "F"), &filter).unwrap().is_none());
    assert!(entry_from_record(&record("5", "1995-01-01 00:00", "W1 1AA", "O", "Y", "L"), &filter).unwrap().is_none());
}

#[test]
fn read_entry_takes_the_date_it_is_given() {
    let entry = read_entry(&sound(), Date { year: 2030, month: 1, day: 2 }, &Filter::default()).unwrap().unwrap();
    assert_eq!(entry.date, Date { year: 2030, month: 1, day: 2 });
    assert_eq!(entry.price, 425_000);
    let dropped = read_entry(&sound(), Date { year: 2001, month: 1, day: 2 }, &Filter::default()).unwrap();
    assert!(dropped.is_none());
}

#[test]
fn default_filter() {
    let filter = Filter::default();
    assert_eq!(filter.min_year, 2021);
    assert_eq!(filter.tenure, DurationOfTransfer::Leasehold);
    assert_eq!(filter.postcodes, vec!["E14", "E16", "SE1", "SE16"]);
    assert_eq!(filter.excluded_types, vec![PropertyType::Other]);
    assert!(filter.admits(2021, DurationOfTransfer::Leasehold, &String::from("SE1"), PropertyType::Detached));
    assert!(!filter.admits(2020, DurationOfTransfer::Leasehold, &String::from("SE1"), PropertyType::Detached));
    assert!(!filter.admits(2021, DurationOfTransfer::Freehold, &String::from("SE1"), PropertyType::Detached));
    assert!(!filter.admits(2021, DurationOfTransfer::Leasehold, &String::from("SE10"), PropertyType::Detached));
    assert!(!filter.admits(2021, DurationOfTransfer::Leasehold, &String::from("SE1"), PropertyType::Other));
}

#[test]
fn error_messages() {
    assert_eq!(PipelineError::MissingColumn.message(), "a record lacks a column");
    assert_eq!(PipelineError::UnparsableDate.message(), "the date of a record cannot be read");
    assert_eq!(PipelineError::UnparsablePrice.message(), "the price of a record cannot be read");
    assert_eq!(PipelineError::EmptyInput.message(), "no record is left to report on");
}

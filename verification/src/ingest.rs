use crate::codes::{
    duration_of, property_age_of, property_type_of, to_duration_of_transfer, to_property_age,
    to_property_type,
};
use crate::error::PipelineError;
use crate::fields::{address_of, compose_address, outcode, outcode_of, parse_price, price_of};
use crate::filter::{Filter, FilterView};
use crate::types::{Date, Entry, EntryView};
use vstd::prelude::*;

verus! {

/// How the dataset writes the date of a sale.
pub const DATE_FORMAT: &'static str = "%Y-%m-%d %H:%M";

/// How many columns of a record are read: up to the town's.
pub const COLUMNS: usize = 12;

/// The columns of a record that are read, counted from zero.
pub const PRICE: usize = 1;

pub const DATE: usize = 2;

pub const POSTCODE: usize = 3;

pub const PROPERTY_TYPE: usize = 4;

pub const PROPERTY_AGE: usize = 5;

pub const DURATION: usize = 6;

/// The house name or number.
pub const PAON: usize = 7;

/// The flat or unit.
pub const SAON: usize = 8;

pub const STREET: usize = 9;

pub const CITY: usize = 11;

/// The error of chrono for a text that is no date. It is carried, never
/// looked into.
#[verifier::external_type_specification]
#[verifier::external_body]
pub struct ExParseError(chrono::ParseError);

/// The year, month and day that `NaiveDate::parse_from_str` of chrono reads
/// from `text` under `format`, if it reads a date.
pub uninterp spec fn chrono_date(text: Seq<char>, format: Seq<char>) -> Option<(int, int, int)>;

/// The date that chrono's result names.
pub open spec fn date_from(parts: Option<(int, int, int)>) -> Option<Date> {
    match parts {
        Some((year, month, day)) => Some(
            Date { year: year as i32, month: month as u32, day: day as u32 },
        ),
        None => None,
    }
}

/// Reads a date with `NaiveDate::parse_from_str` of chrono, which gives the
/// same answer for the same text and format: a date, handed on as its year,
/// month and day, or chrono's error.
#[verifier::external_body]
fn parse_date(text: &str, format: &str) -> (parsed: Result<Date, chrono::ParseError>)
    ensures
        match parsed {
            Ok(date) => chrono_date(text@, format@) == Some(
                (date.year as int, date.month as int, date.day as int),
            ),
            Err(_) => chrono_date(text@, format@) is None,
        },
{
    match chrono::NaiveDate::parse_from_str(text, format) {
        Ok(date) => Ok(
            Date {
                year: chrono::Datelike::year(&date),
                month: chrono::Datelike::month(&date),
                day: chrono::Datelike::day(&date),
            },
        ),
        Err(error) => Err(error),
    }
}

/// The fields of a record, as plain values.
pub open spec fn field_views(fields: Seq<String>) -> Seq<Seq<char>> {
    fields.map_values(|field: String| field@)
}

/// The sale that a record with all its columns, a readable date and a
/// readable price describes.
pub open spec fn entry_of(fields: Seq<Seq<char>>, date: Date, price: i32) -> EntryView {
    EntryView {
        price,
        date,
        address: address_of(
            fields[PAON as int],
            fields[SAON as int],
            fields[STREET as int],
            fields[CITY as int],
        ),
        postcode: outcode_of(fields[POSTCODE as int]),
        property_type: property_type_of(fields[PROPERTY_TYPE as int]),
        property_age: property_age_of(fields[PROPERTY_AGE as int]),
        duration: duration_of(fields[DURATION as int]),
    }
}

/// What becomes of a record whose date column reads as `date`: a record
/// that lacks a column, whose date or whose price cannot be read is an
/// error, in this order; a sound one gives its sale if the filter keeps it,
/// and nothing if not.
pub open spec fn record_outcome(
    fields: Seq<Seq<char>>,
    date: Option<Date>,
    filter: FilterView,
) -> Result<Option<EntryView>, PipelineError> {
    if fields.len() < COLUMNS {
        Err(PipelineError::MissingColumn)
    } else {
        match (date, price_of(fields[PRICE as int])) {
            (None, _) => Err(PipelineError::UnparsableDate),
            (Some(_), None) => Err(PipelineError::UnparsablePrice),
            (Some(date), Some(price)) => {
                let entry = entry_of(fields, date, price);
                if filter.keeps(entry) {
                    Ok(Some(entry))
                } else {
                    Ok(None)
                }
            },
        }
    }
}

/// An outcome as plain values.
pub open spec fn outcome_view(outcome: Result<Option<Entry>, PipelineError>) -> Result<
    Option<EntryView>,
    PipelineError,
> {
    match outcome {
        Ok(Some(entry)) => Ok(Some(entry@)),
        Ok(None) => Ok(None),
        Err(error) => Err(error),
    }
}

/// Reads the sale of a record whose date has been read already, and tells
/// whether the filter keeps it.
pub fn read_entry(fields: &Vec<String>, date: Date, filter: &Filter) -> (outcome: Result<
    Option<Entry>,
    PipelineError,
>)
    ensures
        outcome_view(outcome) == record_outcome(field_views(fields@), Some(date), filter@),
{
    if fields.len() < COLUMNS {
        return Err(PipelineError::MissingColumn);
    }
    let price: i32 = match parse_price(fields[PRICE].as_str()) {
        Some(price) => price,
        None => {
            return Err(PipelineError::UnparsablePrice);
        },
    };
    let duration = to_duration_of_transfer(fields[DURATION].as_str());
    let postcode = outcode(fields[POSTCODE].as_str());
    let property_type = to_property_type(fields[PROPERTY_TYPE].as_str());
    if !filter.admits(date.year, duration, &postcode, property_type) {
        return Ok(None);
    }
    let property_age = to_property_age(fields[PROPERTY_AGE].as_str());
    let address = compose_address(
        fields[PAON].as_str(),
        fields[SAON].as_str(),
        fields[STREET].as_str(),
        fields[CITY].as_str(),
    );
    Ok(Some(Entry { price, date, address, postcode, property_type, property_age, duration }))
}

/// Reads the sale of one record of the dataset, and tells whether the
/// filter keeps it. The date is read by chrono.
pub fn entry_from_record(fields: &Vec<String>, filter: &Filter) -> (outcome: Result<
    Option<Entry>,
    PipelineError,
>)
    ensures
        outcome_view(outcome) == record_outcome(
            field_views(fields@),
            date_from(chrono_date(field_views(fields@)[DATE as int], DATE_FORMAT@)),
            filter@,
        ),
{
    if fields.len() < COLUMNS {
        return Err(PipelineError::MissingColumn);
    }
    match parse_date(fields[DATE].as_str(), DATE_FORMAT) {
        Ok(date) => read_entry(fields, date, filter),
        Err(_) => Err(PipelineError::UnparsableDate),
    }
}

} // verus!

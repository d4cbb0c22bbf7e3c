use price_paid::aggregate::YearAggregate;
use price_paid::bucket::PriceBand;
use price_paid::driver::{yearly_reports, Driver};
use price_paid::error::PipelineError;
use price_paid::report::ProcessedYearEntries;
use price_paid::types::{Date, DurationOfTransfer, Entry, PropertyAge, PropertyType};

fn entry(year: i32, postcode: &str, property_type: PropertyType, price: i32) -> Entry {
    Entry {
        price,
        date: Date { year, month: 6, day: 15 },
        address: format!("{}, QUAY ROAD, LONDON", price),
        postcode: String::from(postcode),
        property_type,
        property_age: PropertyAge::Old,
        duration: DurationOfTransfer::Leasehold,
    }
}

fn flat(year: i32, postcode: &str, price: i32) -> Entry {
    entry(year, postcode, PropertyType::Flat, price)
}

fn postcodes(report: &ProcessedYearEntries) -> Vec<String> {
    report.postcodes.iter().map(|p| p.postcode.clone()).collect()
}

fn total_count(reports: &[ProcessedYearEntries]) -> usize {
    let types = [
        PropertyType::Detached,
        PropertyType::SemiDetached,
        PropertyType::Terraced,
        PropertyType::Flat,
        PropertyType::Other,
    ];
    let ages = [PropertyAge::New, PropertyAge::Old];
    let mut total = 0;
    for report in reports {
        for postcode in &report.postcodes {
            for entry in &postcode.entries {
                for property_type in types {
                    for property_age in ages {
                        if let Some(bucket) = entry.bucket(property_type, property_age) {
                            total += bucket.count;
                        }
                    }
                }
            }
        }
    }
    total
}

#[test]
fn two_years_give_two_reports() {
    let entries = vec![flat(2020, "E14", 100_000), flat(2020, "E14", 300_000), flat(2021, "SE1", 500_000)];
    let reports = yearly_reports(&entries, PriceBand::default()).unwrap();
    assert_eq!(reports.len(), 2);

    assert_eq!(reports[0].year, 2020);
    assert_eq!(postcodes(&reports[0]), vec!["E14"]);
    assert_eq!(reports[0].postcodes[0].entries.len(), 1);
    assert_eq!(reports[0].postcodes[0].entries[0].year(), 2020);
    let first = reports[0].postcodes[0].entries[0].bucket(PropertyType::Flat, PropertyAge::Old).unwrap();
    assert_eq!(first.count, 2);
    assert_eq!(first.median.doubled as f64 / 2.0, 200_000.0);
    assert_eq!(first.range, (100_000, 300_000));
    assert_eq!(first.properties.len(), 1);
    assert_eq!(first.properties[0].price, 300_000);
    assert_eq!(first.properties[0].address, "300000, QUAY ROAD, LONDON");

    assert_eq!(reports[1].year, 2021);
    assert_eq!(postcodes(&reports[1]), vec!["SE1"]);
    assert_eq!(reports[1].postcodes[0].entries.len(), 1);
    assert_eq!(reports[1].postcodes[0].entries[0].year(), 2021);
    let second = reports[1].postcodes[0].entries[0].bucket(PropertyType::Flat, PropertyAge::Old).unwrap();
    assert_eq!(second.count, 1);
    assert_eq!(second.median.doubled as f64 / 2.0, 500_000.0);
    assert_eq!(second.range, (500_000, 500_000));
    assert_eq!(total_count(&reports), 3);
}

#[test]
fn single_year_gives_exactly_one_report() {
    let entries = vec![
        flat(2022, "E14", 1),
        flat(2022, "E16", 2),
        flat(2022, "E14", 3),
        flat(2022, "E14", 4),
    ];
    let reports = yearly_reports(&entries, PriceBand::default()).unwrap();
    assert_eq!(reports.len(), 1);
    assert_eq!(reports[0].year, 2022);
    assert_eq!(postcodes(&reports[0]), vec!["E14", "E16"]);
    let e14 = reports[0].postcodes[0].entries[0].bucket(PropertyType::Flat, PropertyAge::Old).unwrap();
    assert_eq!(e14.count, 3);
    assert_eq!(e14.median.doubled, 6);
    assert_eq!(e14.range, (1, 4));
    let e16 = reports[0].postcodes[1].entries[0].bucket(PropertyType::Flat, PropertyAge::Old).unwrap();
    assert_eq!(e16.count, 1);
    assert_eq!(total_count(&reports), 4);
}

#[test]
fn single_sale_gives_one_report() {
    let entries = vec![flat(2024, "E14", 350_000)];
    let reports = yearly_reports(&entries, PriceBand::default()).unwrap();
    assert_eq!(reports.len(), 1);
    assert_eq!(reports[0].year, 2024);
    assert_eq!(total_count(&reports), 1);
}

#[test]
fn no_sales_are_refused() {
    let entries: Vec<Entry> = Vec::new();
    assert_eq!(yearly_reports(&entries, PriceBand::default()).unwrap_err(), PipelineError::EmptyInput);
}

#[test]
fn one_report_per_year_in_ascending_order() {
    let entries = vec![
        flat(2019, "E14", 1),
        flat(2020, "E14", 2),
        flat(2020, "SE1", 3),
        flat(2022, "SE16", 4),
        flat(2022, "E14", 5),
        flat(2022, "SE16", 6),
        flat(2023, "E16", 7),
    ];
    let reports = yearly_reports(&entries, PriceBand::default()).unwrap();
    let years: Vec<i32> = reports.iter().map(|r| r.year).collect();
    assert_eq!(years, vec![2019, 2020, 2022, 2023]);
    assert_eq!(postcodes(&reports[2]), vec!["SE16", "E14"]);
    assert_eq!(total_count(&reports), entries.len());
}

#[test]
fn every_sale_counts_in_its_own_bucket_only() {
    let entries = vec![
        entry(2021, "E14", PropertyType::Flat, 10),
        entry(2021, "E14", PropertyType::Terraced, 20),
        entry(2021, "E16", PropertyType::Flat, 30),
        entry(2021, "E14", PropertyType::Flat, 40),
        entry(2022, "E14", PropertyType::Flat, 50),
    ];
    let reports = yearly_reports(&entries, PriceBand::default()).unwrap();
    assert_eq!(reports.len(), 2);
    let e14 = &reports[0].postcodes[0].entries[0];
    let flats = e14.bucket(PropertyType::Flat, PropertyAge::Old).unwrap();
    assert_eq!((flats.count, flats.median.doubled, flats.range), (2, 50, (10, 40)));
    let terraced = e14.bucket(PropertyType::Terraced, PropertyAge::Old).unwrap();
    assert_eq!((terraced.count, terraced.median.doubled, terraced.range), (1, 40, (20, 20)));
    assert!(e14.bucket(PropertyType::Flat, PropertyAge::New).is_none());
    let e16 = &reports[0].postcodes[1].entries[0];
    let flats = e16.bucket(PropertyType::Flat, PropertyAge::Old).unwrap();
    assert_eq!((flats.count, flats.median.doubled, flats.range), (1, 60, (30, 30)));
    let next = &reports[1].postcodes[0].entries[0];
    let flats = next.bucket(PropertyType::Flat, PropertyAge::Old).unwrap();
    assert_eq!((flats.count, flats.median.doubled, flats.range), (1, 100, (50, 50)));
    assert_eq!(total_count(&reports), 5);
}

#[test]
fn running_twice_gives_the_same_statistics() {
    let entries = vec![flat(2020, "E14", 3), flat(2020, "E14", 1), flat(2021, "E14", 2)];
    let first = yearly_reports(&entries, PriceBand::default()).unwrap();
    let second = yearly_reports(&entries, PriceBand::default()).unwrap();
    assert_eq!(format!("{:?}", first), format!("{:?}", second));
}

#[test]
fn order_within_a_year_does_not_change_the_statistics() {
    let one = vec![flat(2020, "E14", 3), flat(2020, "E14", 1), flat(2020, "E14", 8)];
    let other = vec![flat(2020, "E14", 8), flat(2020, "E14", 3), flat(2020, "E14", 1)];
    let first = yearly_reports(&one, PriceBand::default()).unwrap();
    let second = yearly_reports(&other, PriceBand::default()).unwrap();
    let a = first[0].postcodes[0].entries[0].bucket(PropertyType::Flat, PropertyAge::Old).unwrap();
    let b = second[0].postcodes[0].entries[0].bucket(PropertyType::Flat, PropertyAge::Old).unwrap();
    assert_eq!((a.count, a.median, a.range), (b.count, b.median, b.range));
    assert_eq!((a.count, a.median.doubled, a.range), (3, 6, (1, 8)));
}

#[test]
fn a_year_that_returns_gets_a_report_of_its_own() {
    let entries = vec![flat(2021, "E14", 1), flat(2020, "E14", 2), flat(2021, "E14", 3)];
    let reports = yearly_reports(&entries, PriceBand::default()).unwrap();
    let years: Vec<i32> = reports.iter().map(|r| r.year).collect();
    assert_eq!(years, vec![2021, 2020, 2021]);
    assert_eq!(total_count(&reports), 3);
}

#[test]
fn driver_hands_out_a_report_at_each_change_of_year() {
    let band = PriceBand::default();
    let mut driver = Driver::start(&flat(2020, "E14", 100_000), band);
    assert_eq!(driver.current_year(), 2020);
    assert!(driver.accept(&flat(2020, "E14", 300_000)).is_none());
    let flushed = driver.accept(&flat(2021, "SE1", 500_000)).unwrap();
    assert_eq!(flushed.year, 2020);
    let bucket = flushed.postcodes[0].entries[0].bucket(PropertyType::Flat, PropertyAge::Old).unwrap();
    assert_eq!(bucket.count, 2);
    assert_eq!(driver.current_year(), 2021);
    let last = driver.finish();
    assert_eq!(last.year, 2021);
    assert_eq!(postcodes(&last), vec!["SE1"]);
    let bucket = last.postcodes[0].entries[0].bucket(PropertyType::Flat, PropertyAge::Old).unwrap();
    assert_eq!(bucket.count, 1);
}

#[test]
fn aggregate_routes_and_drains() {
    let mut aggregate = YearAggregate::new();
    assert_eq!(aggregate.postcode_count(), 0);
    aggregate.route(&flat(2021, "E14", 5));
    aggregate.route(&flat(2021, "SE1", 6));
    aggregate.route(&flat(2021, "E14", 7));
    assert_eq!(aggregate.postcode_count(), 2);
    let report = aggregate.drain_to_report(2021, &PriceBand::default());
    assert_eq!(report.year, 2021);
    assert_eq!(postcodes(&report), vec!["E14", "SE1"]);
    let bucket = report.postcodes[0].entries[0].bucket(PropertyType::Flat, PropertyAge::Old).unwrap();
    assert_eq!((bucket.count, bucket.median.doubled, bucket.range), (2, 12, (5, 7)));
    assert_eq!(aggregate.postcode_count(), 0);
    let empty = aggregate.drain_to_report(2022, &PriceBand::default());
    assert_eq!(empty.year, 2022);
    assert!(empty.postcodes.is_empty());
}

#[test]
fn postcode_entry_takes_the_year_of_its_first_sale() {
    let mut aggregate = YearAggregate::new();
    aggregate.route(&flat(2019, "E14", 5));
    aggregate.route(&flat(2021, "E14", 6));
    let report = aggregate.drain_to_report(2030, &PriceBand::default());
    assert_eq!(report.year, 2030);
    assert_eq!(report.postcodes[0].entries[0].year(), 2019);
}

use price_paid::bucket::PriceBand;
use price_paid::driver::yearly_reports;
use price_paid::order::sort_entries;
use price_paid::types::{Date, DurationOfTransfer, Entry, PropertyAge, PropertyType};

fn sale(year: i32, month: u32, day: u32, price: i32) -> Entry {
    Entry {
        price,
        date: Date { year, month, day },
        address: String::from("1, DOCK ROAD, LONDON"),
        postcode: String::from("E14"),
        property_type: PropertyType::Flat,
        property_age: PropertyAge::Old,
        duration: DurationOfTransfer::Leasehold,
    }
}

#[test]
fn sorting_orders_by_year_month_and_day() {
    let mut entries = vec![
        sale(2022, 1, 1, 1),
        sale(2021, 12, 31, 2),
        sale(2021, 2, 28, 3),
        sale(2021, 2, 3, 4),
        sale(2023, 1, 1, 5),
        sale(2021, 11, 1, 6),
    ];
    sort_entries(&mut entries);
    let prices: Vec<i32> = entries.iter().map(|e| e.price).collect();
    assert_eq!(prices, vec![4, 3, 6, 2, 1, 5]);
}

#[test]
fn sorting_keeps_every_sale() {
    let mut entries = vec![sale(2022, 5, 5, 1), sale(2022, 5, 5, 2), sale(2021, 5, 5, 3), sale(2022, 5, 5, 1)];
    sort_entries(&mut entries);
    assert_eq!(entries.len(), 4);
    assert_eq!(entries[0].price, 3);
    let mut later: Vec<i32> = entries[1..].iter().map(|e| e.price).collect();
    later.sort();
    assert_eq!(later, vec![1, 1, 2]);
}

#[test]
fn sorting_nothing() {
    let mut entries: Vec<Entry> = Vec::new();
    sort_entries(&mut entries);
    assert!(entries.is_empty());
}

#[test]
fn sorted_sales_give_one_report_per_year() {
    let mut entries = vec![sale(2022, 1, 1, 10), sale(2021, 6, 1, 20), sale(2022, 3, 1, 30), sale(2021, 1, 1, 40)];
    sort_entries(&mut entries);
    let reports = yearly_reports(&entries, PriceBand::default()).unwrap();
    let years: Vec<i32> = reports.iter().map(|r| r.year).collect();
    assert_eq!(years, vec![2021, 2022]);
    let first = reports[0].postcodes[0].entries[0].bucket(PropertyType::Flat, PropertyAge::Old).unwrap();
    assert_eq!((first.count, first.median.doubled, first.range), (2, 60, (20, 40)));
    let second = reports[1].postcodes[0].entries[0].bucket(PropertyType::Flat, PropertyAge::Old).unwrap();
    assert_eq!((second.count, second.median.doubled, second.range), (2, 40, (10, 30)));
}

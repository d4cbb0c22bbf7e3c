//! Yearly price statistics from the UK price paid data.
//!
//! Sales are read record by record (`ingest`), put in the order of their
//! dates (`order`) and walked once (`driver`): the sales of the current year
//! are gathered by postcode, property type and property age (`aggregate`,
//! `year`), and at each change of year, and at the end, the year's buckets
//! (`bucket`) are handed out as one report (`report`). What holds of the
//! reports as a whole is proved in `laws`.

pub mod aggregate;
pub mod bucket;
pub mod codes;
pub mod driver;
pub mod error;
pub mod fields;
pub mod filter;
pub mod framing;
pub mod ingest;
pub mod laws;
pub mod order;
pub mod report;
pub mod seqs;
pub mod types;
pub mod year;

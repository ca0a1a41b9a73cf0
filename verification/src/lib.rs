//! Historical currency-exchange statistics, resolved from two inconsistent
//! upstream channels: an HTML summary page (primary) and a CSV history export
//! (fallback).  The crate holds the whole resolution pipeline — text
//! normalization, the HTML yearly and monthly extractors, the CSV fallback
//! aggregation and the orchestration between them — with verified contracts;
//! the network fetches live outside it.

pub mod rates;
pub mod text;
pub mod dates;
pub mod html_extract;
pub mod csv_fallback;
pub mod pipeline;
pub mod currency;

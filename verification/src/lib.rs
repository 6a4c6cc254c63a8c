//! Turns OTLP trace documents into rows for ClickHouse, and picks span rows out
//! of log records.
#![allow(unused_imports)]

pub mod attributes;
pub mod codec;
pub mod delivery;
pub mod json;
pub mod laws;
pub mod otlp;
pub mod reply;
pub mod row;
pub mod span;
pub mod span_filter;
pub mod text;
pub mod text_map;
pub mod timestamp;

pub use row::transform_otlp_to_clickhouse;
pub use span::{ClickhouseEvents, ClickhouseLinks, ClickhouseSpan};
pub use span_filter::select_spans;

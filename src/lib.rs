//! Cell tower lookups and the freshness rules that keep the tower table current.
//!
//! The query engine (exact lookup, seek-paginated listing, batch lookup) runs
//! against [`store::CellStore`], an ordered table keyed by the natural key
//! `(radio, mcc, net, area, cell)`. The ingestion side decides which snapshot is
//! due and how a download response is to be handled.
pub mod cell;
pub mod config;
pub mod freshness;
pub mod cursor;
pub mod ingest;
pub mod loader;
pub mod lookup;
pub mod paging;
pub mod query;
pub mod radio;
pub mod schedule;
pub mod store;
pub mod test_db;
pub mod text;
pub mod urls;

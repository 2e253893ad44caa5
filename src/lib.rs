//! Market snapshot aggregation: decimal text handling, a fourteen-period
//! relative strength index, and the merge of per-exchange JSON documents
//! into one record per symbol.
pub mod text;
pub mod decimal;
pub mod rsi;
pub mod json;
pub mod fields;
pub mod snapshot;
pub mod endpoints;

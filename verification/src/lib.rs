//! Loading tabular data into a columnar table with per-column type
//! inference, and the configuration and decisions behind plotting it.
use vstd::prelude::*;

pub mod batches;
pub mod capture;
pub mod data;
pub mod datetime;
pub mod model;
pub mod text;
pub mod parquet;

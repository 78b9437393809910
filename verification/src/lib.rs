//! The rules of an archive manager: schemas, artifacts, the queries that store
//! them in a graph database, and the data files they are exchanged in.

pub mod bolt;
pub mod datafile;
pub mod display;
pub mod error_propagator;
pub mod fields;
pub mod manager;
pub mod model;
pub mod pages;
pub mod plan;
pub mod queries;
pub mod schema;
pub mod text;
pub mod toml_data;
pub mod units;

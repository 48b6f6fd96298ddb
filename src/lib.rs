//! A local gazetteer: resolves country and city names against reference
//! records and merges the matches into persisted collections.

pub mod city_matcher;
pub mod config;
pub mod country_index;
pub mod merge;
pub mod pipeline;
pub mod report;
pub mod store;
pub mod text;

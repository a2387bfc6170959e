//! Forecast acquisition and lookup: geocoding responses, weather provider
//! payloads, hour buckets and the provider's symbol catalog.
pub mod db;
pub mod decimal;
pub mod error;
pub mod geo;
pub mod json;
pub mod series;
pub mod text;
pub mod time;
pub mod weather;
pub mod weather_codes;

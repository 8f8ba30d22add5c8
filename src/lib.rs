//! Strict parsing of separator-delimited pairs of scalars, as used to read
//! raster sizes (`"400x600"`) and plane corners (`"-1.0,0.5"`) for an
//! escape-time renderer of the Mandelbrot set.
//!
//! `decimal` holds the grammar of the integer scalars and the `ParseScalar`
//! capability; `pair` splits text at the first separator and reads both
//! sides, with the laws that reading obeys.
pub mod decimal;
pub mod pair;

pub use decimal::ParseScalar;
pub use pair::{parse_pair, split_pair};

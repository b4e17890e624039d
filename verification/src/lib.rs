//! Database-introspection core: a backend capability contract (`Driver`)
//! together with the verified query-composition, value-normalization and
//! column-metadata logic of the MySQL backend.

pub mod drivers;
pub mod text;

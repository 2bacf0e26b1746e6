//! Named collections of semi-structured records, with a depth check on each
//! record's property bag and best-effort typed extraction of property values.
pub mod errors;
pub mod keyed;
pub mod laws;
pub mod loader;
pub mod value;
pub mod yaml_data;

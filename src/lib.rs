//! Reading of partition filters (`id > 200`, `region = 'us-east'`) and of the
//! other option values that the table maintenance commands take.
pub mod args;
pub mod delta;
pub mod grammar;
pub mod laws;
pub mod parse;
pub mod text;

pub use args::{parse_key_val, KeyValError};
pub use delta::{OptimizeOptions, VacuumOptions, VacuumOptionsError};
pub use parse::{column_name, filter_condition, filter_field, filter_operator, FilterError};

//! Grouping of log sources into comparable units, and the decisions that drive
//! training and live inspection of anomalies.

pub mod content;
pub mod index_name;
pub mod inspect;
pub mod model;
pub mod path;
pub mod text;

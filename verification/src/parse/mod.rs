pub mod model;
pub mod parse;
pub mod compose;
pub mod error;
pub mod parse2;
pub mod sliced;
pub mod oldparse;

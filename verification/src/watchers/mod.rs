pub mod base;
pub mod join;
pub mod who;

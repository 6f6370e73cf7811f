pub mod keys;
pub mod values;

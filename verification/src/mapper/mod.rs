pub mod fields;
pub mod status;

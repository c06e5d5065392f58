//! Links of the chain of validator signs.

pub mod indexed_validator_sign;

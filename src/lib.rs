//! Mileage/price linear regression: the persisted model record and the
//! training dataset table, with their grammars stated and proved.
pub mod text;
pub mod number;
pub mod record;
pub mod dataset;

//! Lot conversions and fixed-fraction helpers.
pub mod frac_maths;
pub mod inventory_manager;
pub mod serum_maths;

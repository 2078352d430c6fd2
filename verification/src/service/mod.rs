//! Services: searching and link checking.
pub mod search;
pub mod check;
pub mod refine;

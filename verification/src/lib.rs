//! Statistical hypothesis testing over validated fixed-point values.
//!
//! Every real quantity (probability, mean, variance, test statistic) is
//! carried as an integer count of nanounits (billionths), so that each
//! computation is exact integer arithmetic with a proved contract.

pub mod categorical;
pub mod chi_square;
pub mod domain;
pub mod f;
pub mod fixed;
pub mod normal;
pub mod numerical;
pub mod t;
pub mod table;

//! Measurements of single operations and of memory under pressure.
pub mod op;
pub mod pressure;
pub mod steps;
pub mod score;
pub mod depth;
pub mod rows;
pub mod observe;
pub mod report;
pub mod allocation;
pub mod reports;

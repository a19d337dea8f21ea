//! The things a coordinate plane is drawn from: functions and axes.
pub mod axis;
pub mod function;

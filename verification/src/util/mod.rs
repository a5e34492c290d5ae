//! Small text helpers shared by the modules.

pub mod chars;
pub mod number;
pub mod paths;

//! Calendar arithmetic used by the IEEE 738 solar-position model.

pub mod calendar;

pub use calendar::day_of_year;

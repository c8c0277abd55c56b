//! Named time periods of the calendar (holidays with a window of days around
//! them), and the configuration that defines them.
pub mod calendar;
pub mod chrono_dates;
pub mod easter;
pub mod weekdays;
pub mod text;
pub mod date_text;
pub mod period;
pub mod yaml;

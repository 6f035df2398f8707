//! Analysis engine for a time-tracking export: filters the tasks of one
//! project, orders them by start time, and derives aggregate statistics
//! (totals, per-day dispersion measures, calendar groupings) together with
//! an exact cascading rendering of elapsed time.
//!
//! All quantities are exact integers or integer ratios: a timestamp is a
//! calendar date plus a minute of day, durations are whole minutes, and
//! every division is represented as a numerator/denominator pair so that
//! degenerate cases (empty input, zero denominators) stay explicit instead
//! of turning into non-finite numbers.
pub mod model;
pub mod numbers;
pub mod sorting;
pub mod analyzer;
pub mod groups;
pub mod assembly;
pub mod duration;
pub mod laws;
pub mod opt;

pub use analyzer::{AnalysisResultTask, TasksAnalysisResult};
pub use assembly::{analyze, AnalysisResult};
pub use model::{Project, Task};

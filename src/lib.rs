//! A habit tracker's core: per-day progress records, the status ledger that
//! summarises them, and the collection of habits that a user keeps.
pub mod date;
pub mod entries;
pub mod error;
pub mod habit;
pub mod ledger;
pub mod node;
pub mod text;
pub mod user;

pub use date::HabitID;
pub use error::{HabitError, HabitWarning};
pub use habit::{EditCommand, HabitData};
pub use ledger::{MetricsLedger, MetricsSummary};
pub use node::{HabitNode, NodeStatus};
pub use user::{DayEntry, UserData};

//! Checks, adds and removes license headers.
//!
//! `run` holds a whole run as a state machine: it asks for files to be read
//! and written and decides what follows. The other modules hold the parts of
//! those decisions. What holds of them is in `laws`, `license_laws`,
//! `format_laws`, `glob_laws`, `ignore_laws` and `run_laws`.
pub mod config;
pub mod decide;
pub mod error;
pub mod format;
pub mod format_laws;
pub mod glob;
pub mod glob_laws;
pub mod ignore;
pub mod ignore_laws;
pub mod laws;
pub mod license;
pub mod license_laws;
pub mod matcher;
pub mod paths;
pub mod platform;
pub mod report;
pub mod run;
pub mod run_laws;
pub mod text;
pub mod text_lemmas;

pub use crate::config::{Format, LineFormat, Mode};
pub use crate::error::AppError;
pub use crate::report::Report;
pub use crate::run::execute;

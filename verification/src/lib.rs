//! A declarative task runner's execution engine: an ordered list of external
//! commands is run sequentially, each optionally gated on the prior success
//! of earlier, labeled commands and with environment-variable references
//! templated into its arguments, and the exact status and diagnostic lines
//! of the run are produced for the caller to print.
pub mod args;
pub mod exec;
pub mod strutil;
pub mod template;

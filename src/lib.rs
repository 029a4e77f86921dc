//! A small command-line argument classifier: the raw argument list is split
//! into a program name, classified options (flags, bundled flags, key/value
//! pairs and plain words) before the `--` separator, and the verbatim tokens
//! after it.
use vstd::prelude::*;

pub mod classify;
pub mod values;
pub mod command;
pub mod laws;

pub use classify::{determine_opt_type, OptionType};
pub use command::{join_args, Command, Option};
pub use values::{parse_values, trim_str};

verus! {

} // verus!

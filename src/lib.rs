//! An interpreter for Moon, a small line-oriented assembly-like language.
//!
//! Source text is parsed into a vector of instructions and a table of jump
//! labels (`ProgramFile`), which a `Program` then executes one line at a time
//! against a store of typed variables.
pub mod instructions;
pub mod memory;
pub mod parser;
pub mod runtime;
pub mod text;

pub use memory::{Cll, Mem, Table};
pub use parser::{ErrorIO, ProgramFile, VARIABLE_IDENTIFIER};
pub use runtime::{Error, Event, FloatWork, FltArg, Printed, Program};

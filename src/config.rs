//! The format description of a log file: a title and the ordered
//! instructions from which the line parser and the column list are derived.

use vstd::prelude::*;

verus! {

/// A format description as it is written in a configuration document.
#[derive(Clone)]
pub struct LogFormatConfiguration {
    pub title: String,
    pub syntax: Vec<LogFormatInstruction>,
}

/// One step of a format description. The `Emit*` steps also declare the
/// column (name and display width) that receives the value.
#[derive(Clone)]
pub enum LogFormatInstruction {
    EmitDate { name: String, width: i32 },
    EmitString { name: String, width: i32 },
    EmitEnumeration { name: String, width: i32, enumerations: Vec<String> },
    EmitRemainder { name: String, width: i32 },
    Begin,
    Skip(u16),
    SkipUntilChar(char),
    SkipUntilString(String),
}

} // verus!

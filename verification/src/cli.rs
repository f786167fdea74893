//! The command line of the `gravity` program.
use vstd::prelude::*;

verus! {

/// The database a command works on.
#[derive(Debug, Clone, PartialEq)]
pub struct DBArg {
    pub db_name: String,
}

/// The commands of the `gravity` program.
#[derive(Debug, Clone, PartialEq)]
pub enum GravityCommand {
    /// Create a new database file
    Init(DBArg),
    /// Read a database schema
    Read(DBArg),
    /// Read a database schema to binary format
    Bin(DBArg),
    /// Compile a database schema to binary format
    Compile(DBArg),
    /// Read a database schema and print the State
    State(DBArg),
}

/// The arguments of the `gravity` program.
#[derive(Debug, Clone, PartialEq)]
pub struct GravityArgs {
    pub cmd: GravityCommand,
}

} // verus!

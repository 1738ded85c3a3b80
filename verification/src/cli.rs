use vstd::prelude::*;

verus! {

/// The parsed command line of the application. The surrounding binary does
/// the actual argument parsing and hands the result over as this plain
/// value.
pub struct Cli {
    pub command: Option<Command>,

    /// If not supplied, the application uses the PWM_PASS environment
    /// variable instead.
    pub password: Option<String>,
}

/// One subcommand of the application.
#[allow(inconsistent_fields)]
pub enum Command {
    /// Add a password to a container file.
    Add { db_file: String, account: String, pass: String, username: String },
    /// Add a password to a container file from a JSON payload carrying
    /// account, username and password keys.
    AddJson { db_file: String, payload: String },
    /// Print a password from a container file; without an account, print
    /// every entry.
    Get { db_file: String, account: Option<String> },
    /// Create an empty container file.
    Init { name: String },
}

/// A batch-add payload: account, username and password.
pub struct JsonPayload {
    pub account: String,
    pub username: String,
    pub password: String,
}

} // verus!

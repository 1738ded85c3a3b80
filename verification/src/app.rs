use vstd::prelude::*;

use crate::cli::Cli;
use crate::error::Error;

verus! {

/// The application: a parsed command line, ready to be executed by the
/// surrounding binary.
pub struct App {
    cli: Cli,
}

impl App {
    /// The command line this application was built from.
    pub closed spec fn spec_cli(&self) -> Cli {
        self.cli
    }

    pub fn new(cli: Cli) -> (r: Self)
        ensures
            r.spec_cli() == cli,
    {
        App { cli }
    }

    /// Hands the command line back for execution.
    pub fn into_cli(self) -> (r: Cli)
        ensures
            r == self.spec_cli(),
    {
        self.cli
    }
}

/// The password selection rule of the application: a password supplied on
/// the command line wins; otherwise the environment's value is used;
/// otherwise the operation is rejected with `MissingPassword`.
pub fn resolve_password(cli_password: Option<String>, env_password: Option<String>) -> (r: Result<
    String,
    Error,
>)
    ensures
        match cli_password {
            Some(p) => (r matches Ok(q) && q == p),
            None => match env_password {
                Some(p) => (r matches Ok(q) && q == p),
                None => r == Err::<String, Error>(Error::MissingPassword),
            },
        },
{
    match cli_password {
        Some(p) => Ok(p),
        None => match env_password {
            Some(p) => Ok(p),
            None => Err(Error::MissingPassword),
        },
    }
}

} // verus!

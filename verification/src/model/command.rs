use vstd::prelude::*;

use crate::grammar::{command_of, CommandRep};
use crate::text::str_eq;
use crate::Error;

verus! {

/// What a directive asks for: deleting its range, or reporting it.
#[derive(Debug, Clone, Copy, PartialEq, Eq, Structural)]
pub enum Command {
    Delete,
    Error,
}

impl View for Command {
    type V = CommandRep;

    open spec fn view(&self) -> CommandRep {
        match self {
            Command::Delete => CommandRep::Delete,
            Command::Error => CommandRep::Error,
        }
    }
}

impl Command {
    pub fn is_error(&self) -> (r: bool)
        ensures
            r == (self@ is Error),
    {
        match self {
            Command::Error => true,
            Command::Delete => false,
        }
    }

    /// Reads `DELETE` or `ERROR`; any other token is rejected.
    pub fn try_from(s: &str) -> (r: Result<Command, Error>)
        ensures
            match r {
                Ok(c) => command_of(s@) == Ok::<CommandRep, ()>(c@),
                Err(_) => command_of(s@) is Err,
            },
    {
        if str_eq(s, "DELETE") {
            Ok(Command::Delete)
        } else if str_eq(s, "ERROR") {
            Ok(Command::Error)
        } else {
            Err(Error::new("Invalid command"))
        }
    }
}

} // verus!

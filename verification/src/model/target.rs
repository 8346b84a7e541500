use vstd::prelude::*;

use crate::grammar::{target_of, TargetRep, TriggerRep};
use crate::model::Trigger;
use crate::text::str_eq;
use crate::Error;

verus! {

/// Where a directive acts: from its own line to the matching `END`, on the
/// `END` line itself, or on the blank-line-delimited block around it.
#[derive(Debug, PartialEq)]
pub enum Target {
    Begin(Trigger),
    End,
    Neighbor(Trigger),
}

impl View for Target {
    type V = TargetRep;

    open spec fn view(&self) -> TargetRep {
        match self {
            Target::Begin(t) => TargetRep::Begin(t@),
            Target::End => TargetRep::End,
            Target::Neighbor(t) => TargetRep::Neighbor(t@),
        }
    }
}

pub open spec fn opt_trigger_view(o: Option<Trigger>) -> Option<TriggerRep> {
    match o {
        Some(t) => Some(t@),
        None => None,
    }
}

impl Target {
    /// Reads a target mode token together with the directive's trigger,
    /// enforcing that `BEGIN` and `NEIGHBOR` carry one and `END` does not.
    pub fn new(target_mode: &str, trigger: Option<Trigger>) -> (r: Result<Self, Error>)
        ensures
            match r {
                Ok(t) => target_of(target_mode@, opt_trigger_view(trigger)) == Ok::<TargetRep, ()>(
                    t@,
                ),
                Err(_) => target_of(target_mode@, opt_trigger_view(trigger)) is Err,
            },
    {
        if str_eq(target_mode, "BEGIN") {
            match trigger {
                Some(t) => Ok(Self::Begin(t)),
                None => Err(Error::new("Trigger is required for BEGIN mode")),
            }
        } else if str_eq(target_mode, "END") {
            match trigger {
                Some(_) => Err(Error::new("Trigger is not allowed for END mode")),
                None => Ok(Self::End),
            }
        } else if str_eq(target_mode, "NEIGHBOR") {
            match trigger {
                Some(t) => Ok(Self::Neighbor(t)),
                None => Err(Error::new("Trigger is required for NEIGHBOR mode")),
            }
        } else {
            Err(Error::new("Invalid target mode"))
        }
    }
}

} // verus!

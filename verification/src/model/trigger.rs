use vstd::prelude::*;

use crate::grammar::TriggerRep;
use crate::model::{Date, Rule};

verus! {

/// The condition under which a directive acts: a rule's absence from the
/// active set, or a date having been reached.
#[derive(Debug, PartialEq)]
pub enum Trigger {
    Rule(Rule),
    Date(Date),
}

impl View for Trigger {
    type V = TriggerRep;

    open spec fn view(&self) -> TriggerRep {
        match self {
            Trigger::Rule(r) => TriggerRep::Name(r@),
            Trigger::Date(d) => TriggerRep::Date(d@),
        }
    }
}

impl Clone for Trigger {
    fn clone(&self) -> (r: Self)
        ensures
            r@ == self@,
    {
        match self {
            Trigger::Rule(x) => Trigger::Rule(x.clone()),
            Trigger::Date(d) => Trigger::Date(*d),
        }
    }
}

impl Trigger {
    pub fn rule(rule: &str) -> (t: Self)
        ensures
            t@ == TriggerRep::Name(rule@),
    {
        Trigger::Rule(Rule::new(rule))
    }
}

} // verus!

//! The configuration layer: the project manifest's shape, the runtime
//! contexts, and the directive parsers. This file holds the parser of the
//! older dialect, whose trigger parameter key is `feature`; it is proved
//! against the same grammar as the current one, under `key_feature()`.

pub mod annotation;
pub mod context;
pub mod manifest;

use vstd::prelude::*;
use vstd::string::StringExecFns;

use crate::ext::sized_split::{LeastSizedSplit, SizedSplit};
use crate::grammar::{command_of, is_directive_spec, is_end_directive, key_feature, params_rec,
    params_spec, parse_directive, target_of, trigger_of_params, CommandRep, DirectiveRep,
    ParamsRep, TargetRep, TriggerRep};
use crate::model::{Date, Feature};
use crate::text::{has_prefix, opt_view, seq_views, str_eq, strip_repeated, trim, trim_start};
use crate::Error;

verus! {

/// The trigger parameters read from one directive line of the older dialect.
pub struct Params {
    feature: Option<String>,
    date: Option<String>,
}

impl View for Params {
    type V = ParamsRep;

    closed spec fn view(&self) -> ParamsRep {
        ParamsRep { name: opt_view(self.feature), date: opt_view(self.date) }
    }
}

impl Params {
    /// Reads `key=value` parts in order, accepting `feature` and `date`.
    pub fn try_from(parts: &Vec<String>) -> (r: Result<Params, Error>)
        ensures
            match r {
                Ok(p) => params_spec(seq_views(parts@), key_feature()) == Ok::<ParamsRep, ()>(p@),
                Err(_) => params_spec(seq_views(parts@), key_feature()) is Err,
            },
    {
        let ghost pv = seq_views(parts@);
        let mut feature: Option<String> = None;
        let mut date: Option<String> = None;
        let mut i: usize = 0;
        while i < parts.len()
            invariant
                i <= parts.len(),
                pv == seq_views(parts@),
                params_spec(pv, key_feature()) == params_rec(
                    pv,
                    i as int,
                    key_feature(),
                    opt_view(feature),
                    opt_view(date),
                ),
            decreases parts.len() - i,
        {
            let kv = match parts[i].as_str().sized_split::<2>('=') {
                Ok(kv) => kv,
                Err(e) => {
                    return Err(e);
                },
            };
            if str_eq(kv[0].as_str(), "feature") {
                if feature.is_some() {
                    return Err(Error::new("parameter `feature` definition is duplicated"));
                }
                feature = Some(kv[1].clone());
            } else if str_eq(kv[0].as_str(), "date") {
                if date.is_some() {
                    return Err(Error::new("parameter `date` definition is duplicated"));
                }
                date = Some(kv[1].clone());
            } else {
                let mut msg = String::from_str("Unknown parameter: ");
                msg.append(kv[0].as_str());
                return Err(Error::new(msg.as_str()));
            }
            i = i + 1;
        }
        Ok(Params { feature, date })
    }

    /// The trigger the parameters name, if any.
    pub fn into_trigger(self) -> (r: Result<Option<Trigger>, Error>)
        ensures
            match r {
                Ok(o) => trigger_of_params(self@) == Ok::<Option<TriggerRep>, ()>(
                    opt_old_trigger_view(o),
                ),
                Err(_) => trigger_of_params(self@) is Err,
            },
    {
        match (self.feature, self.date) {
            (Some(feature), None) => Ok(Some(Trigger::Feature(Feature::new(feature.as_str())))),
            (None, Some(date)) => match Date::try_from(date.as_str()) {
                Ok(d) => Ok(Some(Trigger::Date(d))),
                Err(e) => Err(e),
            },
            (Some(feature), Some(date)) => {
                let mut msg = String::from_str("Only one trigger type is allowed (`feature`=");
                msg.append(feature.as_str());
                msg.append(", `date`=");
                msg.append(date.as_str());
                msg.append(")");
                Err(Error::new(msg.as_str()))
            },
            (None, None) => Ok(None),
        }
    }
}

/// The older dialect's trigger: a feature gate, or a date.
#[derive(Debug, PartialEq)]
pub enum Trigger {
    Feature(Feature),
    Date(Date),
}

impl View for Trigger {
    type V = TriggerRep;

    open spec fn view(&self) -> TriggerRep {
        match self {
            Trigger::Feature(f) => TriggerRep::Name(f@),
            Trigger::Date(d) => TriggerRep::Date(d@),
        }
    }
}

pub open spec fn opt_old_trigger_view(o: Option<Trigger>) -> Option<TriggerRep> {
    match o {
        Some(t) => Some(t@),
        None => None,
    }
}

/// The older dialect's command token.
#[derive(Debug, PartialEq)]
pub enum Command {
    Delete,
    Error,
}

impl View for Command {
    type V = CommandRep;

    open spec fn view(&self) -> CommandRep {
        match self {
            Command::Delete => CommandRep::Delete,
            Command::Error => CommandRep::Error,
        }
    }
}

impl Command {
    pub fn try_from(s: &str) -> (r: Result<Command, Error>)
        ensures
            match r {
                Ok(c) => command_of(s@) == Ok::<CommandRep, ()>(c@),
                Err(_) => command_of(s@) is Err,
            },
    {
        if str_eq(s, "DELETE") {
            Ok(Command::Delete)
        } else if str_eq(s, "ERROR") {
            Ok(Command::Error)
        } else {
            Err(Error::new("Invalid command"))
        }
    }
}

/// The older dialect's target shape.
#[derive(Debug, PartialEq)]
pub enum Target {
    Begin(Trigger),
    End,
    Neighbor(Trigger),
}

impl View for Target {
    type V = TargetRep;

    open spec fn view(&self) -> TargetRep {
        match self {
            Target::Begin(t) => TargetRep::Begin(t@),
            Target::End => TargetRep::End,
            Target::Neighbor(t) => TargetRep::Neighbor(t@),
        }
    }
}

impl Target {
    pub fn try_from(s: &str, trigger: Option<Trigger>) -> (r: Result<Self, Error>)
        ensures
            match r {
                Ok(t) => target_of(s@, opt_old_trigger_view(trigger)) == Ok::<TargetRep, ()>(t@),
                Err(_) => target_of(s@, opt_old_trigger_view(trigger)) is Err,
            },
    {
        if str_eq(s, "BEGIN") {
            match trigger {
                Some(t) => Ok(Self::Begin(t)),
                None => Err(Error::new("Trigger is required for BEGIN mode")),
            }
        } else if str_eq(s, "END") {
            match trigger {
                Some(_) => Err(Error::new("Trigger is not allowed for END mode")),
                None => Ok(Self::End),
            }
        } else if str_eq(s, "NEIGHBOR") {
            match trigger {
                Some(t) => Ok(Self::Neighbor(t)),
                None => Err(Error::new("Trigger is required for NEIGHBOR mode")),
            }
        } else {
            Err(Error::new("Invalid target mode"))
        }
    }
}

/// One parsed directive of the older dialect.
#[derive(Debug, PartialEq)]
pub struct InCodeConfig {
    pub command: Command,
    pub target: Target,
}

impl View for InCodeConfig {
    type V = DirectiveRep;

    open spec fn view(&self) -> DirectiveRep {
        DirectiveRep { command: self.command@, target: self.target@ }
    }
}

impl InCodeConfig {
    /// Whether the line carries the directive marker after leading whitespace.
    pub fn is_match(line: &str) -> (r: bool)
        ensures
            r == is_directive_spec(line@),
    {
        has_prefix(trim_start(line), "// torin ")
    }

    /// Whether the line parses as a bare `END` directive.
    pub fn is_target_end(line: &str) -> (r: bool)
        ensures
            r == is_end_directive(line@, key_feature()),
    {
        match Self::parse(line) {
            Ok(cfg) => match cfg.target {
                Target::End => true,
                _ => false,
            },
            Err(_) => false,
        }
    }

    /// Reads one directive line of the older dialect.
    pub fn parse(line: &str) -> (r: Result<Self, Error>)
        ensures
            match r {
                Ok(c) => parse_directive(line@, key_feature()) == Ok::<DirectiveRep, ()>(c@),
                Err(_) => parse_directive(line@, key_feature()) is Err,
            },
    {
        if !Self::is_match(line) {
            return Err(Error::new("Invalid line"));
        }
        let trimmed = trim(line);
        let body = strip_repeated(trimmed, "// torin ");
        let ghost parts = crate::text::split_spec(body@, ' ');
        let (head, rest) = match body.least_sized_split::<2>(' ') {
            Ok(p) => p,
            Err(e) => {
                return Err(e);
            },
        };
        proof {
            assert(seq_views(head@).len() == 2);
            assert(head@.len() == 2);
            assert(seq_views(head@)[0] == parts.take(2)[0]);
            assert(seq_views(head@)[1] == parts.take(2)[1]);
            assert(head@[0]@ == parts[0]);
            assert(head@[1]@ == parts[1]);
        }
        let params = match Params::try_from(&rest) {
            Ok(p) => p,
            Err(e) => {
                return Err(e);
            },
        };
        let trigger = match params.into_trigger() {
            Ok(t) => t,
            Err(e) => {
                return Err(e);
            },
        };
        let command = match Command::try_from(head[0].as_str()) {
            Ok(c) => c,
            Err(e) => {
                return Err(e);
            },
        };
        let target = match Target::try_from(head[1].as_str(), trigger) {
            Ok(t) => t,
            Err(e) => {
                return Err(e);
            },
        };
        Ok(InCodeConfig { command, target })
    }
}

} // verus!

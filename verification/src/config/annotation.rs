//! The directive parser of the current dialect, whose trigger parameter
//! key is `rule`. Proved against the grammar's `parse_directive` under
//! `key_rule()`.

use vstd::prelude::*;
use vstd::string::StringExecFns;

use crate::ext::sized_split::{LeastSizedSplit, SizedSplit};
use crate::grammar::{is_directive_spec, key_rule, params_rec, params_spec,
    parse_directive, trigger_of_params, DirectiveRep, ParamsRep};
use crate::model;
use crate::model::target::opt_trigger_view;
use crate::text::{has_prefix, opt_view, seq_views, str_eq, strip_repeated, trim, trim_start};
use crate::Error;

verus! {

/// The trigger parameters read from one directive line.
pub struct Params {
    pub rule: Option<String>,
    pub date: Option<String>,
}

impl View for Params {
    type V = ParamsRep;

    open spec fn view(&self) -> ParamsRep {
        ParamsRep { name: opt_view(self.rule), date: opt_view(self.date) }
    }
}

impl Params {
    /// Reads `key=value` parts in order; a part that does not split into
    /// exactly two fields, an unknown key, or a repeated key is an error.
    pub fn try_from(parts: &Vec<String>) -> (r: Result<Params, Error>)
        ensures
            match r {
                Ok(p) => params_spec(seq_views(parts@), key_rule()) == Ok::<ParamsRep, ()>(p@),
                Err(_) => params_spec(seq_views(parts@), key_rule()) is Err,
            },
    {
        let ghost pv = seq_views(parts@);
        let mut rule: Option<String> = None;
        let mut date: Option<String> = None;
        let mut i: usize = 0;
        while i < parts.len()
            invariant
                i <= parts.len(),
                pv == seq_views(parts@),
                params_spec(pv, key_rule()) == params_rec(
                    pv,
                    i as int,
                    key_rule(),
                    opt_view(rule),
                    opt_view(date),
                ),
            decreases parts.len() - i,
        {
            let kv = match parts[i].as_str().sized_split::<2>('=') {
                Ok(kv) => kv,
                Err(e) => {
                    return Err(e);
                },
            };
            if str_eq(kv[0].as_str(), "rule") {
                if rule.is_some() {
                    return Err(Error::new("parameter `rule` definition is duplicated"));
                }
                rule = Some(kv[1].clone());
            } else if str_eq(kv[0].as_str(), "date") {
                if date.is_some() {
                    return Err(Error::new("parameter `date` definition is duplicated"));
                }
                date = Some(kv[1].clone());
            } else {
                let mut msg = String::from_str("Unknown parameter: ");
                msg.append(kv[0].as_str());
                return Err(Error::new(msg.as_str()));
            }
            i = i + 1;
        }
        Ok(Params { rule, date })
    }

    /// The trigger the parameters name, if any: exactly one of the two
    /// parameter kinds may be present, and a date value must be well formed.
    pub fn into_trigger(self) -> (r: Result<Option<model::Trigger>, Error>)
        ensures
            match r {
                Ok(o) => trigger_of_params(self@) == Ok::<Option<crate::grammar::TriggerRep>, ()>(
                    opt_trigger_view(o),
                ),
                Err(_) => trigger_of_params(self@) is Err,
            },
    {
        match (self.rule, self.date) {
            (Some(rule), None) => Ok(Some(model::Trigger::Rule(model::Rule::new(rule.as_str())))),
            (None, Some(date)) => match model::Date::try_from(date.as_str()) {
                Ok(d) => Ok(Some(model::Trigger::Date(d))),
                Err(e) => Err(e),
            },
            (Some(rule), Some(date)) => {
                let mut msg = String::from_str("Only one trigger type is allowed (`rule`=");
                msg.append(rule.as_str());
                msg.append(", `date`=");
                msg.append(date.as_str());
                msg.append(")");
                Err(Error::new(msg.as_str()))
            },
            (None, None) => Ok(None),
        }
    }
}

/// One parsed directive: what to do, and where.
#[derive(Debug, PartialEq)]
pub struct Annotation {
    pub command: model::Command,
    pub target: model::Target,
}

impl View for Annotation {
    type V = DirectiveRep;

    open spec fn view(&self) -> DirectiveRep {
        DirectiveRep { command: self.command@, target: self.target@ }
    }
}

impl Annotation {
    /// Whether the line carries the directive marker after leading whitespace.
    pub fn is_match(line: &str) -> (r: bool)
        ensures
            r == is_directive_spec(line@),
    {
        has_prefix(trim_start(line), "// torin ")
    }

    /// Reads one directive line, exactly as `parse_directive` describes it
    /// under the `rule` key.
    pub fn parse(line: &str) -> (r: Result<Self, Error>)
        ensures
            match r {
                Ok(a) => parse_directive(line@, key_rule()) == Ok::<DirectiveRep, ()>(a@),
                Err(_) => parse_directive(line@, key_rule()) is Err,
            },
    {
        if !Self::is_match(line) {
            return Err(Error::new("Invalid line"));
        }
        let trimmed = trim(line);
        let body = strip_repeated(trimmed, "// torin ");
        let ghost parts = crate::text::split_spec(body@, ' ');
        let (head, rest) = match body.least_sized_split::<2>(' ') {
            Ok(p) => p,
            Err(e) => {
                return Err(e);
            },
        };
        proof {
            assert(seq_views(head@).len() == 2);
            assert(head@.len() == 2);
            assert(seq_views(head@)[0] == parts.take(2)[0]);
            assert(seq_views(head@)[1] == parts.take(2)[1]);
            assert(head@[0]@ == parts[0]);
            assert(head@[1]@ == parts[1]);
        }
        let params = match Params::try_from(&rest) {
            Ok(p) => p,
            Err(e) => {
                return Err(e);
            },
        };
        let trigger = match params.into_trigger() {
            Ok(t) => t,
            Err(e) => {
                return Err(e);
            },
        };
        let command = match model::Command::try_from(head[0].as_str()) {
            Ok(c) => c,
            Err(e) => {
                return Err(e);
            },
        };
        let target = match model::Target::new(head[1].as_str(), trigger) {
            Ok(t) => t,
            Err(e) => {
                return Err(e);
            },
        };
        Ok(Annotation { command, target })
    }
}

/// A target shape from an older iteration of this dialect, kept for
/// compatibility; the parser above builds `model::Target` instead.
#[derive(Debug, PartialEq)]
pub enum Target {
    Begin(model::Trigger),
    End,
    Neighbor(model::Trigger),
}

/// A trigger shape from an older iteration of this dialect, kept for
/// compatibility; the parser above builds `model::Trigger` instead.
#[derive(Debug, PartialEq)]
pub enum Trigger {
    Feature(model::Feature),
    Date(model::Date),
}

} // verus!

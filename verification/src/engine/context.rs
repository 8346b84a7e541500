//! The runtime context triggers are matched against: the current date and
//! the rule names the project holds active.

use vstd::prelude::*;

use crate::grammar::{date_le, ContextRep, TriggerRep};
use crate::model;
use crate::text::{seq_views, str_eq};

verus! {

#[derive(Debug, PartialEq)]
pub struct Context {
    pub date: model::Date,
    rules: Vec<model::Rule>,
}

impl View for Context {
    type V = ContextRep;

    closed spec fn view(&self) -> ContextRep {
        ContextRep { date: self.date@, names: seq_views_rules(self.rules@) }
    }
}

pub open spec fn seq_views_rules(v: Seq<model::Rule>) -> Seq<Seq<char>> {
    v.map_values(|r: model::Rule| r@)
}

/// When a trigger fires: a rule trigger while its name is absent from the
/// active set, a date trigger once the current date has reached the
/// directive's date (equality included).
pub open spec fn triggered_spec(ctx: ContextRep, t: TriggerRep) -> bool {
    match t {
        TriggerRep::Date(d) => date_le(d, ctx.date),
        TriggerRep::Name(n) => !ctx.names.contains(n),
    }
}

impl Context {
    pub fn load(rules: Vec<String>) -> (ctx: Context)
        ensures
            ctx@.names == seq_views(rules@),
            1 <= ctx@.date.month <= 12,
            1 <= ctx@.date.day <= 31,
    {
        let date = model::Date::now();
        Context { date, rules: to_rules(rules) }
    }

    pub fn is_triggered(&self, trigger: &model::Trigger) -> (r: bool)
        ensures
            r == triggered_spec(self@, trigger@),
    {
        match trigger {
            model::Trigger::Date(date) => date.le(&self.date),
            model::Trigger::Rule(rule) => !self.contains_rule(rule),
        }
    }

    pub fn mock(date: model::Date, rules: Vec<String>) -> (ctx: Context)
        ensures
            ctx@ == (ContextRep { date: date@, names: seq_views(rules@) }),
    {
        Context { date, rules: to_rules(rules) }
    }

    fn contains_rule(&self, rule: &model::Rule) -> (r: bool)
        ensures
            r == self@.names.contains(rule@),
    {
        let mut i: usize = 0;
        while i < self.rules.len()
            invariant
                i <= self.rules.len(),
                forall|t: int| 0 <= t < i ==> self.rules@[t]@ != rule@,
            decreases self.rules.len() - i,
        {
            if str_eq(self.rules[i].name().as_str(), rule.name().as_str()) {
                proof {
                    assert(self@.names[i as int] == rule@);
                }
                return true;
            }
            i = i + 1;
        }
        proof {
            assert forall|k: int| 0 <= k < self@.names.len() implies self@.names[k] != rule@ by {
                assert(self@.names[k] == self.rules@[k]@);
            }
        }
        false
    }
}

fn to_rules(names: Vec<String>) -> (r: Vec<model::Rule>)
    ensures
        seq_views_rules(r@) == seq_views(names@),
{
    let mut r: Vec<model::Rule> = Vec::new();
    let mut i: usize = 0;
    while i < names.len()
        invariant
            i <= names.len(),
            r@.len() == i,
            forall|t: int| 0 <= t < i ==> r@[t]@ == names@[t]@,
        decreases names.len() - i,
    {
        r.push(model::Rule::new(names[i].as_str()));
        i = i + 1;
    }
    proof {
        assert(seq_views_rules(r@) =~= seq_views(names@));
    }
    r
}

} // verus!

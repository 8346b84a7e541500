//! The older runtime context: a current date and a set of active feature
//! names. Its trigger model is the engine context's: a feature trigger
//! fires while its name is absent from the active set, and a date trigger
//! fires once the current date has reached the directive's date.

use vstd::prelude::*;

use crate::config::Trigger;
use crate::grammar::{date_le, ContextRep, TriggerRep};
use crate::model;
use crate::text::{seq_views, str_eq};

verus! {

#[derive(Debug, PartialEq)]
pub struct Context {
    pub date: model::Date,
    features: Vec<model::Feature>,
}

impl View for Context {
    type V = ContextRep;

    closed spec fn view(&self) -> ContextRep {
        ContextRep { date: self.date@, names: seq_views_features(self.features@) }
    }
}

pub open spec fn seq_views_features(v: Seq<model::Feature>) -> Seq<Seq<char>> {
    v.map_values(|f: model::Feature| f@)
}

/// When a trigger of the older dialect fires: a feature trigger while its
/// name is absent from the active set, a date trigger once the current
/// date has reached the directive's date (equality included).
pub open spec fn triggered_spec(ctx: ContextRep, t: TriggerRep) -> bool {
    match t {
        TriggerRep::Date(d) => date_le(d, ctx.date),
        TriggerRep::Name(n) => !ctx.names.contains(n),
    }
}

impl Context {
    pub fn load(features: Vec<String>) -> (ctx: Context)
        ensures
            ctx@.names == seq_views(features@),
            1 <= ctx@.date.month <= 12,
            1 <= ctx@.date.day <= 31,
    {
        let date = model::Date::now();
        Context { date, features: to_features(features) }
    }

    pub fn is_triggered(&self, trigger: &Trigger) -> (r: bool)
        ensures
            r == triggered_spec(self@, trigger@),
    {
        match trigger {
            Trigger::Date(date) => date.le(&self.date),
            Trigger::Feature(feature) => !self.contains_feature(feature),
        }
    }

    pub fn mock(date: model::Date, features: Vec<String>) -> (ctx: Context)
        ensures
            ctx@ == (ContextRep { date: date@, names: seq_views(features@) }),
    {
        Context { date, features: to_features(features) }
    }

    fn contains_feature(&self, feature: &model::Feature) -> (r: bool)
        ensures
            r == self@.names.contains(feature@),
    {
        let mut i: usize = 0;
        while i < self.features.len()
            invariant
                i <= self.features.len(),
                forall|t: int| 0 <= t < i ==> self.features@[t]@ != feature@,
            decreases self.features.len() - i,
        {
            let name = self.features[i].name();
            if str_eq(name.as_str(), feature.name().as_str()) {
                proof {
                    assert(self@.names[i as int] == feature@);
                }
                return true;
            }
            i = i + 1;
        }
        proof {
            assert forall|k: int| 0 <= k < self@.names.len() implies self@.names[k]
                != feature@ by {
                assert(self@.names[k] == self.features@[k]@);
            }
        }
        false
    }
}

fn to_features(names: Vec<String>) -> (r: Vec<model::Feature>)
    ensures
        seq_views_features(r@) == seq_views(names@),
{
    let mut r: Vec<model::Feature> = Vec::new();
    let mut i: usize = 0;
    while i < names.len()
        invariant
            i <= names.len(),
            r@.len() == i,
            forall|t: int| 0 <= t < i ==> r@[t]@ == names@[t]@,
        decreases names.len() - i,
    {
        r.push(model::Feature::new(names[i].as_str()));
        i = i + 1;
    }
    proof {
        assert(seq_views_features(r@) =~= seq_views(names@));
    }
    r
}

} // verus!

//! The older resolver dialect: directives keyed by `feature`. Range
//! resolution follows the same structural rules as the engine resolver:
//! a `BEGIN` is answered by the next directive strictly after it, which
//! must be a bare `END`; anything else is a nested annotation and fails
//! the whole pass.

use vstd::prelude::*;
use vstd::string::StringExecFns;

use crate::config;
use crate::config::context::Context;
use crate::config::InCodeConfig;
use crate::engine::file::File;
use crate::engine::lines::{flag_range, keep_entries};
use crate::engine::plan::{find_directive_from, first_offense, neighbor_begin, neighbor_end,
    next_blank_index, next_directive_index, prev_blank_index, PlanRep};
use crate::grammar::{is_directive_spec, key_feature, parse_directive, CommandRep, ContextRep,
    TargetRep};
use crate::text::seq_views;
use crate::Error;

verus! {

/// What a directive of the older dialect asks for.
#[derive(Debug, PartialEq)]
pub enum Command {
    Delete,
    Error,
}

impl View for Command {
    type V = CommandRep;

    open spec fn view(&self) -> CommandRep {
        match self {
            Command::Delete => CommandRep::Delete,
            Command::Error => CommandRep::Error,
        }
    }
}

impl Command {
    pub fn is_error(&self) -> (r: bool)
        ensures
            r == (self@ is Error),
    {
        match self {
            Command::Error => true,
            Command::Delete => false,
        }
    }
}

/// An inclusive range of indices into the line sequence.
#[derive(Debug, PartialEq)]
pub struct Range {
    pub begin: usize,
    pub end: usize,
}

/// A directive of the older dialect resolved to a concrete range.
#[derive(Debug, PartialEq)]
pub struct Action {
    pub command: Command,
    pub trigger: config::Trigger,
    pub range: Range,
}

impl View for Action {
    type V = PlanRep;

    open spec fn view(&self) -> PlanRep {
        PlanRep {
            command: self.command@,
            trigger: self.trigger@,
            begin: self.range.begin as int,
            end: self.range.end as int,
        }
    }
}

pub open spec fn action_views(v: Seq<Action>) -> Seq<PlanRep> {
    v.map_values(|a: Action| a@)
}

impl Action {
    pub fn command(&self) -> (r: &Command)
        ensures
            r@ == self@.command,
    {
        &self.command
    }

    /// Carries the action out on the file: a deleting action removes its
    /// range for good, a reporting action changes nothing.
    pub fn apply(&self, f: &mut File) -> (r: Result<(), Error>)
        ensures
            r is Ok,
            self@.command is Delete ==> final(f)@ == keep_entries(
                flag_range(
                    old(f)@,
                    self@.begin,
                    if self@.end >= old(f)@.len() {
                        old(f)@.len() as int
                    } else {
                        self@.end + 1
                    },
                ),
            ),
            self@.command is Error ==> final(f)@ == old(f)@,
    {
        match self.command {
            Command::Delete => {
                f.flagging(self.range.begin, self.range.end);
                f.apply();
                Ok(())
            },
            Command::Error => Ok(()),
        }
    }
}

// ---------------------------------------------------------------------------
// the older resolver
// ---------------------------------------------------------------------------

/// The older resolver from line `i` on: a `BEGIN` is answered by the next
/// directive strictly after it, falling back to the last line; that line
/// must parse as a bare `END`, and the plan spans both markers
/// inclusively. A `NEIGHBOR` covers its blank-line-delimited block. A
/// malformed directive line, and a `BEGIN` answered by anything other
/// than an `END`, fails the whole resolution.
pub open spec fn actions_from(lines: Seq<Seq<char>>, i: int) -> Result<Seq<PlanRep>, ()>
    decreases lines.len() - i,
{
    if i < 0 || i >= lines.len() {
        Ok(Seq::empty())
    } else if !is_directive_spec(lines[i]) {
        actions_from(lines, i + 1)
    } else {
        match parse_directive(lines[i], key_feature()) {
            Err(_) => Err(()),
            Ok(d) => match d.target {
                TargetRep::End => actions_from(lines, i + 1),
                TargetRep::Begin(t) => {
                    let j = match find_directive_from(lines, i + 1) {
                        Some(j) => j,
                        None => lines.len() - 1,
                    };
                    match parse_directive(lines[j], key_feature()) {
                        Err(_) => Err(()),
                        Ok(d2) => match d2.target {
                            TargetRep::End => match actions_from(lines, i + 1) {
                                Err(_) => Err(()),
                                Ok(rest) => Ok(
                                    seq![
                                        PlanRep {
                                            command: d.command,
                                            trigger: t,
                                            begin: i,
                                            end: j,
                                        },
                                    ] + rest,
                                ),
                            },
                            _ => Err(()),
                        },
                    }
                },
                TargetRep::Neighbor(t) => match actions_from(lines, i + 1) {
                    Err(_) => Err(()),
                    Ok(rest) => Ok(
                        seq![
                            PlanRep {
                                command: d.command,
                                trigger: t,
                                begin: neighbor_begin(lines, i),
                                end: neighbor_end(lines, i),
                            },
                        ] + rest,
                    ),
                },
            },
        }
    }
}

/// What one pass of the older resolver yields.
pub open spec fn actions_resolve_spec(lines: Seq<Seq<char>>) -> Result<Seq<PlanRep>, ()> {
    actions_from(lines, 0)
}

/// The older pruner: an order-preserving filter under the older context's
/// trigger model.
pub open spec fn prune_old_spec(ps: Seq<PlanRep>, ctx: ContextRep) -> Seq<PlanRep>
    decreases ps.len(),
{
    if ps.len() == 0 {
        ps
    } else if crate::config::context::triggered_spec(ctx, ps[0].trigger) {
        seq![ps[0]] + prune_old_spec(ps.drop_first(), ctx)
    } else {
        prune_old_spec(ps.drop_first(), ctx)
    }
}

pub open spec fn chain_actions(prefix: Seq<PlanRep>, rest: Result<Seq<PlanRep>, ()>) -> Result<
    Seq<PlanRep>,
    (),
> {
    match rest {
        Ok(s) => Ok(prefix + s),
        Err(e) => Err(e),
    }
}

/// The actions of one pass of the older resolver, in document order.
#[derive(Debug, PartialEq)]
pub struct Actions {
    pub actions: Vec<Action>,
}

impl View for Actions {
    type V = Seq<PlanRep>;

    open spec fn view(&self) -> Seq<PlanRep> {
        action_views(self.actions@)
    }
}

impl Actions {
    /// One pass of the older resolver, exactly as `actions_resolve_spec`
    /// describes it; an error carries the first offending line's index.
    pub fn parse(lines: &Vec<String>) -> (r: Result<Option<Actions>, Error>)
        ensures
            match r {
                Ok(Some(a)) => actions_resolve_spec(seq_views(lines@)) == Ok::<Seq<PlanRep>, ()>(
                    a@,
                ) && a@.len() > 0,
                Ok(None) => actions_resolve_spec(seq_views(lines@)) == Ok::<Seq<PlanRep>, ()>(
                    Seq::empty(),
                ),
                Err(e) => actions_resolve_spec(seq_views(lines@)) is Err && e@.line
                    == first_offense(seq_views(lines@), 0, key_feature()) && e@.line is Some,
            },
    {
        let ghost lv = seq_views(lines@);
        let mut actions: Vec<Action> = Vec::new();
        let mut i: usize = 0;
        proof {
            assert(action_views(actions@) =~= Seq::<PlanRep>::empty());
            match actions_from(lv, 0) {
                Ok(s) => {
                    assert(action_views(actions@) + s =~= s);
                },
                Err(_) => {},
            }
        }
        while i < lines.len()
            invariant
                i <= lines.len(),
                lv == seq_views(lines@),
                actions_resolve_spec(lv) == chain_actions(
                    action_views(actions@),
                    actions_from(lv, i as int),
                ),
                first_offense(lv, 0, key_feature()) == first_offense(lv, i as int, key_feature()),
            decreases lines@.len() - i,
        {
            let ghost acc = action_views(actions@);
            let line = &lines[i];
            if !InCodeConfig::is_match(line.as_str()) {
                i = i + 1;
                continue ;
            }
            let cfg = match InCodeConfig::parse(line.as_str()) {
                Ok(cfg) => cfg,
                Err(e) => {
                    return Err(e.with_line(i));
                },
            };
            let command = match cfg.command {
                config::Command::Delete => Command::Delete,
                config::Command::Error => Command::Error,
            };
            match cfg.target {
                config::Target::End => {},
                config::Target::Begin(trigger) => {
                    let j = match next_directive_index(lines, i + 1) {
                        Some(j) => j,
                        None => lines.len() - 1,
                    };
                    proof {
                        crate::engine::plan::lemma_find_directive_bounds(lv, i as int + 1);
                    }
                    let cfg2 = match InCodeConfig::parse(lines[j].as_str()) {
                        Ok(cfg2) => cfg2,
                        Err(e) => {
                            return Err(e.with_line(j));
                        },
                    };
                    match cfg2.target {
                        config::Target::End => {},
                        _ => {
                            let mut msg = String::from_str("Nested torin annotation found: ");
                            msg.append(line.as_str());
                            return Err(Error::new(msg.as_str()).with_line(i));
                        },
                    }
                    let a = Action { command, trigger, range: Range { begin: i, end: j } };
                    let ghost av = a@;
                    actions.push(a);
                    proof {
                        assert(action_views(actions@) =~= acc.push(av));
                        lemma_chain_actions_push(acc, av, actions_from(lv, i as int + 1));
                    }
                },
                config::Target::Neighbor(trigger) => {
                    proof {
                        crate::engine::plan::lemma_find_blank_bounds(lv, i as int);
                        crate::engine::plan::lemma_find_blank_before_bounds(lv, i as int);
                        crate::engine::plan::lemma_directive_not_blank(lv[i as int]);
                    }
                    let begin = match prev_blank_index(lines, i) {
                        Some(j) => j + 1,
                        None => 0,
                    };
                    let end = match next_blank_index(lines, i) {
                        Some(j) => j - 1,
                        None => lines.len() - 1,
                    };
                    let a = Action { command, trigger, range: Range { begin, end } };
                    let ghost av = a@;
                    actions.push(a);
                    proof {
                        assert(action_views(actions@) =~= acc.push(av));
                        lemma_chain_actions_push(acc, av, actions_from(lv, i as int + 1));
                    }
                },
            }
            i = i + 1;
        }
        proof {
            assert(actions_from(lv, lines@.len() as int) == Ok::<Seq<PlanRep>, ()>(Seq::empty()));
            assert(action_views(actions@) + Seq::<PlanRep>::empty() =~= action_views(actions@));
        }
        if actions.len() == 0 {
            proof {
                assert(action_views(actions@) =~= Seq::<PlanRep>::empty());
            }
            return Ok(None);
        }
        Ok(Some(Actions { actions }))
    }

    /// Keeps, in order, exactly the actions whose trigger is active under
    /// the older context.
    pub fn prune(self, ctx: &Context) -> (r: Result<Self, Error>)
        ensures
            r matches Ok(a) && a@ == prune_old_spec(self@, ctx@),
    {
        let ghost full = action_views(self.actions@);
        let mut out: Vec<Action> = Vec::new();
        let mut i: usize = 0;
        proof {
            assert(full.skip(0) =~= full);
            assert(action_views(out@) + prune_old_spec(full, ctx@) =~= prune_old_spec(full, ctx@));
        }
        let mut rest_vec = self.actions;
        let total = rest_vec.len();
        while i < total
            invariant
                i <= total,
                total == rest_vec@.len(),
                full == action_views(rest_vec@),
                prune_old_spec(full, ctx@) == action_views(out@) + prune_old_spec(
                    full.skip(i as int),
                    ctx@,
                ),
            decreases total - i,
        {
            let ghost rest = full.skip(i as int);
            let ghost acc = action_views(out@);
            proof {
                assert(rest[0] == full[i as int]);
                assert(rest.drop_first() =~= full.skip(i as int + 1));
            }
            let a = &rest_vec[i];
            if ctx.is_triggered(&a.trigger) {
                let copied = Action {
                    command: match a.command {
                        Command::Delete => Command::Delete,
                        Command::Error => Command::Error,
                    },
                    trigger: match &a.trigger {
                        config::Trigger::Feature(x) => config::Trigger::Feature(
                            crate::model::Feature::new(x.name().as_str()),
                        ),
                        config::Trigger::Date(d) => config::Trigger::Date(*d),
                    },
                    range: Range { begin: a.range.begin, end: a.range.end },
                };
                out.push(copied);
                proof {
                    assert(action_views(out@) =~= acc.push(full[i as int]));
                    assert(acc + (seq![rest[0]] + prune_old_spec(rest.drop_first(), ctx@))
                        =~= action_views(out@) + prune_old_spec(rest.drop_first(), ctx@));
                }
            }
            i = i + 1;
        }
        proof {
            assert(full.skip(full.len() as int) =~= Seq::<PlanRep>::empty());
            assert(action_views(out@) + Seq::<PlanRep>::empty() =~= action_views(out@));
        }
        Ok(Actions { actions: out })
    }

    /// Whether every action satisfies the predicate.
    pub fn all<F: Fn(&Action) -> bool>(&self, predicates: F) -> (r: bool)
        requires
            forall|a: &Action| #[trigger] call_requires(predicates, (a,)),
        ensures
            r ==> forall|k: int|
                0 <= k < self.actions@.len() ==> #[trigger] call_ensures(
                    predicates,
                    (&self.actions@[k],),
                    true,
                ),
            !r ==> exists|k: int|
                0 <= k < self.actions@.len() && #[trigger] call_ensures(
                    predicates,
                    (&self.actions@[k],),
                    false,
                ),
    {
        let mut i: usize = 0;
        while i < self.actions.len()
            invariant
                i <= self.actions.len(),
                forall|a: &Action| #[trigger] call_requires(predicates, (a,)),
                forall|k: int|
                    0 <= k < i ==> #[trigger] call_ensures(predicates, (&self.actions@[k],), true),
            decreases self.actions@.len() - i,
        {
            if !predicates(&self.actions[i]) {
                return false;
            }
            i = i + 1;
        }
        true
    }

    /// The first action in document order; an error when there is none.
    pub fn first(&self) -> (r: Result<&Action, Error>)
        ensures
            match r {
                Ok(a) => self@.len() > 0 && a@ == self@[0],
                Err(_) => self@.len() == 0,
            },
    {
        if self.actions.len() == 0 {
            Err(Error::new("No operations found"))
        } else {
            Ok(&self.actions[0])
        }
    }
}

proof fn lemma_chain_actions_push(acc: Seq<PlanRep>, a: PlanRep, rest: Result<Seq<PlanRep>, ()>)
    ensures
        chain_actions(acc.push(a), rest) == chain_actions(acc, chain_actions(seq![a], rest)),
{
    match rest {
        Ok(s) => {
            assert(acc.push(a) + s =~= acc + (seq![a] + s));
        },
        Err(_) => {},
    }
}

} // verus!

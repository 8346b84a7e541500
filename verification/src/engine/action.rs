//! The per-file resolution loop: resolve the visible lines, prune the
//! plans, apply the first deletion, and start over, until nothing active
//! remains or only error reports do. Re-resolving from scratch after every
//! single mutation keeps all ranges consistent with the shifting visible
//! indices.

use vstd::prelude::*;

use crate::engine::context::Context;
use crate::engine::diff::{diff_views, diffs_of_hunks, hunks_spec};
use crate::engine::file::File;
use crate::engine::lines::{flag_range, keep_entries, lemma_flag_range_decreases, lemma_flag_range_shape,
    lemma_keep_visible, lemma_vis_count_le, pruned_from, vis_count, visible_texts, Flag};
use crate::engine::mode::Mode;
use crate::engine::plan::{all_error, first_offense, lemma_plans_ranges, lemma_prune_subset,
    ok_of, plan_views, prune_spec, resolve_spec, terminal_spec, Plan, PlanRep, Plans};
use crate::engine::Status;
use crate::grammar::{key_rule, ContextRep};
use crate::model;
use crate::text::seq_views;
use crate::Error;

verus! {

/// The error plans a terminal state reports: when active plans remain and
/// every one of them carries the `ERROR` command, they are reported;
/// otherwise nothing is.
pub open spec fn error_plans(lines: Seq<Seq<char>>, ctx: ContextRep) -> Seq<PlanRep> {
    match resolve_spec(lines) {
        Ok(ps) => {
            let pr = prune_spec(ps, ctx);
            if pr.len() > 0 && all_error(pr) {
                pr
            } else {
                Seq::empty()
            }
        },
        Err(_) => Seq::empty(),
    }
}

/// The status one file reports under a mode, given the store the loop
/// ended in: only `Check` can fail, and it fails exactly when something
/// was deleted or error directives remain active.
pub open spec fn run_status(mode: Mode, store: Seq<(Flag, Seq<char>)>, ctx: ContextRep) -> Status {
    if mode is Check && (hunks_spec(store).len() > 0 || error_plans(visible_texts(store), ctx).len()
        > 0) {
        Status::Failure
    } else {
        Status::Success
    }
}

/// One step of the resolution loop: re-resolve the visible lines, prune,
/// and flag exactly the first active plan in document order whose command
/// deletes, with the flagged range clamped as the store clamps it. Plans
/// before it may only be reports.
pub open spec fn step_spec(
    a: Seq<(Flag, Seq<char>)>,
    b: Seq<(Flag, Seq<char>)>,
    ctx: ContextRep,
) -> bool {
    resolve_spec(visible_texts(a)) is Ok && {
        let pr = prune_spec(ok_of(resolve_spec(visible_texts(a))), ctx);
        exists|k: int|
            {
                &&& 0 <= k < pr.len()
                &&& (#[trigger] pr[k]).command is Delete
                &&& (forall|t: int| 0 <= t < k ==> (#[trigger] pr[t]).command is Error)
                &&& b == flag_range(
                    a,
                    pr[k].begin,
                    if pr[k].end >= a.len() {
                        a.len() as int
                    } else {
                        pr[k].end + 1
                    },
                )
            }
    }
}

/// A chain of loop steps: each store in the trace steps to the next.
pub open spec fn steps_spec(trace: Seq<Seq<(Flag, Seq<char>)>>, ctx: ContextRep) -> bool {
    forall|i: int| 0 <= i < trace.len() - 1 ==> step_spec(#[trigger] trace[i], trace[i + 1], ctx)
}

/// One run over one file, under a fixed mode.
pub struct Action {
    mode: Mode,
}

impl Action {
    pub closed spec fn mode_spec(&self) -> Mode {
        self.mode
    }

    pub fn new(mode: Mode) -> (a: Action)
        ensures
            a.mode_spec() == mode,
    {
        Action { mode }
    }

    /// Resolves the file to a terminal state and reports per the mode.
    ///
    /// On success there is an intermediate store `m`, reached from the
    /// input by only adding deletion flags, on which resolution has
    /// nothing active left to do; `Apply` compacts it, the other modes
    /// hand it back as is. The reported error plans and the status are
    /// exactly those of `m`. A document that is already terminal is left
    /// exactly as it was: running the resolution again is a no-op.
    /// The call fails only when a directive line is malformed or nested,
    /// i.e. when the visible lines no longer resolve.
    #[verifier::rlimit(80)]
    pub fn run(&self, ctx: &Context, f: &mut File) -> (r: Result<(Status, Vec<Plan>), Error>)
        ensures
            match r {
                Ok(sr) => exists|m: Seq<(Flag, Seq<char>)>|
                    {
                        &&& #[trigger] pruned_from(old(f)@, m)
                        &&& exists|trace: Seq<Seq<(Flag, Seq<char>)>>|
                            trace.len() > 0 && trace[0] == old(f)@ && trace.last() == m
                                && steps_spec(trace, ctx@)
                        &&& terminal_spec(visible_texts(m), ctx@)
                        &&& (if self.mode_spec() is Apply {
                            final(f)@ == keep_entries(m)
                        } else {
                            final(f)@ == m
                        })
                        &&& plan_views(sr.1@) == error_plans(visible_texts(m), ctx@)
                        &&& sr.0 == run_status(self.mode_spec(), m, ctx@)
                    },
                Err(e) => pruned_from(old(f)@, final(f)@) && resolve_spec(
                    visible_texts(final(f)@),
                ) is Err && e@.line == first_offense(visible_texts(final(f)@), 0, key_rule())
                    && e@.line is Some,
            },
            terminal_spec(visible_texts(old(f)@), ctx@) ==> r is Ok && (if self.mode_spec()
                is Apply {
                final(f)@ == keep_entries(old(f)@)
            } else {
                final(f)@ == old(f)@
            }),
    {
        let ghost orig = f@;
        let ghost mut trace: Seq<Seq<(Flag, Seq<char>)>> = seq![orig];
        let mut errors: Vec<Plan> = Vec::new();
        let mut done = false;
        let mut failure: Option<Error> = None;
        while !done
            invariant
                pruned_from(orig, f@),
                trace.len() > 0 && trace[0] == orig && trace.last() == f@ && steps_spec(
                    trace,
                    ctx@,
                ),
                terminal_spec(visible_texts(orig), ctx@) ==> f@ == orig,
                !done ==> errors@.len() == 0 && failure is None,
                done ==> match failure {
                    Some(e) => resolve_spec(visible_texts(f@)) is Err && e@.line == first_offense(
                        visible_texts(f@),
                        0,
                        key_rule(),
                    ) && e@.line is Some,
                    None => terminal_spec(visible_texts(f@), ctx@) && plan_views(errors@)
                        == error_plans(visible_texts(f@), ctx@),
                },
            decreases (if done {
                0int
            } else {
                1int
            }), vis_count(f@),
        {
            let ghost store = f@;
            let visible = f.lines();
            let ghost lv = visible_texts(store);
            proof {
                assert(seq_views(visible@) == lv);
            }
            let parsed = Plans::parse(&visible);
            match parsed {
                Err(e) => {
                    failure = Some(e);
                    done = true;
                },
                Ok(None) => {
                    done = true;
                },
                Ok(Some(plans)) => {
                    let ghost ps = plans@;
                    let pruned = plans.prune(ctx);
                    let ghost pr = prune_spec(ps, ctx@);
                    match first_delete(pruned.iter()) {
                        None => {
                            // every remaining active plan only reports: collect
                            // them and stop without touching the store
                            proof {
                                assert(all_error(pr)) by {
                                    assert forall|k: int| 0 <= k < pr.len() implies (
                                    #[trigger] pr[k]).command is Error by {
                                        assert(plan_views(pruned.plans@)[k] == pr[k]);
                                    }
                                }
                            }
                            errors = clone_plans(pruned.iter());
                            done = true;
                        },
                        Some(be) => {
                            let ghost k = choose|k: int|
                                0 <= k < pruned.plans@.len() && (
                                #[trigger] pruned.plans@[k])@.command is Delete
                                    && pruned.plans@[k]@.begin == be.0 as int
                                    && pruned.plans@[k]@.end == be.1 as int && (forall|t: int|
                                    0 <= t < k ==> (
                                    #[trigger] pruned.plans@[t])@.command is Error);
                            proof {
                                let pk = pruned.plans@[k]@;
                                assert(plan_views(pruned.plans@)[k] == pk);
                                assert(pr.contains(pk));
                                lemma_prune_subset(ps, ctx@);
                                lemma_plans_ranges(lv, 0);
                                let m = choose|m: int| 0 <= m < ps.len() && ps[m] == pk;
                                assert(ok_of(resolve_spec(lv))[m] == pk);
                                lemma_vis_count_le(store);
                                assert(0 <= pk.begin <= pk.end < lv.len());
                                // the state still holds active deletions, so it is not
                                // terminal; neither was the input, by the invariant
                                assert(!terminal_spec(lv, ctx@)) by {
                                    assert(prune_spec(ok_of(resolve_spec(lv)), ctx@) == pr);
                                    assert(pr[k as int] == pk);
                                }
                            }
                            f.flagging(be.0, be.1);
                            proof {
                                let bound = if be.1 as int >= store.len() {
                                    store.len() as int
                                } else {
                                    be.1 + 1
                                };
                                lemma_flag_range_shape(store, be.0 as int, bound);
                                lemma_flag_range_decreases(store, be.0 as int, bound);
                                assert(pruned_from(orig, f@)) by {
                                    assert forall|t: int| 0 <= t < orig.len() implies (
                                    #[trigger] f@[t]).1 == orig[t].1 && (orig[t].0 is Delete
                                        ==> f@[t].0 is Delete) by {
                                        assert(pruned_from(store, f@));
                                        assert(store[t].1 == orig[t].1);
                                    }
                                }
                                // this mutation is exactly one loop step
                                assert(step_spec(store, f@, ctx@)) by {
                                    assert(pr[k].command is Delete);
                                    assert(forall|t: int|
                                        0 <= t < k ==> (#[trigger] pr[t]).command is Error);
                                    assert(f@ == flag_range(
                                        store,
                                        pr[k].begin,
                                        if pr[k].end >= store.len() {
                                            store.len() as int
                                        } else {
                                            pr[k].end + 1
                                        },
                                    ));
                                }
                                let trace0 = trace;
                                trace = trace0.push(f@);
                                assert(trace.last() == f@);
                                assert(trace[0] == orig);
                                assert(steps_spec(trace, ctx@)) by {
                                    assert forall|i: int| 0 <= i < trace.len() - 1 implies step_spec(
                                        #[trigger] trace[i],
                                        trace[i + 1],
                                        ctx@,
                                    ) by {
                                        if i < trace0.len() - 1 {
                                            assert(trace[i] == trace0[i]);
                                            assert(trace[i + 1] == trace0[i + 1]);
                                        } else {
                                            assert(trace[i] == trace0.last());
                                            assert(trace0.last() == store);
                                            assert(trace[i + 1] == f@);
                                        }
                                    }
                                }
                            }
                        },
                    }
                },
            }
        }
        match failure {
            Some(e) => {
                return Err(e);
            },
            None => {},
        }
        let ghost m = f@;
        let status: Status;
        match self.mode {
            Mode::Plan => {
                status = Status::Success;
            },
            Mode::Check => {
                let ds = f.diffs();
                let failed = ds.len() > 0 || errors.len() > 0;
                proof {
                    assert(diff_views(ds@).len() == diffs_of_hunks(hunks_spec(m)).len());
                    assert(plan_views(errors@).len() == errors@.len());
                }
                status = if failed {
                    Status::Failure
                } else {
                    Status::Success
                };
            },
            Mode::Apply => {
                f.apply();
                status = Status::Success;
            },
        }
        proof {
            lemma_keep_visible(m);
            assert(pruned_from(orig, m));
            assert(trace.len() > 0 && trace[0] == orig && trace.last() == m && steps_spec(
                trace,
                ctx@,
            ));
        }
        Ok((status, errors))
    }
}

/// The range of the first plan in document order whose command deletes;
/// `None` exactly when every plan only reports.
fn first_delete(plans: &Vec<Plan>) -> (r: Option<(usize, usize)>)
    ensures
        match r {
            Some(be) => exists|k: int|
                0 <= k < plans@.len() && (#[trigger] plans@[k])@.command is Delete
                    && plans@[k]@.begin == be.0 as int && plans@[k]@.end == be.1 as int && (
                forall|t: int| 0 <= t < k ==> (#[trigger] plans@[t])@.command is Error),
            None => forall|k: int|
                0 <= k < plans@.len() ==> (#[trigger] plans@[k])@.command is Error,
        },
{
    let mut k: usize = 0;
    while k < plans.len()
        invariant
            k <= plans.len(),
            forall|t: int| 0 <= t < k ==> (#[trigger] plans@[t])@.command is Error,
        decreases plans@.len() - k,
    {
        match plans[k].command {
            model::Command::Delete => {
                return Some((plans[k].range.begin, plans[k].range.end));
            },
            model::Command::Error => {},
        }
        k = k + 1;
    }
    None
}

fn clone_plans(v: &Vec<Plan>) -> (r: Vec<Plan>)
    ensures
        plan_views(r@) == plan_views(v@),
{
    let mut r: Vec<Plan> = Vec::new();
    let mut i: usize = 0;
    while i < v.len()
        invariant
            i <= v.len(),
            r@.len() == i,
            forall|t: int| 0 <= t < i ==> (#[trigger] r@[t])@ == v@[t]@,
        decreases v@.len() - i,
    {
        r.push(v[i].clone());
        i = i + 1;
    }
    proof {
        assert(plan_views(r@) =~= plan_views(v@));
    }
    r
}

} // verus!

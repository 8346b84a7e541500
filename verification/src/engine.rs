//! The resolution engine: the line store, the plan resolver and pruner,
//! the per-file resolution loop, and diff rendering.

pub mod action;
pub mod context;
pub mod diff;
pub mod file;
pub mod lines;
pub mod mode;
pub mod plan;

use vstd::prelude::*;

use crate::config::manifest::Manifest;
use crate::engine::action::{run_status, Action};
use crate::engine::context::Context;
use crate::engine::file::File;
use crate::engine::lines::{lemma_keep_visible, visible_texts};
use crate::engine::mode::Mode;
use crate::engine::plan::{resolve_spec, terminal_spec};
use crate::grammar::ContextRep;
use crate::text::seq_views;
use crate::Error;

verus! {

/// The overall outcome of a run over one or more files.
#[derive(Debug, Clone, Copy, PartialEq, Eq, Structural)]
pub enum Status {
    Success,
    Failure,
}

/// A whole run: the mode, the runtime context, and the source paths the
/// caller discovered. The caller loads each source into a `File` and hands
/// the files in, in the same order.
pub struct Engine {
    mode: Mode,
    ctx: Context,
    sources: Vec<String>,
}

impl Engine {
    pub closed spec fn mode_spec(&self) -> Mode {
        self.mode
    }

    pub closed spec fn ctx_spec(&self) -> ContextRep {
        self.ctx@
    }

    pub closed spec fn sources_spec(&self) -> Seq<Seq<char>> {
        seq_views(self.sources@)
    }

    /// Builds a run from the mode, the loaded manifest, and the source
    /// paths expanded from it; the context takes the manifest's active
    /// rules and today's date.
    pub fn init(mode: Mode, manifest: Manifest, sources: Vec<String>) -> (r: Result<Engine, Error>)
        ensures
            r is Ok,
            r matches Ok(e) ==> e.mode_spec() == mode && e.ctx_spec().names == seq_views(
                manifest.project.rules@,
            ) && e.sources_spec() == seq_views(sources@),
    {
        let ctx = Context::load(manifest.project.rules);
        Ok(Engine { mode, ctx, sources })
    }

    /// The context of this run, for callers that drive files one by one.
    pub fn context(&self) -> (r: &Context)
        ensures
            r@ == self.ctx_spec(),
    {
        &self.ctx
    }

    /// Resolves every file to a terminal state and aggregates the status:
    /// the run fails exactly when the mode is `Check` and some file has
    /// deletions or active error directives left. The first malformed file
    /// aborts the run: its lines no longer resolve, every file before it
    /// has already reached a terminal state, and every file after it is
    /// untouched.
    pub fn run(&self, files: &mut Vec<File>) -> (r: Result<Status, Error>)
        ensures
            r matches Ok(st) ==> {
                &&& final(files)@.len() == old(files)@.len()
                &&& forall|i: int|
                    0 <= i < final(files)@.len() ==> terminal_spec(
                        visible_texts(#[trigger] final(files)@[i]@),
                        self.ctx_spec(),
                    )
                &&& (st is Failure <==> (self.mode_spec() is Check && exists|i: int|
                    0 <= i < final(files)@.len() && run_status(
                        Mode::Check,
                        #[trigger] final(files)@[i]@,
                        self.ctx_spec(),
                    ) is Failure))
            },
            r is Err ==> final(files)@.len() == old(files)@.len() && exists|i: int|
                {
                    &&& 0 <= i < final(files)@.len()
                    &&& resolve_spec(visible_texts(#[trigger] final(files)@[i]@)) is Err
                    &&& crate::engine::lines::pruned_from(old(files)@[i]@, final(files)@[i]@)
                    &&& forall|t: int|
                        0 <= t < i ==> terminal_spec(
                            visible_texts(#[trigger] final(files)@[t]@),
                            self.ctx_spec(),
                        )
                    &&& forall|t: int|
                        i < t < final(files)@.len() ==> final(files)@[t] == old(files)@[t]
                },
    {
        let mut status = Status::Success;
        let mut k: usize = 0;
        let total = files.len();
        while k < total
            invariant
                k <= total,
                total == files@.len(),
                total == old(files)@.len(),
                forall|t: int|
                    0 <= t < k ==> terminal_spec(
                        visible_texts(#[trigger] files@[t]@),
                        self.ctx_spec(),
                    ),
                status is Failure <==> (self.mode_spec() is Check && exists|t: int|
                    0 <= t < k && run_status(
                        Mode::Check,
                        #[trigger] files@[t]@,
                        self.ctx_spec(),
                    ) is Failure),
                forall|t: int| k <= t < total ==> files@[t] == old(files)@[t],
            decreases total - k,
        {
            let act = Action::new(self.mode);
            let ghost files_pre = files@;
            let ghost pre = files@[k as int]@;
            let res = act.run(&self.ctx, &mut files[k]);
            match res {
                Err(e) => {
                    proof {
                        assert(files@.len() == files_pre.len());
                        assert(files@.len() == old(files)@.len());
                        assert forall|t: int| t != k && 0 <= t < files@.len() implies files@[t]
                            == files_pre[t] by {}
                        assert(pre == old(files)@[k as int]@);
                        assert(exists|i: int|
                            {
                                &&& 0 <= i < files@.len()
                                &&& resolve_spec(
                                    visible_texts(#[trigger] files@[i]@),
                                ) is Err
                                &&& crate::engine::lines::pruned_from(old(files)@[i]@, files@[i]@)
                                &&& forall|t: int|
                                    0 <= t < i ==> terminal_spec(
                                        visible_texts(#[trigger] files@[t]@),
                                        self.ctx_spec(),
                                    )
                                &&& forall|t: int|
                                    i < t < files@.len() ==> files@[t] == old(files)@[t]
                            }) by {
                            assert(resolve_spec(visible_texts(files@[k as int]@)) is Err);
                            assert(crate::engine::lines::pruned_from(
                                old(files)@[k as int]@,
                                files@[k as int]@,
                            ));
                            assert forall|t: int| 0 <= t < k implies terminal_spec(
                                visible_texts(#[trigger] files@[t]@),
                                self.ctx_spec(),
                            ) by {
                                assert(files@[t] == files_pre[t]);
                            }
                            assert forall|t: int|
                                k < t < files@.len() implies files@[t] == old(files)@[t] by {
                                assert(files@[t] == files_pre[t]);
                            }
                        }
                    }
                    return Err(e);
                },
                Ok(sr) => {
                    proof {
                        let m = choose|m: Seq<(crate::engine::lines::Flag, Seq<char>)>|
                            {
                                &&& #[trigger] crate::engine::lines::pruned_from(pre, m)
                                &&& terminal_spec(visible_texts(m), self.ctx_spec())
                                &&& (if self.mode_spec() is Apply {
                                    files@[k as int]@ == crate::engine::lines::keep_entries(m)
                                } else {
                                    files@[k as int]@ == m
                                })
                                &&& crate::engine::plan::plan_views(sr.1@)
                                    == crate::engine::action::error_plans(
                                    visible_texts(m),
                                    self.ctx_spec(),
                                )
                                &&& sr.0 == run_status(self.mode_spec(), m, self.ctx_spec())
                            };
                        lemma_keep_visible(m);
                        assert(terminal_spec(
                            visible_texts(files@[k as int]@),
                            self.ctx_spec(),
                        ));
                        if self.mode_spec() is Check {
                            assert(files@[k as int]@ == m);
                            assert(sr.0 == run_status(
                                Mode::Check,
                                files@[k as int]@,
                                self.ctx_spec(),
                            ));
                        } else {
                            assert(sr.0 == Status::Success);
                        }
                        assert forall|t: int| 0 <= t < k implies files@[t] == files_pre[t] by {}
                    }
                    match sr.0 {
                        Status::Failure => {
                            status = Status::Failure;
                        },
                        Status::Success => {},
                    }
                },
            }
            k = k + 1;
        }
        Ok(status)
    }
}

} // verus!

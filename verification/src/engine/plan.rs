//! The plan resolver: one pass over the visible lines turns directives
//! into concrete inclusive ranges, detecting nested annotations; pruning
//! then keeps the plans whose trigger is active.

use vstd::prelude::*;
use vstd::string::StringExecFns;

use crate::config::annotation::Annotation;
use crate::engine::context::{triggered_spec, Context};
use crate::grammar::{is_directive_spec, is_end_directive, key_rule, parse_directive, CommandRep,
    ContextRep, DirectiveRep, TargetRep, TriggerRep};
use crate::model;
use crate::text::{is_blank, is_blank_spec, seq_views};
use crate::Error;

verus! {

/// An inclusive range of indices into the currently visible line sequence.
#[derive(Debug, Clone, PartialEq)]
pub struct Range {
    pub begin: usize,
    pub end: usize,
}

/// A ghost description of a resolved plan.
pub ghost struct PlanRep {
    pub command: CommandRep,
    pub trigger: TriggerRep,
    pub begin: int,
    pub end: int,
}

/// A directive resolved to a concrete range of visible lines.
#[derive(Debug, PartialEq)]
pub struct Plan {
    pub command: model::Command,
    pub trigger: model::Trigger,
    pub range: Range,
}

impl View for Plan {
    type V = PlanRep;

    open spec fn view(&self) -> PlanRep {
        PlanRep {
            command: self.command@,
            trigger: self.trigger@,
            begin: self.range.begin as int,
            end: self.range.end as int,
        }
    }
}

impl Clone for Plan {
    fn clone(&self) -> (r: Self)
        ensures
            r@ == self@,
    {
        Plan {
            command: self.command,
            trigger: self.trigger.clone(),
            range: Range { begin: self.range.begin, end: self.range.end },
        }
    }
}

impl Plan {
    pub fn command(&self) -> (r: &model::Command)
        ensures
            r@ == self@.command,
    {
        &self.command
    }

    pub fn begin(&self) -> (r: usize)
        ensures
            r == self@.begin,
    {
        self.range.begin
    }

    pub fn end(&self) -> (r: usize)
        ensures
            r == self@.end,
    {
        self.range.end
    }
}

pub open spec fn plan_views(v: Seq<Plan>) -> Seq<PlanRep> {
    v.map_values(|p: Plan| p@)
}

// ---------------------------------------------------------------------------
// searches over the visible lines
// ---------------------------------------------------------------------------

/// The first directive line at or after `i`.
pub open spec fn find_directive_from(lines: Seq<Seq<char>>, i: int) -> Option<int>
    decreases lines.len() - i,
{
    if i < 0 || i >= lines.len() {
        None
    } else if is_directive_spec(lines[i]) {
        Some(i)
    } else {
        find_directive_from(lines, i + 1)
    }
}

/// The first blank line at or after `i`.
pub open spec fn find_blank_from(lines: Seq<Seq<char>>, i: int) -> Option<int>
    decreases lines.len() - i,
{
    if i < 0 || i >= lines.len() {
        None
    } else if is_blank_spec(lines[i]) {
        Some(i)
    } else {
        find_blank_from(lines, i + 1)
    }
}

/// The last blank line strictly before `i`.
pub open spec fn find_blank_before(lines: Seq<Seq<char>>, i: int) -> Option<int>
    decreases i,
{
    if i <= 0 || i > lines.len() {
        None
    } else if is_blank_spec(lines[i - 1]) {
        Some(i - 1)
    } else {
        find_blank_before(lines, i - 1)
    }
}

/// Where a NEIGHBOR block starts: just after the nearest blank line above,
/// or at the top of the document.
pub open spec fn neighbor_begin(lines: Seq<Seq<char>>, i: int) -> int {
    match find_blank_before(lines, i) {
        Some(j) => j + 1,
        None => 0,
    }
}

/// Where a NEIGHBOR block ends: just before the nearest blank line below,
/// or at the bottom of the document.
pub open spec fn neighbor_end(lines: Seq<Seq<char>>, i: int) -> int {
    match find_blank_from(lines, i) {
        Some(j) => j - 1,
        None => lines.len() - 1,
    }
}

// ---------------------------------------------------------------------------
// the resolver itself
// ---------------------------------------------------------------------------

/// The plans of the document from line `i` on, in document order.
///
/// A `BEGIN` looks for the next directive strictly after it, falling back
/// to the last line; that line must parse as a bare `END`, and the plan
/// covers both markers inclusively. A bare `END` yields no plan of its
/// own. A `NEIGHBOR` covers its blank-line-delimited block. Any directive
/// line that fails to parse, and a `BEGIN` answered by anything other than
/// an `END`, fails the whole resolution.
pub open spec fn plans_from(lines: Seq<Seq<char>>, i: int) -> Result<Seq<PlanRep>, ()>
    decreases lines.len() - i,
{
    if i < 0 || i >= lines.len() {
        Ok(Seq::empty())
    } else if !is_directive_spec(lines[i]) {
        plans_from(lines, i + 1)
    } else {
        match parse_directive(lines[i], key_rule()) {
            Err(_) => Err(()),
            Ok(d) => match d.target {
                TargetRep::End => plans_from(lines, i + 1),
                TargetRep::Begin(t) => {
                    let j = match find_directive_from(lines, i + 1) {
                        Some(j) => j,
                        None => lines.len() - 1,
                    };
                    match parse_directive(lines[j], key_rule()) {
                        Err(_) => Err(()),
                        Ok(d2) => match d2.target {
                            TargetRep::End => match plans_from(lines, i + 1) {
                                Err(_) => Err(()),
                                Ok(rest) => Ok(
                                    seq![
                                        PlanRep {
                                            command: d.command,
                                            trigger: t,
                                            begin: i,
                                            end: j,
                                        },
                                    ] + rest,
                                ),
                            },
                            _ => Err(()),
                        },
                    }
                },
                TargetRep::Neighbor(t) => match plans_from(lines, i + 1) {
                    Err(_) => Err(()),
                    Ok(rest) => Ok(
                        seq![
                            PlanRep {
                                command: d.command,
                                trigger: t,
                                begin: neighbor_begin(lines, i),
                                end: neighbor_end(lines, i),
                            },
                        ] + rest,
                    ),
                },
            },
        }
    }
}

/// What one resolution pass over the visible lines yields.
pub open spec fn resolve_spec(lines: Seq<Seq<char>>) -> Result<Seq<PlanRep>, ()> {
    plans_from(lines, 0)
}

/// The line a failing resolution pass points at, scanning in document
/// order under the given parameter key: the first directive line that does
/// not parse; for a `BEGIN` answered by a line that does not parse, that
/// answering line; for a `BEGIN` answered by anything other than a bare
/// `END`, the `BEGIN` line itself.
pub open spec fn first_offense(lines: Seq<Seq<char>>, i: int, key: Seq<char>) -> Option<int>
    decreases lines.len() - i,
{
    if i < 0 || i >= lines.len() {
        None
    } else if !is_directive_spec(lines[i]) {
        first_offense(lines, i + 1, key)
    } else {
        match parse_directive(lines[i], key) {
            Err(_) => Some(i),
            Ok(d) => match d.target {
                TargetRep::Begin(_) => {
                    let j = match find_directive_from(lines, i + 1) {
                        Some(j) => j,
                        None => lines.len() - 1,
                    };
                    match parse_directive(lines[j], key) {
                        Err(_) => Some(j),
                        Ok(d2) => if d2.target is End {
                            first_offense(lines, i + 1, key)
                        } else {
                            Some(i)
                        },
                    }
                },
                _ => first_offense(lines, i + 1, key),
            },
        }
    }
}

/// The order-preserving filter keeping the plans whose trigger is active.
pub open spec fn prune_spec(ps: Seq<PlanRep>, ctx: ContextRep) -> Seq<PlanRep>
    decreases ps.len(),
{
    if ps.len() == 0 {
        ps
    } else if triggered_spec(ctx, ps[0].trigger) {
        seq![ps[0]] + prune_spec(ps.drop_first(), ctx)
    } else {
        prune_spec(ps.drop_first(), ctx)
    }
}

pub open spec fn all_error(ps: Seq<PlanRep>) -> bool {
    forall|k: int| 0 <= k < ps.len() ==> (#[trigger] ps[k]).command is Error
}

/// A document on which resolution has nothing left to do under a context:
/// it resolves cleanly, and the active plans are either gone entirely or
/// all report errors (which mutate nothing).
pub open spec fn terminal_spec(lines: Seq<Seq<char>>, ctx: ContextRep) -> bool {
    match resolve_spec(lines) {
        Ok(ps) => prune_spec(ps, ctx).len() == 0 || all_error(prune_spec(ps, ctx)),
        Err(_) => false,
    }
}

// ---------------------------------------------------------------------------
// executable resolver
// ---------------------------------------------------------------------------

pub(crate) fn next_directive_index(lines: &Vec<String>, from: usize) -> (r: Option<usize>)
    ensures
        match r {
            Some(k) => find_directive_from(seq_views(lines@), from as int) == Some(k as int),
            None => find_directive_from(seq_views(lines@), from as int) is None,
        },
{
    let ghost lv = seq_views(lines@);
    let mut i = from;
    while i < lines.len()
        invariant
            from <= i,
            lv == seq_views(lines@),
            find_directive_from(lv, from as int) == find_directive_from(lv, i as int),
        decreases lines@.len() - i,
    {
        if Annotation::is_match(lines[i].as_str()) {
            return Some(i);
        }
        i = i + 1;
    }
    None
}

pub(crate) fn next_blank_index(lines: &Vec<String>, from: usize) -> (r: Option<usize>)
    ensures
        match r {
            Some(k) => find_blank_from(seq_views(lines@), from as int) == Some(k as int),
            None => find_blank_from(seq_views(lines@), from as int) is None,
        },
{
    let ghost lv = seq_views(lines@);
    let mut i = from;
    while i < lines.len()
        invariant
            from <= i,
            lv == seq_views(lines@),
            find_blank_from(lv, from as int) == find_blank_from(lv, i as int),
        decreases lines@.len() - i,
    {
        if is_blank(lines[i].as_str()) {
            return Some(i);
        }
        i = i + 1;
    }
    None
}

pub(crate) fn prev_blank_index(lines: &Vec<String>, before: usize) -> (r: Option<usize>)
    requires
        before <= lines@.len(),
    ensures
        match r {
            Some(k) => find_blank_before(seq_views(lines@), before as int) == Some(k as int),
            None => find_blank_before(seq_views(lines@), before as int) is None,
        },
{
    let ghost lv = seq_views(lines@);
    let mut i = before;
    while i > 0
        invariant
            i <= before,
            before <= lines@.len(),
            lv == seq_views(lines@),
            find_blank_before(lv, before as int) == find_blank_before(lv, i as int),
        decreases i,
    {
        i = i - 1;
        if is_blank(lines[i].as_str()) {
            return Some(i);
        }
    }
    None
}

/// How a directive's plans prepend to whatever the rest of the document
/// resolves to.
pub open spec fn chain(prefix: Seq<PlanRep>, rest: Result<Seq<PlanRep>, ()>) -> Result<
    Seq<PlanRep>,
    (),
> {
    match rest {
        Ok(s) => Ok(prefix + s),
        Err(e) => Err(e),
    }
}

/// The plans of one resolution pass, in document order.
#[derive(Debug, PartialEq)]
pub struct Plans {
    pub plans: Vec<Plan>,
}

impl View for Plans {
    type V = Seq<PlanRep>;

    open spec fn view(&self) -> Seq<PlanRep> {
        plan_views(self.plans@)
    }
}

impl Plans {
    /// One pass over the visible lines, exactly as `resolve_spec` describes
    /// it: `Ok(None)` when the document holds no plan at all, `Ok(Some(_))`
    /// with at least one plan otherwise, and `Err` on a malformed directive
    /// or a nested annotation, carrying the first offending line's index.
    pub fn parse(lines: &Vec<String>) -> (r: Result<Option<Plans>, Error>)
        ensures
            match r {
                Ok(Some(ps)) => resolve_spec(seq_views(lines@)) == Ok::<Seq<PlanRep>, ()>(ps@)
                    && ps@.len() > 0,
                Ok(None) => resolve_spec(seq_views(lines@)) == Ok::<Seq<PlanRep>, ()>(Seq::empty()),
                Err(e) => resolve_spec(seq_views(lines@)) is Err && e@.line == first_offense(
                    seq_views(lines@),
                    0,
                    key_rule(),
                ) && e@.line is Some,
            },
    {
        let ghost lv = seq_views(lines@);
        let mut plans: Vec<Plan> = Vec::new();
        let mut i: usize = 0;
        proof {
            assert(plan_views(plans@) =~= Seq::<PlanRep>::empty());
            match plans_from(lv, 0) {
                Ok(s) => {
                    assert(plan_views(plans@) + s =~= s);
                },
                Err(_) => {},
            }
        }
        while i < lines.len()
            invariant
                i <= lines.len(),
                lv == seq_views(lines@),
                resolve_spec(lv) == chain(plan_views(plans@), plans_from(lv, i as int)),
                first_offense(lv, 0, key_rule()) == first_offense(lv, i as int, key_rule()),
            decreases lines@.len() - i,
        {
            let ghost acc = plan_views(plans@);
            let line = &lines[i];
            if !Annotation::is_match(line.as_str()) {
                i = i + 1;
                continue ;
            }
            let a = match Annotation::parse(line.as_str()) {
                Ok(a) => a,
                Err(e) => {
                    return Err(e.with_line(i));
                },
            };
            match a.target {
                model::Target::End => {},
                model::Target::Begin(trigger) => {
                    let j = match next_directive_index(lines, i + 1) {
                        Some(j) => j,
                        None => lines.len() - 1,
                    };
                    proof {
                        lemma_find_directive_bounds(lv, i as int + 1);
                    }
                    let a2 = match Annotation::parse(lines[j].as_str()) {
                        Ok(a2) => a2,
                        Err(e) => {
                            return Err(e.with_line(j));
                        },
                    };
                    match a2.target {
                        model::Target::End => {
                            let p = Plan {
                                command: a.command,
                                trigger,
                                range: Range { begin: i, end: j },
                            };
                            let ghost pv = p@;
                            plans.push(p);
                            proof {
                                assert(plan_views(plans@) =~= acc.push(pv));
                                lemma_chain_push(acc, pv, plans_from(lv, i as int + 1));
                            }
                        },
                        _ => {
                            let mut msg = String::from_str("Nested torin annotation found: ");
                            msg.append(line.as_str());
                            return Err(Error::new(msg.as_str()).with_line(i));
                        },
                    }
                },
                model::Target::Neighbor(trigger) => {
                    proof {
                        lemma_find_blank_bounds(lv, i as int);
                        lemma_find_blank_before_bounds(lv, i as int);
                        lemma_directive_not_blank(lv[i as int]);
                    }
                    let begin = match prev_blank_index(lines, i) {
                        Some(j) => j + 1,
                        None => 0,
                    };
                    let end = match next_blank_index(lines, i) {
                        Some(j) => j - 1,
                        None => lines.len() - 1,
                    };
                    let p = Plan { command: a.command, trigger, range: Range { begin, end } };
                    let ghost pv = p@;
                    plans.push(p);
                    proof {
                        assert(plan_views(plans@) =~= acc.push(pv));
                        lemma_chain_push(acc, pv, plans_from(lv, i as int + 1));
                    }
                },
            }
            i = i + 1;
        }
        proof {
            assert(plans_from(lv, lines@.len() as int) == Ok::<Seq<PlanRep>, ()>(Seq::empty()));
            assert(plan_views(plans@) + Seq::<PlanRep>::empty() =~= plan_views(plans@));
        }
        if plans.len() == 0 {
            proof {
                assert(plan_views(plans@) =~= Seq::<PlanRep>::empty());
            }
            return Ok(None);
        }
        Ok(Some(Plans { plans }))
    }

    /// Keeps, in order, exactly the plans whose trigger is active.
    pub fn prune(self, ctx: &Context) -> (r: Plans)
        ensures
            r@ == prune_spec(self@, ctx@),
    {
        let ghost full = plan_views(self.plans@);
        let mut out: Vec<Plan> = Vec::new();
        let mut i: usize = 0;
        proof {
            assert(full.skip(0) =~= full);
            assert(plan_views(out@) + prune_spec(full, ctx@) =~= prune_spec(full, ctx@));
        }
        while i < self.plans.len()
            invariant
                i <= self.plans.len(),
                full == plan_views(self.plans@),
                prune_spec(full, ctx@) == plan_views(out@) + prune_spec(
                    full.skip(i as int),
                    ctx@,
                ),
            decreases self.plans@.len() - i,
        {
            let ghost rest = full.skip(i as int);
            let ghost acc = plan_views(out@);
            proof {
                assert(rest[0] == full[i as int]);
                assert(rest.drop_first() =~= full.skip(i as int + 1));
            }
            let p = &self.plans[i];
            if ctx.is_triggered(&p.trigger) {
                out.push(p.clone());
                proof {
                    assert(plan_views(out@) =~= acc.push(full[i as int]));
                    assert(acc + (seq![rest[0]] + prune_spec(rest.drop_first(), ctx@))
                        =~= plan_views(out@) + prune_spec(rest.drop_first(), ctx@));
                }
            }
            i = i + 1;
        }
        proof {
            assert(full.skip(full.len() as int) =~= Seq::<PlanRep>::empty());
            assert(plan_views(out@) + Seq::<PlanRep>::empty() =~= plan_views(out@));
        }
        Plans { plans: out }
    }

    /// Whether every plan satisfies the predicate.
    pub fn all<F: Fn(&Plan) -> bool>(&self, predicates: F) -> (r: bool)
        requires
            forall|p: &Plan| #[trigger] call_requires(predicates, (p,)),
        ensures
            r ==> forall|k: int|
                0 <= k < self.plans@.len() ==> #[trigger] call_ensures(
                    predicates,
                    (&self.plans@[k],),
                    true,
                ),
            !r ==> exists|k: int|
                0 <= k < self.plans@.len() && #[trigger] call_ensures(
                    predicates,
                    (&self.plans@[k],),
                    false,
                ),
    {
        let mut i: usize = 0;
        while i < self.plans.len()
            invariant
                i <= self.plans.len(),
                forall|p: &Plan| #[trigger] call_requires(predicates, (p,)),
                forall|k: int|
                    0 <= k < i ==> #[trigger] call_ensures(predicates, (&self.plans@[k],), true),
            decreases self.plans@.len() - i,
        {
            if !predicates(&self.plans[i]) {
                return false;
            }
            i = i + 1;
        }
        true
    }

    /// The plans themselves, in document order.
    pub fn iter(&self) -> (r: &Vec<Plan>)
        ensures
            r@ == self.plans@,
            plan_views(r@) == self@,
    {
        &self.plans
    }

    /// The first plan in document order; an error when there is none.
    pub fn first(&self) -> (r: Result<&Plan, Error>)
        ensures
            match r {
                Ok(p) => self@.len() > 0 && p@ == self@[0],
                Err(_) => self@.len() == 0,
            },
    {
        if self.plans.len() == 0 {
            Err(Error::new("No operations found"))
        } else {
            Ok(&self.plans[0])
        }
    }
}

proof fn lemma_chain_push(acc: Seq<PlanRep>, p: PlanRep, rest: Result<Seq<PlanRep>, ()>)
    ensures
        chain(acc.push(p), rest) == chain(acc, chain(seq![p], rest)),
{
    match rest {
        Ok(s) => {
            assert(acc.push(p) + s =~= acc + (seq![p] + s));
        },
        Err(_) => {},
    }
}

// ---------------------------------------------------------------------------
// facts about the resolver
// ---------------------------------------------------------------------------

/// A directive line is never blank: its marker begins with a visible
/// character.
pub proof fn lemma_directive_not_blank(line: Seq<char>)
    requires
        is_directive_spec(line),
    ensures
        !is_blank_spec(line),
{
    reveal_strlit("// torin ");
    let t = crate::text::trim_start_spec(line);
    assert(t.len() >= 9);
    assert(t[0] == crate::grammar::marker()[0]);
    assert(t[0] == '/');
    if is_blank_spec(line) {
        lemma_trim_end_empty_all_space(t);
        assert(crate::text::is_space_char(t[0]));
    }
}

proof fn lemma_trim_end_empty_all_space(s: Seq<char>)
    requires
        crate::text::trim_end_spec(s).len() == 0,
    ensures
        forall|k: int| 0 <= k < s.len() ==> crate::text::is_space_char(#[trigger] s[k]),
    decreases s.len(),
{
    if s.len() > 0 {
        if crate::text::is_space_char(s.last()) {
            lemma_trim_end_empty_all_space(s.drop_last());
            assert forall|k: int| 0 <= k < s.len() implies crate::text::is_space_char(
                #[trigger] s[k],
            ) by {
                if k < s.len() - 1 {
                    assert(s.drop_last()[k] == s[k]);
                }
            }
        }
    }
}

/// Where the next directive search lands: at or after where it started,
/// on a directive line, within the document.
pub proof fn lemma_find_directive_bounds(lines: Seq<Seq<char>>, i: int)
    requires
        0 <= i,
    ensures
        find_directive_from(lines, i) matches Some(j) ==> i <= j < lines.len()
            && is_directive_spec(lines[j]),
    decreases lines.len() - i,
{
    if i < lines.len() && !is_directive_spec(lines[i]) {
        lemma_find_directive_bounds(lines, i + 1);
    }
}

/// Where the next blank line search lands: at or after where it started,
/// on a blank line, within the document.
pub proof fn lemma_find_blank_bounds(lines: Seq<Seq<char>>, i: int)
    requires
        0 <= i,
    ensures
        find_blank_from(lines, i) matches Some(j) ==> i <= j < lines.len() && is_blank_spec(
            lines[j],
        ),
    decreases lines.len() - i,
{
    if i < lines.len() && !is_blank_spec(lines[i]) {
        lemma_find_blank_bounds(lines, i + 1);
    }
}

/// Where the backward blank line search lands: strictly before where it
/// started, on a blank line.
pub proof fn lemma_find_blank_before_bounds(lines: Seq<Seq<char>>, i: int)
    ensures
        find_blank_before(lines, i) matches Some(j) ==> 0 <= j < i && j < lines.len()
            && is_blank_spec(lines[j]),
    decreases i,
{
    if 0 < i <= lines.len() && !is_blank_spec(lines[i - 1]) {
        lemma_find_blank_before_bounds(lines, i - 1);
    }
}

/// The forward search finds exactly the first directive: if nothing before
/// `j` is a directive and `j` is one, the search from `a` lands on `j`.
pub proof fn lemma_find_directive_exact(lines: Seq<Seq<char>>, a: int, j: int)
    requires
        0 <= a <= j < lines.len(),
        forall|k: int| a <= k < j ==> !is_directive_spec(#[trigger] lines[k]),
        is_directive_spec(lines[j]),
    ensures
        find_directive_from(lines, a) == Some(j),
    decreases j - a,
{
    if a < j {
        lemma_find_directive_exact(lines, a + 1, j);
    }
}

/// With no blank line at or after `i`, the forward search finds nothing.
pub proof fn lemma_find_blank_from_none(lines: Seq<Seq<char>>, i: int)
    requires
        forall|k: int| i <= k < lines.len() ==> !is_blank_spec(#[trigger] lines[k]),
    ensures
        find_blank_from(lines, i) is None,
    decreases lines.len() - i,
{
    if 0 <= i < lines.len() {
        lemma_find_blank_from_none(lines, i + 1);
    }
}

/// With no blank line before `i`, the backward search finds nothing.
pub proof fn lemma_find_blank_before_none(lines: Seq<Seq<char>>, i: int)
    requires
        forall|k: int| 0 <= k < i ==> !is_blank_spec(#[trigger] lines[k]),
        i <= lines.len(),
    ensures
        find_blank_before(lines, i) is None,
    decreases i,
{
    if i > 0 {
        lemma_find_blank_before_none(lines, i - 1);
    }
}

/// A line that parses as a directive carries the marker.
pub proof fn lemma_parse_ok_is_directive(line: Seq<char>, key: Seq<char>)
    requires
        parse_directive(line, key) is Ok,
    ensures
        is_directive_spec(line),
{
}

pub open spec fn ok_of(r: Result<Seq<PlanRep>, ()>) -> Seq<PlanRep> {
    match r {
        Ok(s) => s,
        Err(_) => Seq::empty(),
    }
}

proof fn lemma_add_contains(a: Seq<PlanRep>, b: Seq<PlanRep>, x: PlanRep)
    requires
        b.contains(x),
    ensures
        (a + b).contains(x),
{
    let k = choose|k: int| 0 <= k < b.len() && b[k] == x;
    assert((a + b)[a.len() + k] == x);
}

/// Dropping the front of the document keeps the resolution clean and only
/// removes plans: each later plan is among the earlier ones.
proof fn lemma_plans_suffix(lines: Seq<Seq<char>>, m: int)
    requires
        0 <= m < lines.len(),
        plans_from(lines, m) is Ok,
    ensures
        plans_from(lines, m + 1) is Ok,
        forall|x: PlanRep|
            ok_of(plans_from(lines, m + 1)).contains(x) ==> ok_of(plans_from(lines, m)).contains(
                x,
            ),
{
    if !is_directive_spec(lines[m]) {
    } else {
        match parse_directive(lines[m], key_rule()) {
            Err(_) => {},
            Ok(d) => match d.target {
                TargetRep::End => {},
                TargetRep::Begin(t) => {
                    assert forall|x: PlanRep|
                        ok_of(plans_from(lines, m + 1)).contains(x) implies ok_of(
                        plans_from(lines, m),
                    ).contains(x) by {
                        let j = match find_directive_from(lines, m + 1) {
                            Some(j) => j,
                            None => lines.len() - 1,
                        };
                        let p = PlanRep { command: d.command, trigger: t, begin: m, end: j };
                        lemma_add_contains(seq![p], ok_of(plans_from(lines, m + 1)), x);
                    }
                },
                TargetRep::Neighbor(t) => {
                    assert forall|x: PlanRep|
                        ok_of(plans_from(lines, m + 1)).contains(x) implies ok_of(
                        plans_from(lines, m),
                    ).contains(x) by {
                        let p = PlanRep {
                            command: d.command,
                            trigger: t,
                            begin: neighbor_begin(lines, m),
                            end: neighbor_end(lines, m),
                        };
                        lemma_add_contains(seq![p], ok_of(plans_from(lines, m + 1)), x);
                    }
                },
            },
        }
    }
}

/// If the whole document resolves, so does every suffix, and a suffix's
/// plans are among the whole document's.
proof fn lemma_plans_prefix(lines: Seq<Seq<char>>, m: int)
    requires
        0 <= m <= lines.len(),
        resolve_spec(lines) is Ok,
    ensures
        plans_from(lines, m) is Ok,
        forall|x: PlanRep|
            ok_of(plans_from(lines, m)).contains(x) ==> ok_of(resolve_spec(lines)).contains(x),
    decreases m,
{
    if m > 0 {
        lemma_plans_prefix(lines, m - 1);
        lemma_plans_suffix(lines, m - 1);
    }
}

/// A failure anywhere later in the scan fails the whole resolution.
proof fn lemma_err_propagates(lines: Seq<Seq<char>>, m: int)
    requires
        0 <= m < lines.len(),
        plans_from(lines, m + 1) is Err,
    ensures
        plans_from(lines, m) is Err,
{
}

proof fn lemma_err_to_start(lines: Seq<Seq<char>>, m: int)
    requires
        0 <= m <= lines.len(),
        plans_from(lines, m) is Err,
    ensures
        resolve_spec(lines) is Err,
    decreases m,
{
    if m > 0 {
        lemma_err_propagates(lines, m - 1);
        lemma_err_to_start(lines, m - 1);
    }
}

/// Every plan of a clean resolution has a well-formed range: within the
/// document, with its begin at or before its end.
pub proof fn lemma_plans_ranges(lines: Seq<Seq<char>>, i: int)
    requires
        0 <= i,
        plans_from(lines, i) is Ok,
    ensures
        forall|k: int|
            0 <= k < ok_of(plans_from(lines, i)).len() ==> {
                let p = #[trigger] ok_of(plans_from(lines, i))[k];
                0 <= p.begin <= p.end < lines.len()
            },
    decreases lines.len() - i,
{
    if i >= lines.len() {
    } else if !is_directive_spec(lines[i]) {
        lemma_plans_ranges(lines, i + 1);
    } else {
        match parse_directive(lines[i], key_rule()) {
            Err(_) => {},
            Ok(d) => match d.target {
                TargetRep::End => {
                    lemma_plans_ranges(lines, i + 1);
                },
                TargetRep::Begin(t) => {
                    lemma_plans_ranges(lines, i + 1);
                    lemma_find_directive_bounds(lines, i + 1);
                    let j = match find_directive_from(lines, i + 1) {
                        Some(j) => j,
                        None => lines.len() - 1,
                    };
                    let p = PlanRep { command: d.command, trigger: t, begin: i, end: j };
                    let whole = ok_of(plans_from(lines, i));
                    let rest = ok_of(plans_from(lines, i + 1));
                    assert forall|k: int| 0 <= k < whole.len() implies {
                        let q = #[trigger] whole[k];
                        0 <= q.begin <= q.end < lines.len()
                    } by {
                        if k == 0 {
                            assert(whole[0] == p);
                        } else {
                            assert(whole[k] == rest[k - 1]);
                        }
                    }
                },
                TargetRep::Neighbor(t) => {
                    lemma_plans_ranges(lines, i + 1);
                    lemma_find_blank_bounds(lines, i);
                    lemma_find_blank_before_bounds(lines, i);
                    lemma_directive_not_blank(lines[i]);
                    let p = PlanRep {
                        command: d.command,
                        trigger: t,
                        begin: neighbor_begin(lines, i),
                        end: neighbor_end(lines, i),
                    };
                    let whole = ok_of(plans_from(lines, i));
                    let rest = ok_of(plans_from(lines, i + 1));
                    assert(p.begin <= i);
                    assert(p.end >= i);
                    assert forall|k: int| 0 <= k < whole.len() implies {
                        let q = #[trigger] whole[k];
                        0 <= q.begin <= q.end < lines.len()
                    } by {
                        if k == 0 {
                            assert(whole[0] == p);
                        } else {
                            assert(whole[k] == rest[k - 1]);
                        }
                    }
                },
            },
        }
    }
}

proof fn lemma_contains_lift(ps: Seq<PlanRep>, x: PlanRep)
    requires
        ps.len() > 0,
        ps.drop_first().contains(x),
    ensures
        ps.contains(x),
{
    let m = choose|m: int| 0 <= m < ps.drop_first().len() && ps.drop_first()[m] == x;
    assert(ps.drop_first()[m] == ps[m + 1]);
    assert(ps.contains(x)) by {
        assert(ps[m + 1] == x);
    }
}

/// Pruning keeps only plans of the original pass, each with its trigger
/// active.
pub proof fn lemma_prune_subset(ps: Seq<PlanRep>, ctx: ContextRep)
    ensures
        forall|x: PlanRep| #[trigger]
            prune_spec(ps, ctx).contains(x) ==> ps.contains(x) && triggered_spec(ctx, x.trigger),
    decreases ps.len(),
{
    if ps.len() > 0 {
        lemma_prune_subset(ps.drop_first(), ctx);
        let pr = prune_spec(ps, ctx);
        let prd = prune_spec(ps.drop_first(), ctx);
        assert forall|x: PlanRep| #[trigger] pr.contains(x) implies ps.contains(x)
            && triggered_spec(ctx, x.trigger) by {
            let k = choose|k: int| 0 <= k < pr.len() && pr[k] == x;
            if triggered_spec(ctx, ps[0].trigger) {
                if k == 0 {
                    assert(pr[0] == ps[0]);
                    assert(ps.contains(x)) by {
                        assert(ps[0] == x);
                    }
                } else {
                    assert(pr[k] == prd[k - 1]);
                    assert(prd.contains(x)) by {
                        assert(prd[k - 1] == x);
                    }
                    lemma_contains_lift(ps, x);
                }
            } else {
                assert(prd[k] == x);
                assert(prd.contains(x)) by {
                    assert(prd[k] == x);
                }
                lemma_contains_lift(ps, x);
            }
        }
    }
}

// ---------------------------------------------------------------------------
// laws of the resolver
// ---------------------------------------------------------------------------

proof fn lemma_no_directives_from(lines: Seq<Seq<char>>, i: int)
    requires
        0 <= i,
        forall|k: int| 0 <= k < lines.len() ==> !is_directive_spec(#[trigger] lines[k]),
    ensures
        plans_from(lines, i) == Ok::<Seq<PlanRep>, ()>(Seq::empty()),
    decreases lines.len() - i,
{
    if i < lines.len() {
        lemma_no_directives_from(lines, i + 1);
    }
}

/// A document with no directive lines resolves to no plans at all, and is
/// already terminal under every context: resolution is a no-op on it.
pub proof fn lemma_no_directives(lines: Seq<Seq<char>>, ctx: ContextRep)
    requires
        forall|k: int| 0 <= k < lines.len() ==> !is_directive_spec(#[trigger] lines[k]),
    ensures
        resolve_spec(lines) == Ok::<Seq<PlanRep>, ()>(Seq::empty()),
        terminal_spec(lines, ctx),
{
    lemma_no_directives_from(lines, 0);
}

/// A well-formed `BEGIN`/`END` pair with no directive between the two
/// markers resolves to exactly the inclusive range of the two marker
/// lines, whatever the size of the gap: whenever the whole document
/// resolves cleanly, that plan is among its plans.
pub proof fn lemma_begin_end_pair(
    lines: Seq<Seq<char>>,
    i: int,
    j: int,
    c: CommandRep,
    t: TriggerRep,
)
    requires
        0 <= i < j < lines.len(),
        parse_directive(lines[i], key_rule()) == Ok::<DirectiveRep, ()>(
            DirectiveRep { command: c, target: TargetRep::Begin(t) },
        ),
        forall|k: int| i < k < j ==> !is_directive_spec(#[trigger] lines[k]),
        is_end_directive(lines[j], key_rule()),
    ensures
        resolve_spec(lines) matches Ok(ps) ==> ps.contains(
            PlanRep { command: c, trigger: t, begin: i, end: j },
        ),
{
    if resolve_spec(lines) is Ok {
        lemma_plans_prefix(lines, i);
        lemma_parse_ok_is_directive(lines[i], key_rule());
        lemma_parse_ok_is_directive(lines[j], key_rule());
        lemma_find_directive_exact(lines, i + 1, j);
        let p = PlanRep { command: c, trigger: t, begin: i, end: j };
        let whole = ok_of(plans_from(lines, i));
        assert(whole[0] == p);
        assert(whole.contains(p)) by {
            assert(whole[0] == p);
        }
        assert(ok_of(resolve_spec(lines)).contains(p));
    }
}

/// A `BEGIN` whose next directive is another `BEGIN` or a `NEIGHBOR` is a
/// nested annotation: the whole resolution fails with a structural error.
pub proof fn lemma_nested_annotation_fails(lines: Seq<Seq<char>>, i: int, j: int)
    requires
        0 <= i < j < lines.len(),
        parse_directive(lines[i], key_rule()) matches Ok(d) && d.target is Begin,
        forall|k: int| i < k < j ==> !is_directive_spec(#[trigger] lines[k]),
        parse_directive(lines[j], key_rule()) matches Ok(d2) && (d2.target is Begin || d2.target
            is Neighbor),
    ensures
        resolve_spec(lines) is Err,
{
    lemma_parse_ok_is_directive(lines[i], key_rule());
    lemma_parse_ok_is_directive(lines[j], key_rule());
    lemma_find_directive_exact(lines, i + 1, j);
    assert(plans_from(lines, i) is Err);
    lemma_err_to_start(lines, i);
}

/// A `NEIGHBOR` in a document with no blank line at all covers the whole
/// document, first line to last: whenever the document resolves cleanly,
/// that plan is among its plans.
pub proof fn lemma_neighbor_whole_document(
    lines: Seq<Seq<char>>,
    i: int,
    c: CommandRep,
    t: TriggerRep,
)
    requires
        0 <= i < lines.len(),
        parse_directive(lines[i], key_rule()) == Ok::<DirectiveRep, ()>(
            DirectiveRep { command: c, target: TargetRep::Neighbor(t) },
        ),
        forall|k: int| 0 <= k < lines.len() ==> !is_blank_spec(#[trigger] lines[k]),
    ensures
        resolve_spec(lines) matches Ok(ps) ==> ps.contains(
            PlanRep { command: c, trigger: t, begin: 0, end: lines.len() - 1 },
        ),
{
    if resolve_spec(lines) is Ok {
        lemma_plans_prefix(lines, i);
        lemma_parse_ok_is_directive(lines[i], key_rule());
        lemma_find_blank_from_none(lines, i);
        lemma_find_blank_before_none(lines, i);
        let p = PlanRep { command: c, trigger: t, begin: 0, end: lines.len() - 1 };
        let whole = ok_of(plans_from(lines, i));
        assert(whole[0] == p);
        assert(whole.contains(p)) by {
            assert(whole[0] == p);
        }
        assert(ok_of(resolve_spec(lines)).contains(p));
    }
}

} // verus!

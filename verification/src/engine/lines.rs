//! The line store: a dense ordered array of the document's lines with
//! per-entry tombstone flags, so a stable skip-deleted projection is
//! available across resolution passes.

use vstd::prelude::*;
use vstd::string::{StrSliceExecFns, StringExecFns};

use crate::text::{join_with, lemma_join_push, seq_views, split_char, split_spec};

verus! {

/// A line's fate so far: kept, or flagged for deletion. Flags only ever
/// move from `NotChange` to `Delete`.
#[derive(Debug, Clone, Copy, PartialEq)]
pub enum Flag {
    NotChange,
    Delete,
}

/// The document's lines in their original order, each with its flag.
#[derive(Debug, Clone, PartialEq)]
pub struct Lines {
    pub data: Vec<(Flag, String)>,
}

pub open spec fn entry_views(v: Seq<(Flag, String)>) -> Seq<(Flag, Seq<char>)> {
    v.map_values(|e: (Flag, String)| (e.0, e.1@))
}

impl View for Lines {
    type V = Seq<(Flag, Seq<char>)>;

    open spec fn view(&self) -> Seq<(Flag, Seq<char>)> {
        entry_views(self.data@)
    }
}

/// The texts of the entries not flagged for deletion, in order.
pub open spec fn visible_texts(v: Seq<(Flag, Seq<char>)>) -> Seq<Seq<char>>
    decreases v.len(),
{
    if v.len() == 0 {
        Seq::empty()
    } else if v[0].0 is Delete {
        visible_texts(v.drop_first())
    } else {
        seq![v[0].1] + visible_texts(v.drop_first())
    }
}

pub open spec fn vis_count(v: Seq<(Flag, Seq<char>)>) -> int {
    visible_texts(v).len() as int
}

/// The texts of all entries, flagged or not.
pub open spec fn all_texts(v: Seq<(Flag, Seq<char>)>) -> Seq<Seq<char>> {
    v.map_values(|e: (Flag, Seq<char>)| e.1)
}

/// Flagging a visible-index range: each entry whose index in the visible
/// projection falls in `[start, end)` becomes `Delete`; every other entry,
/// and every already-deleted entry, is unchanged.
pub open spec fn flag_range(v: Seq<(Flag, Seq<char>)>, start: int, end: int) -> Seq<
    (Flag, Seq<char>),
>
    decreases v.len(),
{
    if v.len() == 0 {
        v
    } else if v[0].0 is Delete {
        seq![v[0]] + flag_range(v.drop_first(), start, end)
    } else if start <= 0 < end {
        seq![(Flag::Delete, v[0].1)] + flag_range(v.drop_first(), start - 1, end - 1)
    } else {
        seq![v[0]] + flag_range(v.drop_first(), start - 1, end - 1)
    }
}

/// Physical removal: the entries not flagged for deletion, in order.
pub open spec fn keep_entries(v: Seq<(Flag, Seq<char>)>) -> Seq<(Flag, Seq<char>)>
    decreases v.len(),
{
    if v.len() == 0 {
        v
    } else if v[0].0 is Delete {
        keep_entries(v.drop_first())
    } else {
        seq![v[0]] + keep_entries(v.drop_first())
    }
}

/// How one store evolves into another during resolution: same lines in the
/// same places, with flags only ever added.
pub open spec fn pruned_from(a: Seq<(Flag, Seq<char>)>, b: Seq<(Flag, Seq<char>)>) -> bool {
    b.len() == a.len() && forall|k: int|
        0 <= k < a.len() ==> (#[trigger] b[k]).1 == a[k].1 && (a[k].0 is Delete ==> b[k].0
            is Delete)
}

// ---------------------------------------------------------------------------
// facts about the projections
// ---------------------------------------------------------------------------

/// Flagging keeps every line in place: only flags change, and only
/// from kept to deleted.
pub proof fn lemma_flag_range_shape(v: Seq<(Flag, Seq<char>)>, start: int, end: int)
    ensures
        pruned_from(v, flag_range(v, start, end)),
    decreases v.len(),
{
    if v.len() > 0 {
        lemma_flag_range_shape(v.drop_first(), start, end);
        lemma_flag_range_shape(v.drop_first(), start - 1, end - 1);
        let w = flag_range(v, start, end);
        assert forall|k: int| 0 <= k < v.len() implies (#[trigger] w[k]).1 == v[k].1 && (v[k].0
            is Delete ==> w[k].0 is Delete) by {
            if k > 0 {
                if v[0].0 is Delete {
                    assert(w[k] == flag_range(v.drop_first(), start, end)[k - 1]);
                } else {
                    assert(w[k] == flag_range(v.drop_first(), start - 1, end - 1)[k - 1]);
                }
                assert(v.drop_first()[k - 1] == v[k]);
            }
        }
    }
}

/// Flagging never grows the visible projection.
pub proof fn lemma_flag_range_monotone(v: Seq<(Flag, Seq<char>)>, start: int, end: int)
    ensures
        vis_count(flag_range(v, start, end)) <= vis_count(v),
    decreases v.len(),
{
    if v.len() > 0 {
        let rest = v.drop_first();
        lemma_flag_range_monotone(rest, start, end);
        lemma_flag_range_monotone(rest, start - 1, end - 1);
        if v[0].0 is Delete {
            assert(flag_range(v, start, end).drop_first() =~= flag_range(rest, start, end));
        } else if start <= 0 < end {
            assert(flag_range(v, start, end).drop_first() =~= flag_range(
                rest,
                start - 1,
                end - 1,
            ));
        } else {
            assert(flag_range(v, start, end).drop_first() =~= flag_range(
                rest,
                start - 1,
                end - 1,
            ));
        }
    }
}

/// Flagging a non-empty range that begins inside the visible projection
/// strictly shrinks it: this is what makes the resolution loop terminate.
pub proof fn lemma_flag_range_decreases(v: Seq<(Flag, Seq<char>)>, start: int, end: int)
    requires
        0 <= start < end,
        start < vis_count(v),
    ensures
        vis_count(flag_range(v, start, end)) < vis_count(v),
    decreases v.len(),
{
    let rest = v.drop_first();
    let w = flag_range(v, start, end);
    if v[0].0 is Delete {
        assert(w.drop_first() =~= flag_range(rest, start, end));
        lemma_flag_range_decreases(rest, start, end);
    } else if start == 0 {
        assert(w.drop_first() =~= flag_range(rest, start - 1, end - 1));
        lemma_flag_range_monotone(rest, start - 1, end - 1);
    } else {
        assert(w.drop_first() =~= flag_range(rest, start - 1, end - 1));
        lemma_flag_range_decreases(rest, start - 1, end - 1);
    }
}

/// The visible projection is never longer than the store.
pub proof fn lemma_vis_count_le(v: Seq<(Flag, Seq<char>)>)
    ensures
        0 <= vis_count(v) <= v.len(),
    decreases v.len(),
{
    if v.len() > 0 {
        lemma_vis_count_le(v.drop_first());
    }
}

/// Physical removal does not change what is visible.
pub proof fn lemma_keep_visible(v: Seq<(Flag, Seq<char>)>)
    ensures
        visible_texts(keep_entries(v)) == visible_texts(v),
        keep_entries(keep_entries(v)) == keep_entries(v),
    decreases v.len(),
{
    if v.len() > 0 {
        lemma_keep_visible(v.drop_first());
        if v[0].0 is Delete {
        } else {
            assert(keep_entries(v)[0] == v[0]);
            assert(keep_entries(v).drop_first() =~= keep_entries(v.drop_first()));
        }
    }
}

impl Lines {
    pub fn len(&self) -> (r: usize)
        ensures
            r == self@.len(),
    {
        self.data.len()
    }

    /// The visible projection: the texts of the lines not yet deleted.
    pub fn lines(&self) -> (r: Vec<String>)
        ensures
            seq_views(r@) == visible_texts(self@),
    {
        let mut r: Vec<String> = Vec::new();
        let mut i: usize = 0;
        proof {
            assert(self.data@.skip(0) =~= self.data@);
            assert(seq_views(r@) + visible_texts(entry_views(self.data@)) =~= visible_texts(
                entry_views(self.data@),
            ));
        }
        while i < self.data.len()
            invariant
                i <= self.data@.len(),
                visible_texts(self@) == seq_views(r@) + visible_texts(
                    entry_views(self.data@.skip(i as int)),
                ),
            decreases self.data@.len() - i,
        {
            let ghost rest = entry_views(self.data@.skip(i as int));
            let ghost racc = r@;
            proof {
                assert(rest[0] == (self.data@[i as int].0, self.data@[i as int].1@));
                assert(rest.drop_first() =~= entry_views(self.data@.skip(i as int + 1)));
            }
            let e = &self.data[i];
            match e.0 {
                Flag::Delete => {},
                Flag::NotChange => {
                    r.push(e.1.clone());
                    proof {
                        assert(seq_views(r@) =~= seq_views(racc).push(rest[0].1));
                        assert(seq_views(racc) + (seq![rest[0].1] + visible_texts(
                            rest.drop_first(),
                        )) =~= seq_views(r@) + visible_texts(rest.drop_first()));
                    }
                },
            }
            i = i + 1;
        }
        proof {
            assert(entry_views(self.data@.skip(self.data@.len() as int)) =~= Seq::<
                (Flag, Seq<char>),
            >::empty());
            assert(seq_views(r@) + Seq::<Seq<char>>::empty() =~= seq_views(r@));
        }
        r
    }

    /// Marks the given range of visible indices with the flag. Marking with
    /// `NotChange` changes nothing: a visible entry already carries it, and
    /// deleted entries are never revisited.
    pub fn flagging(&mut self, flag: Flag, range: core::ops::Range<usize>)
        ensures
            final(self)@ == (if flag is Delete {
                flag_range(old(self)@, range.start as int, range.end as int)
            } else {
                old(self)@
            }),
    {
        let ghost orig = self@;
        let ghost s0 = range.start as int;
        let ghost e0 = range.end as int;
        let mut out: Vec<(Flag, String)> = Vec::new();
        let mut seek: usize = 0;
        let mut i: usize = 0;
        proof {
            assert(orig.skip(0) =~= orig);
            assert(entry_views(out@) + flag_range(orig, s0, e0) =~= flag_range(orig, s0, e0));
            assert(entry_views(out@) + orig =~= orig);
        }
        while i < self.data.len()
            invariant
                i <= self.data@.len(),
                orig == entry_views(self.data@),
                s0 == range.start as int,
                e0 == range.end as int,
                seek <= i,
                flag is Delete ==> flag_range(orig, s0, e0) == entry_views(out@) + flag_range(
                    orig.skip(i as int),
                    s0 - seek,
                    e0 - seek,
                ),
                flag is NotChange ==> orig == entry_views(out@) + orig.skip(i as int),
            decreases self.data@.len() - i,
        {
            let ghost rest = orig.skip(i as int);
            let ghost outacc = entry_views(out@);
            proof {
                assert(rest[0] == (self.data@[i as int].0, self.data@[i as int].1@));
                assert(rest.drop_first() =~= orig.skip(i as int + 1));
            }
            let e = &self.data[i];
            let deleted = match e.0 {
                Flag::Delete => true,
                Flag::NotChange => false,
            };
            if deleted {
                out.push((e.0, e.1.clone()));
                proof {
                    assert(entry_views(out@) =~= outacc.push(rest[0]));
                    assert(outacc + (seq![rest[0]] + flag_range(
                        rest.drop_first(),
                        s0 - seek,
                        e0 - seek,
                    )) =~= entry_views(out@) + flag_range(rest.drop_first(), s0 - seek, e0 - seek));
                    assert(outacc + (seq![rest[0]] + rest.drop_first()) =~= entry_views(out@)
                        + rest.drop_first());
                }
            } else {
                let in_range = range.start <= seek && seek < range.end;
                if in_range {
                    match flag {
                        Flag::Delete => out.push((Flag::Delete, e.1.clone())),
                        Flag::NotChange => out.push((Flag::NotChange, e.1.clone())),
                    }
                } else {
                    out.push((e.0, e.1.clone()));
                }
                proof {
                    let pushed = entry_views(out@);
                    assert(pushed =~= outacc.push(pushed.last()));
                    if flag is Delete {
                        assert(flag_range(rest, s0 - seek, e0 - seek) == seq![pushed.last()]
                            + flag_range(rest.drop_first(), s0 - seek - 1, e0 - seek - 1));
                        assert(outacc + (seq![pushed.last()] + flag_range(
                            rest.drop_first(),
                            s0 - seek - 1,
                            e0 - seek - 1,
                        )) =~= pushed + flag_range(rest.drop_first(), s0 - seek - 1, e0 - seek - 1));
                    } else {
                        assert(pushed.last() == rest[0]);
                        assert(outacc + (seq![rest[0]] + rest.drop_first()) =~= pushed
                            + rest.drop_first());
                    }
                }
                seek = seek + 1;
            }
            i = i + 1;
        }
        proof {
            assert(orig.skip(orig.len() as int) =~= Seq::<(Flag, Seq<char>)>::empty());
            assert(entry_views(out@) + Seq::<(Flag, Seq<char>)>::empty() =~= entry_views(out@));
        }
        self.data = out;
    }

    /// Removes the flagged entries for good.
    pub fn apply(&mut self)
        ensures
            final(self)@ == keep_entries(old(self)@),
    {
        let ghost orig = self@;
        let mut out: Vec<(Flag, String)> = Vec::new();
        let mut i: usize = 0;
        proof {
            assert(orig.skip(0) =~= orig);
            assert(entry_views(out@) + keep_entries(orig) =~= keep_entries(orig));
        }
        while i < self.data.len()
            invariant
                i <= self.data@.len(),
                orig == entry_views(self.data@),
                keep_entries(orig) == entry_views(out@) + keep_entries(orig.skip(i as int)),
            decreases self.data@.len() - i,
        {
            let ghost rest = orig.skip(i as int);
            let ghost outacc = entry_views(out@);
            proof {
                assert(rest[0] == (self.data@[i as int].0, self.data@[i as int].1@));
                assert(rest.drop_first() =~= orig.skip(i as int + 1));
            }
            let e = &self.data[i];
            match e.0 {
                Flag::Delete => {},
                Flag::NotChange => {
                    out.push((e.0, e.1.clone()));
                    proof {
                        assert(entry_views(out@) =~= outacc.push(rest[0]));
                        assert(outacc + (seq![rest[0]] + keep_entries(rest.drop_first()))
                            =~= entry_views(out@) + keep_entries(rest.drop_first()));
                    }
                },
            }
            i = i + 1;
        }
        proof {
            assert(orig.skip(orig.len() as int) =~= Seq::<(Flag, Seq<char>)>::empty());
            assert(entry_views(out@) + Seq::<(Flag, Seq<char>)>::empty() =~= entry_views(out@));
        }
        self.data = out;
    }

    /// All lines joined with newlines, deleted or not: callers apply
    /// deletions first when they want the pruned text.
    pub fn join(&self) -> (r: String)
        ensures
            r@ == join_with(all_texts(self@), "\n"@),
    {
        let mut r = String::new();
        let mut i: usize = 0;
        while i < self.data.len()
            invariant
                i <= self.data@.len(),
                i == 0 ==> r@ == Seq::<char>::empty(),
                i > 0 ==> r@ == join_with(all_texts(entry_views(self.data@)).take(i as int), "\n"@),
            decreases self.data@.len() - i,
        {
            let ghost whole = all_texts(entry_views(self.data@));
            let ghost prefix = whole.take(i as int);
            if i > 0 {
                r.append("\n");
            }
            r.append(self.data[i].1.as_str());
            proof {
                lemma_join_push(prefix, "\n"@, whole[i as int]);
                assert(prefix.push(whole[i as int]) =~= whole.take(i as int + 1));
                if i == 0 {
                    assert(r@ == whole[0]);
                    assert(join_with(whole.take(1), "\n"@) == whole.take(1)[0]);
                    assert(whole.take(1)[0] == whole[0]);
                }
            }
            i = i + 1;
        }
        proof {
            if self.data@.len() == 0 {
                assert(join_with(all_texts(entry_views(self.data@)), "\n"@) == Seq::<
                    char,
                >::empty());
            } else {
                assert(all_texts(entry_views(self.data@)).take(self.data@.len() as int)
                    =~= all_texts(entry_views(self.data@)));
            }
        }
        r
    }
}

/// The lines of a document string, split on newlines, all kept.
pub open spec fn from_content_spec(s: Seq<char>) -> Seq<(Flag, Seq<char>)> {
    split_spec(s, '\n').map_values(|t: Seq<char>| (Flag::NotChange, t))
}

impl Lines {
    pub fn from_content(s: &str) -> (r: Lines)
        ensures
            r@ == from_content_spec(s@),
    {
        let parts = split_char(s, '\n');
        let ghost pv = seq_views(parts@);
        let mut data: Vec<(Flag, String)> = Vec::new();
        let mut i: usize = 0;
        while i < parts.len()
            invariant
                i <= parts.len(),
                pv == seq_views(parts@),
                data@.len() == i,
                forall|t: int|
                    0 <= t < i ==> (#[trigger] data@[t]).0 is NotChange && data@[t].1@ == pv[t],
            decreases parts.len() - i,
        {
            data.push((Flag::NotChange, parts[i].clone()));
            i = i + 1;
        }
        let r = Lines { data };
        proof {
            assert(r@ =~= from_content_spec(s@));
        }
        r
    }
}

impl From<String> for Lines {
    fn from(s: String) -> (r: Lines) {
        Lines::from_content(s.as_str())
    }
}

impl vstd::std_specs::convert::FromSpecImpl<String> for Lines {
    open spec fn obeys_from_spec() -> bool {
        false
    }

    open spec fn from_spec(s: String) -> Lines {
        vstd::pervasive::arbitrary()
    }
}

} // verus!

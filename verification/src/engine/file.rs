//! One document under resolution: its lines with their flags, and the path
//! it came from when the caller loaded it from disk.

use vstd::prelude::*;

use crate::engine::diff::{diff_views, diffs_of_hunks, hunks_spec, Diff};
use crate::engine::lines::{all_texts, flag_range, from_content_spec, keep_entries, visible_texts,
    Flag, Lines};
use crate::text::{join_with, seq_views};

verus! {

/// Where the pruned text should go when it is written out.
pub enum Destination {
    Overwrite,
    File(String),
    Noop,
}

#[derive(Debug, Clone, PartialEq)]
pub struct File {
    path: Option<String>,
    lines: Lines,
}

impl View for File {
    type V = Seq<(Flag, Seq<char>)>;

    closed spec fn view(&self) -> Seq<(Flag, Seq<char>)> {
        self.lines@
    }
}

impl File {
    /// A document as read from disk: its content split on newlines, every
    /// line kept. The caller supplies the path it read, if any.
    pub fn with_content(path: Option<String>, content: String) -> (f: File)
        ensures
            f@ == from_content_spec(content@),
    {
        File { path, lines: Lines::from_content(content.as_str()) }
    }

    /// The currently visible lines.
    pub fn lines(&self) -> (r: Vec<String>)
        ensures
            seq_views(r@) == visible_texts(self@),
    {
        self.lines.lines()
    }

    /// Flags the visible-index range `[begin, end]`, both bounds inclusive,
    /// clamped to the store's length.
    pub fn flagging(&mut self, begin: usize, end: usize)
        ensures
            final(self)@ == flag_range(
                old(self)@,
                begin as int,
                if end >= old(self)@.len() {
                    old(self)@.len() as int
                } else {
                    end + 1
                },
            ),
    {
        let len = self.lines.len();
        let bound = if end >= len {
            len
        } else {
            end + 1
        };
        self.lines.flagging(Flag::Delete, begin..bound);
    }

    /// Removes the flagged lines for good.
    pub fn apply(&mut self)
        ensures
            final(self)@ == keep_entries(old(self)@),
    {
        self.lines.apply();
    }

    /// The deleted runs, rendered as diffs.
    pub fn diffs(&self) -> (r: Vec<Diff>)
        ensures
            diff_views(r@) == diffs_of_hunks(hunks_spec(self@)),
    {
        self.lines.diffs()
    }

    /// All lines joined with newlines; callers apply deletions first when
    /// they want the pruned text.
    pub fn join(&self) -> (r: String)
        ensures
            r@ == join_with(all_texts(self@), "\n"@),
    {
        self.lines.join()
    }

    /// A document built directly from lines, with no backing path.
    pub fn mock(lines: Vec<String>) -> (f: File)
        ensures
            f@ == seq_views(lines@).map_values(|t: Seq<char>| (Flag::NotChange, t)),
    {
        let mut data: Vec<(Flag, String)> = Vec::new();
        let mut i: usize = 0;
        while i < lines.len()
            invariant
                i <= lines.len(),
                data@.len() == i,
                forall|t: int|
                    0 <= t < i ==> (#[trigger] data@[t]).0 is NotChange && data@[t].1@
                        == lines@[t]@,
            decreases lines.len() - i,
        {
            data.push((Flag::NotChange, lines[i].clone()));
            i = i + 1;
        }
        let f = File { path: None, lines: Lines { data } };
        proof {
            assert(f@ =~= seq_views(lines@).map_values(|t: Seq<char>| (Flag::NotChange, t)));
        }
        f
    }
}

} // verus!

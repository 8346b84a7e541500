//! Diff rendering: maximal contiguous runs of deleted entries, grouped in
//! original order, rendered as unified-diff removal hunks.

use vstd::prelude::*;
use vstd::string::{StrSliceExecFns, StringExecFns};

use crate::engine::lines::{Flag, Lines};
use crate::model::cutify::{styled_spec, CutifyOps, CutifyRep};
use crate::text::{dec_digits, join_with, lemma_join_push, seq_views, usize_string};

verus! {

/// A maximal run of deleted entries: where it starts in the original
/// numbering, and the removed texts.
pub ghost struct HunkRep {
    pub begin: int,
    pub texts: Seq<Seq<char>>,
}

/// Grouping pass over the entries from index `i`, carrying the run read so
/// far: its start and its texts.
pub open spec fn hunks_acc(
    v: Seq<(Flag, Seq<char>)>,
    i: int,
    cur_start: int,
    cur: Seq<Seq<char>>,
) -> Seq<HunkRep>
    decreases v.len() - i,
{
    if i < 0 || i >= v.len() {
        if cur.len() > 0 {
            seq![HunkRep { begin: cur_start, texts: cur }]
        } else {
            Seq::empty()
        }
    } else if v[i].0 is Delete {
        hunks_acc(
            v,
            i + 1,
            if cur.len() == 0 {
                i
            } else {
                cur_start
            },
            cur.push(v[i].1),
        )
    } else {
        (if cur.len() > 0 {
            seq![HunkRep { begin: cur_start, texts: cur }]
        } else {
            Seq::empty()
        }) + hunks_acc(v, i + 1, 0, Seq::empty())
    }
}

/// The maximal runs of deleted entries, in original order.
pub open spec fn hunks_spec(v: Seq<(Flag, Seq<char>)>) -> Seq<HunkRep> {
    hunks_acc(v, 0, 0, Seq::empty())
}

pub ghost struct DiffRep {
    pub begin: int,
    pub end: int,
    pub content: Seq<char>,
}

/// The removed lines rendered one per line, each behind `- `.
pub open spec fn content_of(texts: Seq<Seq<char>>) -> Seq<char> {
    join_with(texts.map_values(|t: Seq<char>| "- "@ + t), "\n"@)
}

pub open spec fn diff_of_hunk(h: HunkRep) -> DiffRep {
    DiffRep { begin: h.begin, end: h.begin + h.texts.len(), content: content_of(h.texts) }
}

/// One rendered hunk: `[begin, end)` in the original numbering, and the
/// removal lines, ready for display.
pub struct Diff {
    pub begin: usize,
    pub end: usize,
    pub content: String,
}

impl View for Diff {
    type V = DiffRep;

    open spec fn view(&self) -> DiffRep {
        DiffRep { begin: self.begin as int, end: self.end as int, content: self.content@ }
    }
}

pub open spec fn diff_views(v: Seq<Diff>) -> Seq<DiffRep> {
    v.map_values(|d: Diff| d@)
}

/// Each hunk rendered as a diff.
pub open spec fn diffs_of_hunks(hs: Seq<HunkRep>) -> Seq<DiffRep> {
    hs.map_values(|h: HunkRep| diff_of_hunk(h))
}

/// The unified-diff hunk header, `@@ -<start>,<count> +<start>,0 @@` with a
/// 1-based start line.
pub open spec fn header_spec(d: DiffRep) -> Seq<char> {
    "@@ -"@ + dec_digits(d.begin + 1) + ","@ + dec_digits(d.end - d.begin) + " +"@ + dec_digits(
        d.begin + 1,
    ) + ",0 @@"@
}

impl Diff {
    /// The 1-based number of the hunk's first removed line.
    pub fn lineno(&self) -> (r: usize)
        requires
            self.begin < usize::MAX,
        ensures
            r == self@.begin + 1,
    {
        self.begin + 1
    }

    fn unified_diff_format_header(&self) -> (r: String)
        requires
            self.begin < usize::MAX,
            self.begin <= self.end,
        ensures
            r@ == header_spec(self@),
    {
        let mut r = String::from_str("@@ -");
        let start = usize_string(self.begin + 1);
        r.append(start.as_str());
        r.append(",");
        let count = usize_string(self.end - self.begin);
        r.append(count.as_str());
        r.append(" +");
        r.append(start.as_str());
        r.append(",0 @@");
        r
    }

    /// The whole hunk for display: the bold header, then the removed lines
    /// in red.
    pub fn unified_diff_format(&self) -> (r: String)
        requires
            self.begin < usize::MAX,
            self.begin <= self.end,
        ensures
            r@ == styled_spec(CutifyRep { text: header_spec(self@), red: false, bold: true })
                + "\n"@ + styled_spec(
                CutifyRep { text: self@.content, red: true, bold: false },
            ),
    {
        let header = self.unified_diff_format_header();
        let mut r = header.cutify().bold().styled();
        r.append("\n");
        let body = self.content.cutify().red().styled();
        r.append(body.as_str());
        r
    }
}

/// An under-construction hunk: its start index and the removed lines
/// collected so far.
pub struct DiffBuilder {
    pub begin: usize,
    pub lines: Vec<String>,
}

impl DiffBuilder {
    pub fn new(begin: usize) -> (b: DiffBuilder)
        ensures
            b.begin == begin,
            b.lines@.len() == 0,
    {
        DiffBuilder { begin, lines: Vec::new() }
    }

    pub fn add(&mut self, line: String)
        ensures
            final(self).begin == old(self).begin,
            final(self).lines@ == old(self).lines@.push(line),
    {
        self.lines.push(line);
    }

    pub fn build(self) -> (d: Diff)
        requires
            self.begin + self.lines@.len() <= usize::MAX,
        ensures
            d@ == diff_of_hunk(HunkRep { begin: self.begin as int, texts: seq_views(self.lines@) }),
    {
        let content = render_content(&self.lines);
        let end = self.begin + self.lines.len();
        Diff { begin: self.begin, end, content }
    }
}

/// The removed lines, each behind `- `, joined with newlines.
fn render_content(lines: &Vec<String>) -> (r: String)
    ensures
        r@ == content_of(seq_views(lines@)),
{
    let ghost marked = seq_views(lines@).map_values(|t: Seq<char>| "- "@ + t);
    let mut r = String::new();
    let mut i: usize = 0;
    while i < lines.len()
        invariant
            i <= lines.len(),
            marked == seq_views(lines@).map_values(|t: Seq<char>| "- "@ + t),
            i == 0 ==> r@ == Seq::<char>::empty(),
            i > 0 ==> r@ == join_with(marked.take(i as int), "\n"@),
        decreases lines.len() - i,
    {
        let ghost prefix = marked.take(i as int);
        if i > 0 {
            r.append("\n");
        }
        r.append("- ");
        r.append(lines[i].as_str());
        proof {
            lemma_join_push(prefix, "\n"@, marked[i as int]);
            assert(prefix.push(marked[i as int]) =~= marked.take(i as int + 1));
            if i == 0 {
                assert(join_with(marked.take(1), "\n"@) == marked.take(1)[0]);
                assert(marked.take(1)[0] == marked[0]);
            }
        }
        i = i + 1;
    }
    proof {
        if lines@.len() == 0 {
        } else {
            assert(marked.take(lines@.len() as int) =~= marked);
        }
    }
    r
}

impl Lines {
    /// The deleted runs of this store, rendered as diffs.
    pub fn diffs(&self) -> (r: Vec<Diff>)
        ensures
            diff_views(r@) == diffs_of_hunks(hunks_spec(self@)),
    {
        let ghost v = self@;
        let mut out: Vec<Diff> = Vec::new();
        let ghost mut done: Seq<HunkRep> = Seq::empty();
        let mut builder: Option<DiffBuilder> = None;
        let mut i: usize = 0;
        proof {
            assert(done + hunks_acc(v, 0, 0, Seq::empty()) =~= hunks_acc(v, 0, 0, Seq::empty()));
            assert(diff_views(out@) =~= diffs_of_hunks(done));
        }
        while i < self.data.len()
            invariant
                i <= self.data@.len(),
                v == self@,
                diff_views(out@) == diffs_of_hunks(done),
                match builder {
                    None => hunks_spec(v) == done + hunks_acc(v, i as int, 0, Seq::empty()),
                    Some(b) => b.begin + b.lines@.len() == i && b.lines@.len() > 0 && hunks_spec(v)
                        == done + hunks_acc(v, i as int, b.begin as int, seq_views(b.lines@)),
                },
            decreases self.data@.len() - i,
        {
            proof {
                assert(v[i as int] == (self.data@[i as int].0, self.data@[i as int].1@));
            }
            let e = &self.data[i];
            let deleted = match e.0 {
                Flag::Delete => true,
                Flag::NotChange => false,
            };
            let taken = builder;
            if deleted {
                match taken {
                    None => {
                        let mut b = DiffBuilder::new(i);
                        let ghost empty_cur = Seq::<Seq<char>>::empty();
                        b.add(e.1.clone());
                        proof {
                            assert(seq_views(b.lines@) =~= empty_cur.push(v[i as int].1));
                        }
                        builder = Some(b);
                    },
                    Some(mut b) => {
                        let ghost cur = seq_views(b.lines@);
                        b.add(e.1.clone());
                        proof {
                            assert(seq_views(b.lines@) =~= cur.push(v[i as int].1));
                        }
                        builder = Some(b);
                    },
                }
            } else {
                match taken {
                    None => {
                        builder = None;
                    },
                    Some(b) => {
                        let ghost cur = seq_views(b.lines@);
                        let ghost hunk = HunkRep { begin: b.begin as int, texts: cur };
                        let ghost out0 = out@;
                        let ghost done0 = done;
                        let d = b.build();
                        out.push(d);
                        proof {
                            done = done0.push(hunk);
                            assert(d@ == diff_of_hunk(hunk));
                            assert(diff_views(out0) == diffs_of_hunks(done0));
                            assert(diff_views(out0).len() == out0.len());
                            assert(diffs_of_hunks(done0).len() == done0.len());
                            assert(out@ == out0.push(d));
                            assert(out@.len() == out0.len() + 1);
                            assert(done.len() == done0.len() + 1);
                            assert(out0.len() == done0.len());
                            assert((diff_views(out@))[done0.len() as int] == d@);
                            assert((diffs_of_hunks(done))[done0.len() as int] == diff_of_hunk(
                                hunk,
                            ));
                            assert forall|k: int| 0 <= k < done.len() implies (diff_views(out@))[k]
                                == (diffs_of_hunks(done))[k] by {
                                if k < done0.len() {
                                    assert((diff_views(out0))[k] == (diffs_of_hunks(done0))[k]);
                                }
                            }
                            assert(diff_views(out@) =~= diffs_of_hunks(done));
                            assert(hunks_acc(v, i as int, hunk.begin, cur) == seq![hunk]
                                + hunks_acc(v, i as int + 1, 0, Seq::empty()));
                            assert((done0 + (seq![hunk] + hunks_acc(
                                v,
                                i as int + 1,
                                0,
                                Seq::empty(),
                            ))) =~= done + hunks_acc(v, i as int + 1, 0, Seq::empty()));
                        }
                        builder = None;
                    },
                }
            }
            i = i + 1;
        }
        let taken = builder;
        match taken {
            None => {},
            Some(b) => {
                let ghost cur = seq_views(b.lines@);
                let ghost hunk = HunkRep { begin: b.begin as int, texts: cur };
                let ghost out0 = out@;
                let ghost done0 = done;
                let d = b.build();
                out.push(d);
                proof {
                    done = done0.push(hunk);
                    assert(d@ == diff_of_hunk(hunk));
                    assert forall|k: int| 0 <= k < done.len() implies (diff_views(out@))[k] == (
                    diffs_of_hunks(done))[k] by {
                        if k < done0.len() {
                            assert((diff_views(out0))[k] == (diffs_of_hunks(done0))[k]);
                        }
                    }
                    assert(diff_views(out@) =~= diffs_of_hunks(done));
                    assert(hunks_acc(v, self.data@.len() as int, hunk.begin, cur) == seq![hunk]);
                    assert((done0 + seq![hunk]) =~= done);
                }
            },
        }
        out
    }
}

} // verus!

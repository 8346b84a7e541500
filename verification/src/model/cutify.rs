use vstd::prelude::*;
use vstd::string::{StrSliceExecFns, StringExecFns};

verus! {

enum Color {
    Default,
    Red,
}

/// A ghost description of a styled piece of text.
pub ghost struct CutifyRep {
    pub text: Seq<char>,
    pub red: bool,
    pub bold: bool,
}

/// A piece of text together with the terminal styling to wrap it in.
pub struct Cutify<'a> {
    content: &'a str,
    color: Color,
    bold: bool,
}

impl<'a> View for Cutify<'a> {
    type V = CutifyRep;

    closed spec fn view(&self) -> CutifyRep {
        CutifyRep { text: self.content@, red: self.color is Red, bold: self.bold }
    }
}

/// The ANSI escape rendering of a styled piece of text.
pub open spec fn styled_spec(c: CutifyRep) -> Seq<char> {
    "\u{1b}["@ + (if c.bold {
        "1;"@
    } else {
        Seq::<char>::empty()
    }) + (if c.red {
        "31"@
    } else {
        "39"@
    }) + "m"@ + c.text + "\u{1b}[0m"@
}

impl Color {
    fn code(&self) -> (r: &'static str)
        ensures
            self is Red ==> r@ == "31"@,
            self is Default ==> r@ == "39"@,
    {
        match self {
            Color::Default => "39",
            Color::Red => "31",
        }
    }
}

impl<'a> Cutify<'a> {
    pub fn red(self) -> (r: Self)
        ensures
            r@ == (CutifyRep { red: true, ..self@ }),
    {
        Cutify { color: Color::Red, ..self }
    }

    pub fn bold(self) -> (r: Self)
        ensures
            r@ == (CutifyRep { bold: true, ..self@ }),
    {
        Cutify { bold: true, ..self }
    }

    fn mid_bold(&self) -> (r: &'static str)
        ensures
            self@.bold ==> r@ == "1;"@,
            !self@.bold ==> r@ == Seq::<char>::empty(),
    {
        if self.bold {
            "1;"
        } else {
            proof {
                reveal_strlit("");
                assert(""@ =~= Seq::<char>::empty());
            }
            ""
        }
    }

    /// The text wrapped in its ANSI escape codes.
    pub fn styled(&self) -> (r: String)
        ensures
            r@ == styled_spec(self@),
    {
        let mut r = String::from_str("\u{1b}[");
        r.append(self.mid_bold());
        r.append(self.color.code());
        r.append("m");
        r.append(self.content);
        r.append("\u{1b}[0m");
        r
    }
}

/// Entry into the styling builder, for every string-like type.
pub trait CutifyOps where Self: View<V = Seq<char>> {
    fn cutify<'a>(&'a self) -> (c: Cutify<'a>)
        ensures
            c@ == (CutifyRep { text: self@, red: false, bold: false }),
    ;
}

impl CutifyOps for str {
    fn cutify<'a>(&'a self) -> (c: Cutify<'a>) {
        Cutify { content: self, color: Color::Default, bold: false }
    }
}

impl CutifyOps for String {
    fn cutify<'a>(&'a self) -> (c: Cutify<'a>) {
        Cutify { content: self.as_str(), color: Color::Default, bold: false }
    }
}

} // verus!

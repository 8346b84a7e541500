use vstd::prelude::*;
use vstd::string::StringExecFns;

verus! {

/// The name of a rule that can keep guarded code alive while it is
/// listed in the project's active rules.
#[derive(Debug, PartialEq)]
pub struct Rule(String);

impl View for Rule {
    type V = Seq<char>;

    closed spec fn view(&self) -> Seq<char> {
        self.0@
    }
}

impl Clone for Rule {
    fn clone(&self) -> (r: Self)
        ensures
            r@ == self@,
    {
        Rule(self.0.clone())
    }
}

impl Rule {
    pub fn new(rule: &str) -> (r: Self)
        ensures
            r@ == rule@,
    {
        Rule(String::from_str(rule))
    }

    pub fn name(&self) -> (r: &String)
        ensures
            r@ == self@,
    {
        &self.0
    }
}

} // verus!

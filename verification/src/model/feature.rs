use vstd::prelude::*;
use vstd::string::StringExecFns;

verus! {

/// The name of a feature gate, as the older directive dialect spells
/// its trigger parameter.
#[derive(Debug, PartialEq)]
pub struct Feature(String);

impl View for Feature {
    type V = Seq<char>;

    closed spec fn view(&self) -> Seq<char> {
        self.0@
    }
}

impl Feature {
    pub fn new(feature: &str) -> (r: Self)
        ensures
            r@ == feature@,
    {
        Feature(String::from_str(feature))
    }

    pub fn name(&self) -> (r: String)
        ensures
            r@ == self@,
    {
        self.0.clone()
    }
}

} // verus!

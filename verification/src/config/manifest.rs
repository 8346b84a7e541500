//! The shape of the project manifest. Loading it from disk and expanding
//! its globs into source paths is the caller's concern; the library only
//! consumes the active rule names it carries.

use vstd::prelude::*;

verus! {

#[derive(Debug, Clone)]
pub struct Manifest {
    pub project: Project,
}

#[derive(Debug, Clone)]
pub struct Project {
    pub includes: Vec<String>,
    pub excludes: Vec<String>,
    pub rules: Vec<String>,
}

} // verus!

//! The crew spec — what `provision` is asked to build — and where the crew
//! record for a project lives: `<state>/crews/<project>.json`. Reading and
//! writing the record is the caller's business.

use vstd::prelude::*;
use crate::text::{join_path, path_join, push_str};

verus! {

broadcast use vstd::string::group_string_axioms;

/// One requested seat: a role, and optionally where it sits, whether it resumes
/// its session, its tab title and its launch command.
#[derive(Debug, Clone, PartialEq)]
pub struct SeatRequest {
    pub role: String,
    pub slot: Option<usize>,
    pub resumable: Option<bool>,
    pub title: Option<String>,
    pub command: Option<String>,
}

/// A crew spec with the command-line flags merged in: layout, harness, cwd, and
/// either `devs` (the default crew) or explicit `seats`.
#[derive(Debug, Clone, PartialEq)]
pub struct Request {
    pub layout: Option<String>,
    pub harness: Option<String>,
    pub cwd: Option<String>,
    pub devs: Option<usize>,
    pub seats: Vec<SeatRequest>,
    pub dev_slots: Option<Vec<usize>>,
}

/// The record's path: `<state>/crews/<project>.json`.
pub open spec fn record_path(state: Seq<char>, project: Seq<char>) -> Seq<char> {
    path_join(path_join(state, "crews"@), project + ".json"@)
}

/// Where the crew record of `project` lives under the state root.
pub fn path(state: &str, project: &str) -> (r: String)
    ensures
        r@ == record_path(state@, project@),
{
    let crews = join_path(state, "crews");
    let mut file = String::from_str(project);
    push_str(&mut file, ".json");
    join_path(crews.as_str(), file.as_str())
}

} // verus!

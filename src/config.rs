use vstd::prelude::*;

verus! {

/// Session settings: the shell commands to start once the manager runs.
#[derive(PartialEq, Debug)]
pub struct Config {
    pub startup: Vec<String>,
}

} // verus!

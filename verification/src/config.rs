//! Process configuration handed to the core at startup. Reading it from
//! the environment or a file is the surrounding runtime's business.

use vstd::prelude::*;

verus! {

/// Where the model catalog is read from.
#[derive(Debug)]
pub struct Config {
    pub models_file: String,
}

/// The catalog path used when the environment names none.
pub fn default_models_file() -> (p: String)
    ensures
        p@ == "fixtures/models.yaml"@,
{
    String::from_str("fixtures/models.yaml")
}

impl Config {
    /// A configuration naming the catalog file to read.
    pub fn new(models_file: String) -> (c: Config)
        ensures
            c.models_file@ == models_file@,
    {
        Config { models_file }
    }
}

} // verus!

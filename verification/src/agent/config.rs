use vstd::prelude::*;
use crate::ais::asst::CreateConfig;

verus! {

/// The configuration of an agent, read from its `agent.toml`.
pub struct Config {
    pub name: String,
    pub model: String,
    pub instructions_file: String,
}

impl Config {
    /// What the agent's assistant is created with: its name and model.
    pub fn create_config(&self) -> (r: CreateConfig)
        ensures
            r.name@ == self.name@,
            r.model@ == self.model@,
    {
        CreateConfig { name: self.name.clone(), model: self.model.clone() }
    }
}

} // verus!

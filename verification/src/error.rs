use vstd::prelude::*;

verus! {

/// The failures the library reports.
pub enum AgentError {
    /// A failure described by a message.
    Message(String),
    /// A glob pattern or glob set that `globset` refused; holds its message.
    Glob(String),
}

/// `e` is a `Message` error whose text is `text`.
pub open spec fn is_message(e: AgentError, text: Seq<char>) -> bool {
    e matches AgentError::Message(m) && m@ == text
}

/// `r` is the outcome `expected` describes: `Ok` with that text, or a
/// `Message` error with that text.
pub open spec fn gives(r: Result<String, AgentError>, expected: Result<Seq<char>, Seq<char>>) -> bool {
    match expected {
        Ok(t) => r matches Ok(s) && s@ == t,
        Err(m) => r matches Err(e) && is_message(e, m),
    }
}

impl AgentError {
    /// The text of the error, as it is shown to the user.
    pub fn message(&self) -> (r: &str)
        ensures
            match self {
                AgentError::Message(m) => r@ == m@,
                AgentError::Glob(m) => r@ == m@,
            },
    {
        match self {
            AgentError::Message(m) => m.as_str(),
            AgentError::Glob(m) => m.as_str(),
        }
    }
}

} // verus!

use vstd::prelude::*;

verus! {

/// An error answered to the agent.
#[derive(Debug, Clone)]
pub enum ApiError {
    /// The upstream model could not be reached or did not answer.
    Upstream(String),
    /// Any other failure, with its message.
    Other(String),
}

impl ApiError {
    /// The HTTP status and the `error` text of the JSON body answered for
    /// this error: 502 for an upstream failure, 500 otherwise.
    pub fn response_parts(&self) -> (r: (u16, String))
        ensures
            match self {
                ApiError::Upstream(m) => r.0 == 502 && r.1@ == m@,
                ApiError::Other(m) => r.0 == 500 && r.1@ == m@,
            },
    {
        match self {
            ApiError::Upstream(m) => (502, m.clone()),
            ApiError::Other(m) => (500, m.clone()),
        }
    }
}

} // verus!

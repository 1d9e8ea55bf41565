use vstd::prelude::*;

verus! {

/// One question put to the System One service.
#[derive(Debug, Clone)]
pub struct Question {
    /// The question type: `choice` or `noul`.
    pub kind: String,
    pub instructions: String,
    /// For a `choice` question, each option with its optional description;
    /// option names are distinct.
    pub criteria: Option<Vec<(String, Option<String>)>>,
}

/// A System One request: the state text shown to the model, the questions
/// (ordered by name) and an optional model name.
#[derive(Debug, Clone)]
pub struct SystemOneRequest {
    /// The `body` member of the request's `state` object.
    pub state_body: String,
    pub questions: Vec<(String, Question)>,
    pub model: Option<String>,
}

/// Token usage reported by the System One service.
#[derive(Debug, Clone, Copy, PartialEq, Eq, Structural)]
pub struct Usage {
    pub input_tokens: u64,
}

impl SystemOneRequest {
    /// The request with `default_model` filled in where it names no model.
    pub fn with_default_model(self, default_model: Option<String>) -> (r: SystemOneRequest)
        ensures
            r.state_body == self.state_body,
            r.questions == self.questions,
            r.model == (if self.model is None {
                default_model
            } else {
                self.model
            }),
    {
        if self.model.is_none() {
            SystemOneRequest { state_body: self.state_body, questions: self.questions, model: default_model }
        } else {
            self
        }
    }
}

} // verus!

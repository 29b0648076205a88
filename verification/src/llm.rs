//! The model provider capability: one operation that turns a prompt into a
//! completion, whatever backend stands behind it.

use vstd::prelude::*;

verus! {

/// Why a provider produced no completion. Each kind carries the message that
/// describes the failure.
#[derive(Debug)]
pub enum ProviderError {
    /// The request did not reach the backend or no reply came back.
    Transport(String),
    /// The backend answered with a status other than success.
    BackendStatus(String),
    /// The reply did not have the expected shape.
    MalformedResponse(String),
}

/// What a provider error is: its kind and the text of its message.
pub enum ProviderErrorView {
    Transport(Seq<char>),
    BackendStatus(Seq<char>),
    MalformedResponse(Seq<char>),
}

impl View for ProviderError {
    type V = ProviderErrorView;

    open spec fn view(&self) -> ProviderErrorView {
        match self {
            ProviderError::Transport(m) => ProviderErrorView::Transport(m@),
            ProviderError::BackendStatus(m) => ProviderErrorView::BackendStatus(m@),
            ProviderError::MalformedResponse(m) => ProviderErrorView::MalformedResponse(m@),
        }
    }
}

impl ProviderError {
    /// The message that the error carries.
    pub open spec fn message_text(&self) -> Seq<char> {
        match self {
            ProviderError::Transport(m) => m@,
            ProviderError::BackendStatus(m) => m@,
            ProviderError::MalformedResponse(m) => m@,
        }
    }

    /// The message that the error carries.
    pub fn message(&self) -> (out: String)
        ensures
            out@ == self.message_text(),
    {
        match self {
            ProviderError::Transport(m) => m.clone(),
            ProviderError::BackendStatus(m) => m.clone(),
            ProviderError::MalformedResponse(m) => m.clone(),
        }
    }
}

/// A language-model backend: the one operation that turns a prompt into a
/// completion.
///
/// Nothing is promised of what an implementation answers: the same prompt may
/// give different completions, and any call may fail. A provider is never
/// called again by this crate after a failure.
pub trait LLM {
    /// Asks the backend to complete `prompt`.
    fn generate(&mut self, prompt: &str) -> Result<String, ProviderError>;
}

} // verus!

//! The SambaNova chat-completions backend, without its transport: what is
//! sent and how a reply is read.
//!
//! Sending the request is left to the caller. This module builds the request
//! from the provider's settings and a prompt, and turns the status and body of
//! a reply into a completion or a provider error.

use vstd::prelude::*;
use vstd::string::StringExecFns;
use crate::llm::{ProviderError, ProviderErrorView};

verus! {

/// The JSON string literal for the text `s`, as `serde_json` writes it.
pub uninterp spec fn json_string_text(s: Seq<char>) -> Seq<char>;

/// What `serde_json` finds in the text `body` under the member `list`, at
/// its element `position`, under that element's member `item`, under that
/// member's member `field`: `Err` where it does not accept `body` as a JSON
/// document; `Ok(None)` where a step finds no object with that member or no
/// array with that element, or where what the last step finds is not a
/// string; and the string's text otherwise.
pub uninterp spec fn json_text_at(
    body: Seq<char>,
    list: Seq<char>,
    position: nat,
    item: Seq<char>,
    field: Seq<char>,
) -> Result<Option<Seq<char>>, ()>;

/// The text of a looked-up string.
pub open spec fn lookup_text(found: Result<Option<String>, ()>) -> Result<Option<Seq<char>>, ()> {
    match found {
        Ok(Some(text)) => Ok(Some(text@)),
        Ok(None) => Ok(None),
        Err(e) => Err(e),
    }
}

/// Writes `s` as a JSON string literal with `serde_json`'s `Display` for
/// `Value::String`. The contract only names the result: it is the text that
/// `serde_json` produces for `s`, the same for the same `s`.
#[verifier::external_body]
fn json_string(s: &str) -> (out: String)
    ensures
        out@ == json_string_text(s@),
{
    serde_json::Value::String(s.to_owned()).to_string()
}

/// Parses `body` with `serde_json::from_str` and walks down with
/// `Value::get`: by the key `list`, the index `position`, the key `item` and
/// the key `field`; the value found is read with `Value::as_str`. The contract
/// only names the result: a parse error gives `Err`, a missing member or
/// element or a value that is no string gives `Ok(None)`, and a string its
/// text.
#[verifier::external_body]
fn json_lookup(body: &str, list: &str, position: usize, item: &str, field: &str) -> (out: Result<
    Option<String>,
    (),
>)
    ensures
        lookup_text(out) == json_text_at(body@, list@, position as nat, item@, field@),
{
    match serde_json::from_str::<serde_json::Value>(body) {
        Ok(value) => Ok(
            value.get(list).and_then(|v| v.get(position)).and_then(|v| v.get(item)).and_then(
                |v| v.get(field),
            ).and_then(serde_json::Value::as_str).map(str::to_owned),
        ),
        Err(_) => Err(()),
    }
}

/// The settings of a SambaNova provider.
#[derive(Debug)]
pub struct SambaNovaProvider {
    api_key: String,
    model: String,
    system_prompt: String,
}

/// What a provider is set up with.
pub struct SambaNovaView {
    pub api_key: Seq<char>,
    pub model: Seq<char>,
    pub system_prompt: Seq<char>,
}

/// The system prompt of a provider that is given none.
pub open spec fn default_system_prompt() -> Seq<char> {
    "You are a helpful assistant."@
}

/// What is found where a reply holds its completion: in the member
/// `choices`, at its first element, under `message`, under `content`.
pub open spec fn completion_in(body: Seq<char>) -> Result<Option<Seq<char>>, ()> {
    json_text_at(body, "choices"@, 0, "message"@, "content"@)
}

/// The body of the request for `prompt`: a JSON object with the messages (the
/// system prompt, then the user's prompt), the model, and streaming off.
pub open spec fn request_text(
    model: Seq<char>,
    system_prompt: Seq<char>,
    prompt: Seq<char>,
) -> Seq<char> {
    "{\"messages\":[{\"content\":"@ + json_string_text(system_prompt)
        + ",\"role\":\"system\"},{\"content\":"@ + json_string_text(prompt)
        + ",\"role\":\"user\"}],\"model\":"@ + json_string_text(model) + ",\"stream\":false}"@
}

/// The value of the request's authorization header.
pub open spec fn authorization_text(api_key: Seq<char>) -> Seq<char> {
    "Bearer "@ + api_key
}

/// What a reply comes to, given what was found where it holds its completion.
pub open spec fn reply_outcome(
    success: bool,
    body: Seq<char>,
    found: Result<Option<Seq<char>>, ()>,
) -> Result<Seq<char>, ProviderErrorView> {
    if !success {
        Err(ProviderErrorView::BackendStatus("SambaNova API error: "@ + body))
    } else {
        match found {
            Err(_) => Err(
                ProviderErrorView::MalformedResponse("Failed to parse SambaNova response"@),
            ),
            Ok(None) => Err(
                ProviderErrorView::MalformedResponse("Invalid response structure from SambaNova"@),
            ),
            Ok(Some(text)) => Ok(text),
        }
    }
}

/// `out` is the outcome `expected`.
pub open spec fn is_outcome(
    out: Result<String, ProviderError>,
    expected: Result<Seq<char>, ProviderErrorView>,
) -> bool {
    match expected {
        Ok(text) => out matches Ok(s) && s@ == text,
        Err(failure) => out matches Err(e) && e@ == failure,
    }
}

impl View for SambaNovaProvider {
    type V = SambaNovaView;

    closed spec fn view(&self) -> SambaNovaView {
        SambaNovaView {
            api_key: self.api_key@,
            model: self.model@,
            system_prompt: self.system_prompt@,
        }
    }
}

/// The key to use: the one given, else the one from the environment.
pub fn resolve_key(given: Option<String>, environment: Option<String>) -> (out: Option<String>)
    ensures
        out == match given {
            Some(key) => Some(key),
            None => environment,
        },
{
    match given {
        Some(key) => Some(key),
        None => environment,
    }
}

/// The error for a request that could not be sent, with the cause's text.
pub fn transport_failure(cause: &str) -> (out: ProviderError)
    ensures
        out@ == ProviderErrorView::Transport("Failed to send request to SambaNova: "@ + cause@),
{
    let mut message = String::from_str("Failed to send request to SambaNova: ");
    message.append(cause);
    ProviderError::Transport(message)
}

/// What a reply comes to, given what was found where its body holds the
/// completion: an unsuccessful status is a backend error that quotes the body,
/// a body that is no JSON document or holds no completion is a malformed
/// response, and a completion is returned.
pub fn interpret_found(success: bool, body: &str, found: Result<Option<String>, ()>) -> (out:
    Result<String, ProviderError>)
    ensures
        is_outcome(out, reply_outcome(success, body@, lookup_text(found))),
{
    if !success {
        let mut message = String::from_str("SambaNova API error: ");
        message.append(body);
        return Err(ProviderError::BackendStatus(message));
    }
    match found {
        Err(_) => Err(
            ProviderError::MalformedResponse(
                String::from_str("Failed to parse SambaNova response"),
            ),
        ),
        Ok(None) => Err(
            ProviderError::MalformedResponse(
                String::from_str("Invalid response structure from SambaNova"),
            ),
        ),
        Ok(Some(text)) => Ok(text),
    }
}

/// Reads a reply: `success` says whether its status was one of success, and
/// `body` is its text.
pub fn interpret(success: bool, body: &str) -> (out: Result<String, ProviderError>)
    ensures
        is_outcome(out, reply_outcome(success, body@, completion_in(body@))),
{
    if !success {
        interpret_found(false, body, Ok(None))
    } else {
        let found = json_lookup(body, "choices", 0, "message", "content");
        interpret_found(true, body, found)
    }
}

impl SambaNovaProvider {
    /// A provider for `model` that authenticates with `api_key` and uses the
    /// default system prompt.
    pub fn new(api_key: String, model: String) -> (out: Self)
        ensures
            out@ == (SambaNovaView {
                api_key: api_key@,
                model: model@,
                system_prompt: default_system_prompt(),
            }),
    {
        SambaNovaProvider {
            api_key,
            model,
            system_prompt: String::from_str("You are a helpful assistant."),
        }
    }

    /// The same provider with `system_prompt` in place of its system prompt.
    pub fn with_system_prompt(self, system_prompt: String) -> (out: Self)
        ensures
            out@ == (SambaNovaView { system_prompt: system_prompt@, ..self@ }),
    {
        SambaNovaProvider { api_key: self.api_key, model: self.model, system_prompt }
    }

    /// The model's name.
    pub fn model(&self) -> (out: &String)
        ensures
            out@ == self@.model,
    {
        &self.model
    }

    /// The address that requests are sent to.
    pub fn endpoint(&self) -> (out: &'static str)
        ensures
            out@ == "https://api.sambanova.ai/v1/chat/completions"@,
    {
        "https://api.sambanova.ai/v1/chat/completions"
    }

    /// The value of the authorization header.
    pub fn authorization(&self) -> (out: String)
        ensures
            out@ == authorization_text(self@.api_key),
    {
        let mut out = String::from_str("Bearer ");
        out.append(self.api_key.as_str());
        out
    }

    /// The body of the request that asks to complete `prompt`.
    pub fn request_body(&self, prompt: &str) -> (out: String)
        ensures
            out@ == request_text(self@.model, self@.system_prompt, prompt@),
    {
        let mut out = String::from_str("{\"messages\":[{\"content\":");
        out.append(json_string(self.system_prompt.as_str()).as_str());
        out.append(",\"role\":\"system\"},{\"content\":");
        out.append(json_string(prompt).as_str());
        out.append(",\"role\":\"user\"}],\"model\":");
        out.append(json_string(self.model.as_str()).as_str());
        out.append(",\"stream\":false}");
        out
    }
}

} // verus!

//! LLM backend abstraction.
//!
//! The engine never depends on an LLM: every caller treats a failure as "no
//! result" and keeps its local candidates.
use crate::text::{chars_of, push_all, string_from, trim, trim_bounds};
use std::time::Duration;
use vstd::prelude::*;

verus! {

/// Error of an LLM call, carrying a human-readable message.
#[derive(Debug)]
pub struct LlmError {
    message: String,
}

impl LlmError {
    /// An error with the given message.
    pub fn new(message: String) -> (r: LlmError)
        ensures
            r.message_view() == message@,
    {
        LlmError { message }
    }

    /// The message, as a sequence of characters.
    pub closed spec fn message_view(&self) -> Seq<char> {
        self.message@
    }

    /// The message.
    pub fn message(&self) -> (r: &str)
        ensures
            r@ == self.message_view(),
    {
        self.message.as_str()
    }

    /// `llm error: <message>`, the error's display text.
    pub fn to_string(&self) -> (r: String)
        ensures
            r@ == "llm error: "@ + self.message_view(),
    {
        let mut s = String::from_str("llm error: ");
        push_all(&mut s, self.message.as_str());
        s
    }
}

/// Result of an LLM call.
pub type LlmResult<T> = Result<T, LlmError>;

/// A pluggable LLM completion backend, implemented by the program that owns
/// the network transport.
pub trait LlmBackend {
    /// Completes `prompt`, respecting the backend's timeout; callers must
    /// degrade gracefully on error.
    fn complete(&self, prompt: &str) -> LlmResult<String>;

    /// Human-readable backend name for diagnostics.
    fn name(&self) -> &'static str;
}

/// The address of an Ollama server, the model to run and the request timeout.
pub struct OllamaBackend {
    base_url: String,
    model: String,
    timeout: Duration,
}

/// `s` without its trailing `/` characters (`trim_end_matches('/')`).
pub open spec fn trim_trailing_slashes(s: Seq<char>) -> Seq<char>
    decreases s.len(),
{
    if s.len() > 0 && s.last() == '/' {
        trim_trailing_slashes(s.drop_last())
    } else {
        s
    }
}

/// The duration of `secs` whole seconds, as `Duration::from_secs` builds it.
pub uninterp spec fn secs_duration(secs: u64) -> Duration;

/// `Duration::from_secs`: the result is the duration named for `secs`.
#[verifier::external_body]
fn duration_from_secs(secs: u64) -> (r: Duration)
    ensures
        r == secs_duration(secs),
{
    Duration::from_secs(secs)
}

impl OllamaBackend {
    /// The base URL, without trailing slashes.
    pub closed spec fn base_url_view(&self) -> Seq<char> {
        self.base_url@
    }

    /// The model name.
    pub closed spec fn model_view(&self) -> Seq<char> {
        self.model@
    }

    /// The request timeout.
    pub closed spec fn timeout_value(&self) -> Duration {
        self.timeout
    }

    /// A backend for the Ollama instance at `base_url`.
    pub fn new(base_url: &str, model: &str, timeout: Duration) -> (r: OllamaBackend)
        ensures
            r.base_url_view() == trim_trailing_slashes(base_url@),
            r.model_view() == model@,
            r.timeout_value() == timeout,
    {
        let v = chars_of(base_url);
        let mut end = v.len();
        assert(v@.subrange(0, v@.len() as int) == v@);
        while end > 0 && v[end - 1] == '/'
            invariant
                end <= v@.len(),
                trim_trailing_slashes(v@.subrange(0, end as int)) == trim_trailing_slashes(v@),
            decreases end,
        {
            assert(v@.subrange(0, end as int).drop_last() == v@.subrange(0, end - 1));
            end -= 1;
        }
        OllamaBackend {
            base_url: string_from(&v, 0, end),
            model: String::from_str(model),
            timeout,
        }
    }

    /// A backend for the default local Ollama endpoint, with a ten-second
    /// timeout.
    pub fn local(model: &str) -> (r: OllamaBackend)
        ensures
            r.base_url_view() == "http://127.0.0.1:11434"@,
            r.model_view() == model@,
            r.timeout_value() == secs_duration(10),
    {
        proof {
            reveal_strlit("http://127.0.0.1:11434");
        }
        let r = Self::new("http://127.0.0.1:11434", model, duration_from_secs(10));
        assert(trim_trailing_slashes("http://127.0.0.1:11434"@) == "http://127.0.0.1:11434"@);
        r
    }

    /// The generate endpoint URL, `<base_url>/api/generate`.
    pub fn endpoint(&self) -> (r: String)
        ensures
            r@ == self.base_url_view() + "/api/generate"@,
    {
        let mut s = self.base_url.clone();
        push_all(&mut s, "/api/generate");
        s
    }

    /// The model name.
    pub fn model(&self) -> (r: &str)
        ensures
            r@ == self.model_view(),
    {
        self.model.as_str()
    }

    /// The request timeout.
    pub fn timeout(&self) -> (r: Duration)
        ensures
            r == self.timeout_value(),
    {
        self.timeout
    }

    /// The backend's name, `ollama`.
    pub fn name(&self) -> (r: &'static str)
        ensures
            r@ == "ollama"@,
    {
        "ollama"
    }
}

/// The text of a completion reply: the reply without surrounding white
/// space.
pub fn completion_text(reply: &str) -> (r: String)
    ensures
        r@ == trim(reply@),
{
    let v = chars_of(reply);
    let (a, b) = trim_bounds(&v, 0, v.len());
    assert(v@.subrange(0, v@.len() as int) =~= v@);
    string_from(&v, a, b)
}

} // verus!

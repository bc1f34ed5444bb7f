//! Language-model backends: choosing one from a spec string, and the
//! endpoints they talk to. The requests themselves are made by the program.
use vstd::prelude::*;
use crate::error::Error;
use crate::text::{find_char, find_char_in, lemma_find_char_at, str_chars, string_from_range};

verus! {

/// Backend that generates nothing.
#[derive(Debug, Clone, Copy)]
pub struct SkipBackend;

/// A local Ollama server.
#[derive(Debug, Clone)]
pub struct OllamaBackend {
    pub host: String,
    pub model: String,
}

/// An OpenAI-compatible API (vLLM, LM Studio and the like).
#[derive(Debug, Clone)]
pub struct OpenAiCompatibleBackend {
    pub base_url: String,
    pub model: String,
    pub api_key: Option<String>,
}

/// The Ollama host used when none is configured.
pub open spec fn default_ollama_host() -> Seq<char> {
    "http://localhost:11434"@
}

impl SkipBackend {
    /// The backend's name.
    pub fn name(&self) -> (r: &'static str)
        ensures
            r@ == "skip"@,
    {
        "skip"
    }
}

impl OllamaBackend {
    /// A backend for `model` on the configured host (`OLLAMA_HOST`), else
    /// on `http://localhost:11434`.
    pub fn new(model: &str, host: Option<&str>) -> (b: OllamaBackend)
        ensures
            b.model@ == model@,
            b.host@ == match host {
                Some(h) => h@,
                None => default_ollama_host(),
            },
    {
        OllamaBackend {
            host: match host {
                Some(h) => String::from_str(h),
                None => String::from_str("http://localhost:11434"),
            },
            model: String::from_str(model),
        }
    }

    /// The backend's name.
    pub fn name(&self) -> (r: &'static str)
        ensures
            r@ == "ollama"@,
    {
        "ollama"
    }

    /// The generation endpoint: `<host>/api/generate`.
    pub fn generate_url(&self) -> (r: String)
        ensures
            r@ == self.host@ + "/api/generate"@,
    {
        let mut u = self.host.clone();
        u.append("/api/generate");
        u
    }
}

impl OpenAiCompatibleBackend {
    /// A backend for `model` at `base_url`, with an optional API key.
    pub fn new(base_url: &str, model: &str, api_key: Option<String>) -> (b: OpenAiCompatibleBackend)
        ensures
            b.base_url@ == base_url@,
            b.model@ == model@,
            b.api_key == api_key,
    {
        OpenAiCompatibleBackend {
            base_url: String::from_str(base_url),
            model: String::from_str(model),
            api_key,
        }
    }

    /// The backend's name.
    pub fn name(&self) -> (r: &'static str)
        ensures
            r@ == "openai_compatible"@,
    {
        "openai_compatible"
    }

    /// The chat endpoint: `<base_url>/v1/chat/completions`.
    pub fn completions_url(&self) -> (r: String)
        ensures
            r@ == self.base_url@ + "/v1/chat/completions"@,
    {
        let mut u = self.base_url.clone();
        u.append("/v1/chat/completions");
        u
    }
}

/// The backend a spec names.
#[derive(Debug, Clone)]
pub enum Backend {
    Skip(SkipBackend),
    Ollama(OllamaBackend),
    OpenAi(OpenAiCompatibleBackend),
}

/// `s` split at its first `:` (`s.splitn(2, ':')`): the head, and the rest
/// if there was a `:`.
pub open spec fn split_colon(s: Seq<char>) -> (Seq<char>, Option<Seq<char>>) {
    match find_char(s, ':') {
        Some(k) => (s.subrange(0, k), Some(s.subrange(k + 1, s.len() as int))),
        None => (s, None),
    }
}

/// The three parts of `s.splitn(3, ':')`.
pub open spec fn split3(s: Seq<char>) -> (Seq<char>, Option<Seq<char>>, Option<Seq<char>>) {
    let (a, rest) = split_colon(s);
    match rest {
        Some(r) => {
            let (b, c) = split_colon(r);
            (a, Some(b), c)
        },
        None => (a, None, None),
    }
}

/// The four parts of `s.splitn(4, ':')`: the kind, then up to three fields.
pub open spec fn split4(s: Seq<char>) -> (Seq<char>, Option<Seq<char>>, Option<Seq<char>>, Option<Seq<char>>) {
    let (a, b, c) = split3(s);
    match c {
        Some(r) => {
            let (m, k) = split_colon(r);
            (a, b, Some(m), k)
        },
        None => (a, b, None, None),
    }
}

/// The error for a spec naming no known backend.
pub open spec fn unknown_backend_message(spec: Seq<char>) -> Seq<char> {
    "unknown LLM backend: "@ + spec + ". Use: skip, ollama:model, openai:url:model"@
}

fn split_at_colon(v: &[char], from: usize) -> (r: (usize, Option<usize>))
    requires
        from <= v@.len(),
    ensures
        r.0 <= v@.len(),
        from <= r.0,
        ({
            let (a, rest) = split_colon(v@.subrange(from as int, v@.len() as int));
            &&& a == v@.subrange(from as int, r.0 as int)
            &&& match rest {
                Some(x) => r.1 == Some((r.0 + 1) as usize) && r.0 < v@.len() && x == v@.subrange(
                    r.0 + 1,
                    v@.len() as int,
                ),
                None => r.1 is None && r.0 == v@.len(),
            }
        }),
{
    let len = v.len();
    let k = find_char_in(v, ':', from, len);
    proof {
        let t = v@.subrange(from as int, len as int);
        lemma_find_char_at(t, ':', k - from);
        assert forall|j: int| 0 <= j < k - from implies t[j] != ':' by {
            assert(t[j] == v@[from + j]);
        }
        assert(t.subrange(0, k - from) =~= v@.subrange(from as int, k as int));
        if k < len {
            assert(t.subrange(k - from + 1, t.len() as int) =~= v@.subrange(k + 1, len as int));
        } else {
            assert(t =~= v@.subrange(from as int, k as int));
        }
    }
    if k < len {
        (k, Some(k + 1))
    } else {
        (k, None)
    }
}

/// The four parts of a spec, split at its first three `:`.
#[verifier::rlimit(60)]
pub fn spec_parts(spec: &str) -> (r: (String, Option<String>, Option<String>, Option<String>))
    ensures
        ({
            let (a, b, c, d) = split4(spec@);
            &&& r.0@ == a
            &&& match b {
                Some(x) => r.1 matches Some(y) && y@ == x,
                None => r.1 is None,
            }
            &&& match c {
                Some(x) => r.2 matches Some(y) && y@ == x,
                None => r.2 is None,
            }
            &&& match d {
                Some(x) => r.3 matches Some(y) && y@ == x,
                None => r.3 is None,
            }
        }),
{
    let v = str_chars(spec);
    assert(v@.subrange(0, v@.len() as int) =~= v@);
    let (e0, rest) = split_at_colon(v.as_slice(), 0);
    let kind = string_from_range(v.as_slice(), 0, e0);
    match rest {
        Some(r1) => {
            let (e1, rest2) = split_at_colon(v.as_slice(), r1);
            let a = string_from_range(v.as_slice(), r1, e1);
            match rest2 {
                Some(r2) => {
                    let (e2, rest3) = split_at_colon(v.as_slice(), r2);
                    let b = string_from_range(v.as_slice(), r2, e2);
                    match rest3 {
                        Some(r3) => (kind, Some(a), Some(b), Some(string_from_range(v.as_slice(), r3, v.len()))),
                        None => (kind, Some(a), Some(b), None),
                    }
                },
                None => (kind, Some(a), None, None),
            }
        },
        None => (kind, None, None, None),
    }
}

/// Chooses the backend a spec names: `skip` or nothing, `ollama[:model]`
/// (model `phi3` by default), or `openai:url[:model[:key]]` (model
/// `gpt-3.5-turbo` by default; without a key in the spec, the configured
/// one). `host` is the configured Ollama host and `api_key` the configured
/// OpenAI key.
pub fn create_backend(spec: &str, host: Option<&str>, api_key: Option<String>) -> (r: Result<Backend, Error>)
    ensures
        spec@ == "skip"@ || spec@.len() == 0 ==> r matches Ok(Backend::Skip(_)),
        !(spec@ == "skip"@ || spec@.len() == 0) ==> {
            let (kind, p1, p2, p3) = split4(spec@);
            if kind == "ollama"@ {
                r matches Ok(Backend::Ollama(b)) && b.model@ == (match p1 {
                    Some(m) => m,
                    None => "phi3"@,
                }) && b.host@ == (match host {
                    Some(h) => h@,
                    None => default_ollama_host(),
                })
            } else if kind == "openai"@ {
                match p1 {
                    Some(url) => r matches Ok(Backend::OpenAi(b)) && b.base_url@ == url
                        && b.model@ == (match p2 {
                        Some(m) => m,
                        None => "gpt-3.5-turbo"@,
                    }) && match p3 {
                        Some(k) => b.api_key matches Some(bk) && bk@ == k,
                        None => b.api_key == api_key,
                    },
                    None => r matches Err(Error::Storage(m)) && m@
                        == "openai spec requires url: openai:url:model"@,
                }
            } else {
                r matches Err(Error::Storage(m)) && m@ == unknown_backend_message(spec@)
            }
        },
{
    proof {
        reveal_strlit("skip");
        reveal_strlit("");
    }
    let s = String::from_str(spec);
    if s == String::from_str("skip") || spec.is_empty() {
        return Ok(Backend::Skip(SkipBackend));
    }
    let (kind, p1, p2, p3) = spec_parts(spec);
    proof {
        reveal_strlit("ollama");
        reveal_strlit("openai");
    }
    if kind == String::from_str("ollama") {
        let model = match p1 {
            Some(m) => m,
            None => String::from_str("phi3"),
        };
        return Ok(Backend::Ollama(OllamaBackend::new(model.as_str(), host)));
    }
    if kind == String::from_str("openai") {
        let url = match p1 {
            Some(u) => u,
            None => {
                return Err(Error::Storage(String::from_str("openai spec requires url: openai:url:model")));
            },
        };
        let model = match p2 {
            Some(m) => m,
            None => String::from_str("gpt-3.5-turbo"),
        };
        let key = match p3 {
            Some(k) => Some(k),
            None => api_key,
        };
        return Ok(Backend::OpenAi(OpenAiCompatibleBackend::new(url.as_str(), model.as_str(), key)));
    }
    let mut m = String::from_str("unknown LLM backend: ");
    m.append(spec);
    m.append(". Use: skip, ollama:model, openai:url:model");
    Err(Error::Storage(m))
}

} // verus!

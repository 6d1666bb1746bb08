//! The request boundary: which provider and model a request is for, how a
//! key is presented to a provider, the caller's own credential, and the
//! shape of a synthesized error reply.

use vstd::prelude::*;
use crate::models::{OpenAiError, OpenAiErrorResponse};
use crate::record::same_text;

verus! {

/// The `model` field of a JSON request body, when the body is a JSON value
/// with a string in that field.
pub uninterp spec fn json_model_field(body: Seq<u8>) -> Option<Seq<char>>;

/// Relies on `serde_json::from_slice` read as a `serde_json::Value`, then
/// on picking its `model` field as a string (`Value::get`, `Value::as_str`):
/// the field depends on the bytes alone.
#[verifier::external_body]
fn model_field(body: &[u8]) -> (r: Option<String>)
    ensures
        match r {
            Some(s) => json_model_field(body@) == Some(s@),
            None => json_model_field(body@) is None,
        },
{
    serde_json::from_slice::<serde_json::Value>(body).ok().and_then(
        |v| v.get("model").and_then(|m| m.as_str()).map(|s| s.to_string()),
    )
}

/// Where `c` first occurs in `s`.
pub open spec fn index_of(s: Seq<char>, c: char) -> Option<int>
    decreases s.len(),
{
    if s.len() == 0 {
        None
    } else if s[0] == c {
        Some(0)
    } else {
        match index_of(s.drop_first(), c) {
            Some(i) => Some(i + 1),
            None => None,
        }
    }
}

/// The text up to the first `/`, or all of it.
pub open spec fn first_segment(s: Seq<char>) -> Seq<char> {
    match index_of(s, '/') {
        Some(i) => s.subrange(0, i),
        None => s,
    }
}

/// A `provider/model` name: the provider before the first `/`, the model
/// between it and the next `/`.
pub open spec fn split_model_name(m: Seq<char>) -> Option<(Seq<char>, Seq<char>)> {
    match index_of(m, '/') {
        Some(i) => Some((m.subrange(0, i), first_segment(m.subrange(i + 1, m.len() as int)))),
        None => None,
    }
}

/// A resource path: the provider before the first `/`, the model all that
/// follows it.
pub open spec fn split_resource(p: Seq<char>) -> Option<(Seq<char>, Seq<char>)> {
    match index_of(p, '/') {
        Some(i) => Some((p.subrange(0, i), p.subrange(i + 1, p.len() as int))),
        None => None,
    }
}

/// The provider and model of a request: from the body's model name when it
/// holds a `/`, else from the resource path.
pub open spec fn provider_and_model(field: Option<Seq<char>>, path: Seq<char>) -> Option<(Seq<char>, Seq<char>)> {
    match field {
        Some(m) => match split_model_name(m) {
            Some(pm) => Some(pm),
            None => split_resource(path),
        },
        None => split_resource(path),
    }
}

/// The views of a pair of texts.
pub open spec fn pair_view(r: Option<(String, String)>) -> Option<(Seq<char>, Seq<char>)> {
    match r {
        Some((a, b)) => Some((a@, b@)),
        None => None,
    }
}

/// Where `c` first occurs in `s`.
pub fn find_char(s: &str, c: char) -> (r: Option<usize>)
    ensures
        match r {
            Some(i) => index_of(s@, c) == Some(i as int),
            None => index_of(s@, c) is None,
        },
{
    let n = s.unicode_len();
    let mut i: usize = 0;
    assert(s@.subrange(0, n as int) == s@);
    while i < n
        invariant
            n == s@.len(),
            i <= n,
            forall|j: int| 0 <= j < i ==> s@[j] != c,
        decreases n - i,
    {
        if s.get_char(i) == c {
            proof {
                lemma_index_of_first(s@, c, i as int);
            }
            return Some(i);
        }
        i = i + 1;
    }
    proof {
        lemma_index_of_none(s@, c);
    }
    None
}

proof fn lemma_index_of_first(s: Seq<char>, c: char, i: int)
    requires
        0 <= i < s.len(),
        s[i] == c,
        forall|j: int| 0 <= j < i ==> s[j] != c,
    ensures
        index_of(s, c) == Some(i),
    decreases i,
{
    if i > 0 {
        lemma_index_of_first(s.drop_first(), c, i - 1);
    }
}

proof fn lemma_index_of_none(s: Seq<char>, c: char)
    requires
        forall|j: int| 0 <= j < s.len() ==> s[j] != c,
    ensures
        index_of(s, c) is None,
    decreases s.len(),
{
    if s.len() > 0 {
        lemma_index_of_none(s.drop_first(), c);
    }
}

proof fn lemma_index_of_bound(s: Seq<char>, c: char)
    ensures
        index_of(s, c) matches Some(i) ==> 0 <= i < s.len() && s[i] == c,
    decreases s.len(),
{
    if s.len() > 0 {
        lemma_index_of_bound(s.drop_first(), c);
    }
}

/// The provider and model named by a body's model field, or by the
/// resource path.
pub fn provider_and_model_from(model: Option<&str>, rest_resource: &str) -> (r: Option<(String, String)>)
    ensures
        pair_view(r) == provider_and_model(
            match model {
                Some(m) => Some(m@),
                None => None,
            },
            rest_resource@,
        ),
{
    if let Some(m) = model {
        if let Some(i) = find_char(m, '/') {
            proof {
                lemma_index_of_bound(m@, '/');
            }
            let n = m.unicode_len();
            let provider = m.substring_char(0, i);
            let rest = m.substring_char(i + 1, n);
            proof {
                lemma_index_of_bound(rest@, '/');
            }
            let model_name = match find_char(rest, '/') {
                Some(j) => rest.substring_char(0, j),
                None => rest,
            };
            return Some((String::from_str(provider), String::from_str(model_name)));
        }
    }
    match find_char(rest_resource, '/') {
        Some(i) => {
            proof {
                lemma_index_of_bound(rest_resource@, '/');
            }
            let n = rest_resource.unicode_len();
            Some((
                String::from_str(rest_resource.substring_char(0, i)),
                String::from_str(rest_resource.substring_char(i + 1, n)),
            ))
        },
        None => None,
    }
}

/// The provider and model of a request, from its body and resource path.
pub fn extract_provider_and_model(body_bytes: &[u8], rest_resource: &str) -> (r: Option<(String, String)>)
    ensures
        pair_view(r) == provider_and_model(json_model_field(body_bytes@), rest_resource@),
{
    let field = model_field(body_bytes);
    match &field {
        Some(m) => provider_and_model_from(Some(m.as_str()), rest_resource),
        None => provider_and_model_from(None, rest_resource),
    }
}

/// The header that carries a key to `provider`.
pub open spec fn auth_header_name(provider: Seq<char>) -> Seq<char> {
    if provider == "google-ai-studio"@ {
        "x-goog-api-key"@
    } else if provider == "anthropic"@ || provider == "elevenlabs"@ {
        "x-api-key"@
    } else if provider == "azure-openai"@ {
        "api-key"@
    } else if provider == "cartesia"@ {
        "X-API-Key"@
    } else {
        "Authorization"@
    }
}

/// The header name and value that present `key` to `provider`: the key
/// itself in a provider's own header, else a bearer token.
pub fn auth_header(provider: &str, key: &str) -> (r: (String, String))
    ensures
        r.0@ == auth_header_name(provider@),
        r.1@ == if auth_header_name(provider@) == "Authorization"@ {
            "Bearer "@ + key@
        } else {
            key@
        },
{
    let name = if same_text(provider, "google-ai-studio") {
        "x-goog-api-key"
    } else if same_text(provider, "anthropic") || same_text(provider, "elevenlabs") {
        "x-api-key"
    } else if same_text(provider, "azure-openai") {
        "api-key"
    } else if same_text(provider, "cartesia") {
        "X-API-Key"
    } else {
        "Authorization"
    };
    if same_text(name, "Authorization") {
        (String::from_str(name), String::from_str("Bearer ").concat(key))
    } else {
        (String::from_str(name), String::from_str(key))
    }
}

/// The token of an `Authorization` header value that starts with
/// `Bearer `; empty for no header or another scheme.
pub open spec fn bearer_token_of(header: Option<Seq<char>>) -> Seq<char> {
    match header {
        Some(h) => if h.len() >= 7 && h.subrange(0, 7) == "Bearer "@ {
            h.subrange(7, h.len() as int)
        } else {
            Seq::empty()
        },
        None => Seq::empty(),
    }
}

/// The caller's credential from an `Authorization` header value.
pub fn get_auth_key_from_header(header: Option<&str>) -> (r: String)
    ensures
        r@ == bearer_token_of(
            match header {
                Some(h) => Some(h@),
                None => None,
            },
        ),
{
    proof {
        reveal_strlit("Bearer ");
    }
    if let Some(h) = header {
        let n = h.unicode_len();
        if n >= 7 && same_text(h.substring_char(0, 7), "Bearer ") {
            return String::from_str(h.substring_char(7, n));
        }
    }
    String::new()
}

/// Whether the caller's credential matches the master key: never when it
/// is empty or no master key is set.
pub fn is_valid_auth_key(key: &str, master_key: Option<&str>) -> (r: bool)
    ensures
        r == (key@.len() > 0 && (master_key matches Some(m) && m@ == key@)),
{
    if key.unicode_len() == 0 {
        return false;
    }
    match master_key {
        Some(m) => same_text(key, m),
        None => false,
    }
}

/// An OpenAI-shaped error reply body.
pub fn create_openai_error(message: &str, error_type: &str, code: &str) -> (r: OpenAiErrorResponse)
    ensures
        r.error.message@ == message@,
        r.error.error_type@ == error_type@,
        r.error.param is None,
        r.error.code matches Some(c) && c@ == code@,
{
    OpenAiErrorResponse {
        error: OpenAiError {
            message: String::from_str(message),
            error_type: String::from_str(error_type),
            param: None,
            code: Some(String::from_str(code)),
        },
    }
}

} // verus!

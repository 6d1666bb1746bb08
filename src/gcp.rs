//! Translation of OpenAI-compatible requests into native Gemini requests.

use vstd::prelude::*;
use crate::models::{
    GeminiChatRequest, GeminiContent, GeminiEmbeddingContent, GeminiEmbeddingsRequest, GeminiPart,
    OpenAiChatCompletionRequest, OpenAiEmbeddingsRequest,
};
use crate::record::same_text;

verus! {

/// The Gemini role of an OpenAI role: `assistant` speaks as `model`, every
/// other role (`user`, `system`, anything else) as `user`.
pub open spec fn gemini_role(role: Seq<char>) -> Seq<char> {
    if role == "assistant"@ {
        "model"@
    } else {
        "user"@
    }
}

/// A Gemini content of one text part.
pub open spec fn single_text(c: GeminiContent, text: Seq<char>) -> bool {
    c.parts@.len() == 1 && c.parts@[0].text@ == text
}

/// Maps an OpenAI role name to the Gemini one.
pub fn map_role_to_gemini(role: String) -> (r: String)
    ensures
        r@ == gemini_role(role@),
{
    if same_text(role.as_str(), "assistant") {
        String::from_str("model")
    } else {
        String::from_str("user")
    }
}

/// Turns an OpenAI embeddings request into a Gemini batch: one request per
/// input text, in order, each for model `models/<model_name>`.
pub fn translate_embeddings_request(req: OpenAiEmbeddingsRequest, model_name: &str) -> (r: GeminiEmbeddingsRequest)
    ensures
        r.requests@.len() == req.input@.len(),
        forall|i: int|
            0 <= i < req.input@.len() ==> {
                &&& (#[trigger] r.requests@[i]).model@ == "models/"@ + model_name@
                &&& single_text(r.requests@[i].content, req.input@[i]@)
                &&& r.requests@[i].content.role is None
            },
{
    let ghost input = req.input@;
    let mut rest = req.input;
    let mut requests: Vec<GeminiEmbeddingContent> = Vec::new();
    while rest.len() > 0
        invariant
            requests@.len() + rest@.len() == input.len(),
            rest@ == input.subrange(requests@.len() as int, input.len() as int),
            forall|i: int|
                0 <= i < requests@.len() ==> {
                    &&& (#[trigger] requests@[i]).model@ == "models/"@ + model_name@
                    &&& single_text(requests@[i].content, input[i]@)
                    &&& requests@[i].content.role is None
                },
        decreases rest.len(),
    {
        let ghost k = requests@.len();
        let text = rest.remove(0);
        assert(rest@ == input.subrange(k as int + 1, input.len() as int));
        let parts = vec![GeminiPart { text }];
        let model = String::from_str("models/").concat(model_name);
        requests.push(GeminiEmbeddingContent { model, content: GeminiContent { parts, role: None } });
    }
    GeminiEmbeddingsRequest { requests }
}

/// Turns an OpenAI chat request into a Gemini one: one content per message,
/// in order, holding the message text and its Gemini role.
pub fn translate_chat_request(req: OpenAiChatCompletionRequest) -> (r: GeminiChatRequest)
    ensures
        r.contents@.len() == req.messages@.len(),
        forall|i: int|
            0 <= i < req.messages@.len() ==> {
                &&& single_text(#[trigger] r.contents@[i], req.messages@[i].content@)
                &&& r.contents@[i].role matches Some(role) && role@ == gemini_role(req.messages@[i].role@)
            },
{
    let ghost messages = req.messages@;
    let mut rest = req.messages;
    let mut contents: Vec<GeminiContent> = Vec::new();
    while rest.len() > 0
        invariant
            contents@.len() + rest@.len() == messages.len(),
            rest@ == messages.subrange(contents@.len() as int, messages.len() as int),
            forall|i: int|
                0 <= i < contents@.len() ==> {
                    &&& single_text(#[trigger] contents@[i], messages[i].content@)
                    &&& contents@[i].role matches Some(role) && role@ == gemini_role(messages[i].role@)
                },
        decreases rest.len(),
    {
        let ghost k = contents@.len();
        let msg = rest.remove(0);
        assert(rest@ == messages.subrange(k as int + 1, messages.len() as int));
        let role = map_role_to_gemini(msg.role);
        let parts = vec![GeminiPart { text: msg.content }];
        contents.push(GeminiContent { parts, role: Some(role) });
    }
    GeminiChatRequest { contents }
}

} // verus!

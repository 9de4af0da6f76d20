//! Plain data model of the chat-completion protocol.
//!
//! The transport itself (HTTP, serialization, retries) lives outside the
//! library; these types carry what the orchestration loop reads from a
//! completed request.

use vstd::prelude::*;

verus! {

/// Connection settings for a hosted completion service.
pub struct AzureOpenAIConfig {
    pub endpoint: String,
    pub api_key: String,
    pub api_version: String,
    pub deployment: String,
}

/// One chat message: a role and its text.
pub struct ChatMessage {
    pub role: String,
    pub content: String,
}

/// Token accounting reported by the provider for one request.
pub struct Usage {
    pub prompt_tokens: u32,
    pub completion_tokens: u32,
    pub total_tokens: u32,
}

/// One of the completions of a response.
pub struct ChatChoice {
    pub index: u32,
    pub message: ChatMessage,
    pub finish_reason: Option<String>,
}

/// A completed chat request.
pub struct ChatCompletionResponse {
    pub id: String,
    pub object: String,
    pub created: u64,
    pub choices: Vec<ChatChoice>,
    pub usage: Usage,
}

impl ChatCompletionResponse {
    /// The text of the first completion, or `None` when the provider
    /// returned none.
    pub fn first_content(&self) -> (r: Option<&String>)
        ensures
            self.choices@.len() > 0 <==> r is Some,
            r matches Some(c) ==> c == &self.choices@[0].message.content,
    {
        if self.choices.len() > 0 {
            Some(&self.choices[0].message.content)
        } else {
            None
        }
    }
}

} // verus!

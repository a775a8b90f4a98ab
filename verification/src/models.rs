//! Plain data exchanged with clients: chat messages and the model list.
use vstd::prelude::*;

verus! {

/// Mathematical model of a [`ChatMessage`]: role and content as character
/// sequences.
pub struct ChatMessageView {
    pub role: Seq<char>,
    pub content: Seq<char>,
}

/// One turn of a conversation. The role is `system`, `user` or `assistant`.
#[derive(Debug)]
pub struct ChatMessage {
    pub role: String,
    pub content: String,
}

impl View for ChatMessage {
    type V = ChatMessageView;

    open spec fn view(&self) -> ChatMessageView {
        ChatMessageView { role: self.role@, content: self.content@ }
    }
}

impl DeepView for ChatMessage {
    type V = ChatMessageView;

    open spec fn deep_view(&self) -> ChatMessageView {
        self@
    }
}

impl Clone for ChatMessage {
    fn clone(&self) -> (copy: Self)
        ensures
            copy == *self,
    {
        ChatMessage { role: self.role.clone(), content: self.content.clone() }
    }
}

impl ChatMessage {
    /// Builds a message from borrowed text.
    pub fn new(role: &str, content: &str) -> (message: Self)
        ensures
            message@.role == role@,
            message@.content == content@,
    {
        ChatMessage { role: role.to_owned(), content: content.to_owned() }
    }

    /// Whether this message carries the system role.
    pub open spec fn is_system(self) -> bool {
        self.role@ == "system"@
    }
}

/// Copies a history, message by message.
pub fn clone_history(history: &Vec<ChatMessage>) -> (copy: Vec<ChatMessage>)
    ensures
        copy@ == history@,
        copy.deep_view() == history.deep_view(),
{
    let copy = history.clone();
    assert(copy@ =~= history@);
    copy
}

/// The list of display names returned to clients that ask for the models.
#[derive(Debug)]
pub struct ModelsList {
    pub models: Vec<String>,
}

/// Tokens generated for a request that names no budget.
pub fn default_max_token() -> (tokens: usize)
    ensures
        tokens == 128,
{
    128
}

/// The top-k cut of a request that names none.
pub fn default_top_k() -> (top_k: i32)
    ensures
        top_k == 10,
{
    10
}

/// The device of a request that names none.
pub fn default_device() -> (device: String)
    ensures
        device@ == "cpu"@,
{
    "cpu".to_owned()
}

} // verus!

//! A deterministic engine for trying the gateway out: one model, and a
//! fixed reply around the prompt.
use vstd::prelude::*;
use crate::relay::{UpstreamEvent, UpstreamEventView};

verus! {

/// An engine that always answers alike.
#[derive(Debug)]
pub struct MockEngine {}

/// The fragments the mock engine answers a prompt with.
pub open spec fn mock_reply(prompt: Seq<char>) -> Seq<Seq<char>> {
    seq!["hello"@, " "@, prompt, "\n"@, "done"@]
}

/// The reply of the mock engine as the relay sees it: each fragment, then
/// the end of the stream.
pub open spec fn mock_events(prompt: Seq<char>) -> Seq<UpstreamEventView> {
    seq![
        UpstreamEventView::Token("hello"@),
        UpstreamEventView::Token(" "@),
        UpstreamEventView::Token(prompt),
        UpstreamEventView::Token("\n"@),
        UpstreamEventView::Token("done"@),
        UpstreamEventView::End,
    ]
}

impl MockEngine {
    /// The mock engine.
    pub fn new() -> Self {
        MockEngine {  }
    }

    /// The one model the mock engine offers.
    pub fn get_available_models(&self) -> (names: Vec<String>)
        ensures
            names.deep_view() == seq!["mock-model"@],
    {
        let mut names: Vec<String> = Vec::new();
        names.push("mock-model".to_owned());
        assert(names.deep_view() =~= seq!["mock-model"@]);
        names
    }

    /// The fragments the engine answers the prompt with.
    pub fn replies(&self, prompt: &str) -> (fragments: Vec<String>)
        ensures
            fragments.deep_view() == mock_reply(prompt@),
    {
        let mut fragments: Vec<String> = Vec::new();
        fragments.push("hello".to_owned());
        fragments.push(" ".to_owned());
        fragments.push(prompt.to_owned());
        fragments.push("\n".to_owned());
        fragments.push("done".to_owned());
        assert(fragments.deep_view() =~= mock_reply(prompt@));
        fragments
    }

    /// The reply to the prompt as a stream of events: each fragment, then
    /// the end.
    pub fn events(&self, prompt: &str) -> (stream: Vec<UpstreamEvent>)
        ensures
            stream.deep_view() == mock_events(prompt@),
    {
        let mut stream: Vec<UpstreamEvent> = Vec::new();
        stream.push(UpstreamEvent::Token("hello".to_owned()));
        stream.push(UpstreamEvent::Token(" ".to_owned()));
        stream.push(UpstreamEvent::Token(prompt.to_owned()));
        stream.push(UpstreamEvent::Token("\n".to_owned()));
        stream.push(UpstreamEvent::Token("done".to_owned()));
        stream.push(UpstreamEvent::End);
        assert(stream.deep_view() =~= mock_events(prompt@));
        stream
    }
}

} // verus!

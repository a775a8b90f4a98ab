//! The in-memory session store: every live conversation under its session
//! id. The store is the source of truth while the server runs; what is
//! written to durable storage is copied out of it.
use vstd::prelude::*;
use crate::config::LimitsConfig;
use crate::keyed::TextMap;
use crate::models::{ChatMessage, ChatMessageView, clone_history};
use crate::routes::{
    lemma_system_stays_in_front, prune_history, pruned, rollback, rolled_back,
    system_only_in_front, MAX_HISTORY_LENGTH,
};
use crate::text::{join, decimal, decimal_text};
use vstd::string::StringSliceAdditionalSpecFns;

verus! {

/// Model of a history: its messages in order.
pub type HistoryView = Seq<ChatMessageView>;

/// The system message every new session starts with.
pub open spec fn seed_message() -> ChatMessageView {
    ChatMessageView { role: "system"@, content: "You are a helpful AI assistant."@ }
}

/// A user message with the given text.
pub open spec fn user_message(text: Seq<char>) -> ChatMessageView {
    ChatMessageView { role: "user"@, content: text }
}

/// An assistant message with the given text.
pub open spec fn assistant_message(text: Seq<char>) -> ChatMessageView {
    ChatMessageView { role: "assistant"@, content: text }
}

/// The history of a session once a user turn has been taken in: a session
/// that did not exist starts from the seed, the prompt is appended as a user
/// message, and the result is cut down to the cap.
pub open spec fn with_user_turn(existing: Option<HistoryView>, prompt: Seq<char>) -> HistoryView {
    let base = match existing {
        Some(history) => history,
        None => seq![seed_message()],
    };
    pruned(base.push(user_message(prompt)))
}

/// One durable record as read back at startup. A record whose history could
/// not be decoded carries none.
pub struct SessionRecord {
    pub session_id: String,
    pub history: Option<Vec<ChatMessage>>,
}

/// Model of a [`SessionRecord`].
pub struct SessionRecordView {
    pub session_id: Seq<char>,
    pub history: Option<HistoryView>,
}

impl View for SessionRecord {
    type V = SessionRecordView;

    open spec fn view(&self) -> SessionRecordView {
        SessionRecordView { session_id: self.session_id@, history: self.history.deep_view() }
    }
}

impl DeepView for SessionRecord {
    type V = SessionRecordView;

    open spec fn deep_view(&self) -> SessionRecordView {
        self@
    }
}

/// The sessions that a list of records gives: records without a history are
/// passed over, and of two records for one id the later stands.
pub open spec fn loaded(records: Seq<SessionRecordView>) -> Map<Seq<char>, HistoryView>
    decreases records.len(),
{
    if records.len() == 0 {
        Map::empty()
    } else {
        let earlier = loaded(records.drop_last());
        match records.last().history {
            Some(history) => earlier.insert(records.last().session_id, history),
            None => earlier,
        }
    }
}

/// Every live session: session id to conversation history.
pub struct SessionMap {
    histories: TextMap<Vec<ChatMessage>>,
}

impl View for SessionMap {
    type V = Map<Seq<char>, HistoryView>;

    closed spec fn view(&self) -> Map<Seq<char>, HistoryView> {
        Map::new(
            |id: Seq<char>| self.histories@.dom().contains(id),
            |id: Seq<char>| self.histories@[id].deep_view(),
        )
    }
}

impl SessionMap {
    /// The store is well formed.
    pub closed spec fn wf(self) -> bool {
        self.histories.wf()
    }

    /// The session ids, oldest session first.
    pub closed spec fn ids(self) -> Seq<Seq<char>> {
        self.histories.keys()
    }

    /// The ids are the sessions of the store, each listed once.
    pub proof fn lemma_ids(self)
        requires
            self.wf(),
        ensures
            self.ids().no_duplicates(),
            self.ids().to_set() == self@.dom(),
            self@.dom().finite(),
            self@.dom().len() == self.ids().len(),
    {
        self.histories.lemma_keys();
        assert(self@.dom() =~= self.histories@.dom());
    }

    /// A store without sessions.
    pub fn new() -> (store: Self)
        ensures
            store.wf(),
            store@ == Map::<Seq<char>, HistoryView>::empty(),
            store.ids() == Seq::<Seq<char>>::empty(),
    {
        let store = SessionMap { histories: TextMap::new() };
        assert(store@ =~= Map::<Seq<char>, HistoryView>::empty());
        store
    }

    /// Rebuilds the store from the records of the durable store, passing
    /// over those whose history could not be decoded.
    pub fn from_records(records: &Vec<SessionRecord>) -> (store: Self)
        ensures
            store.wf(),
            store@ == loaded(records.deep_view()),
    {
        let mut store = SessionMap::new();
        let mut i: usize = 0;
        while i < records.len()
            invariant
                i <= records.len(),
                store.wf(),
                store@ == loaded(records.deep_view().take(i as int)),
            decreases records.len() - i,
        {
            let record = &records[i];
            proof {
                let taken = records.deep_view().take(i + 1);
                assert(taken.drop_last() =~= records.deep_view().take(i as int));
                assert(taken.last() == record@);
            }
            match &record.history {
                Some(history) => {
                    store.insert(record.session_id.clone(), clone_history(history));
                },
                None => {},
            }
            i += 1;
        }
        assert(records.deep_view().take(records.len() as int) =~= records.deep_view());
        store
    }

    /// How many sessions are live.
    pub fn len(&self) -> (count: usize)
        requires
            self.wf(),
        ensures
            count == self@.dom().len(),
    {
        proof {
            self.lemma_ids();
        }
        self.histories.len()
    }

    /// Whether the session is live.
    pub fn contains_key(&self, session_id: &str) -> (live: bool)
        requires
            self.wf(),
        ensures
            live == self@.dom().contains(session_id@),
    {
        self.histories.contains_key(session_id)
    }

    /// The history of the session, if it is live.
    pub fn get(&self, session_id: &str) -> (history: Option<&Vec<ChatMessage>>)
        requires
            self.wf(),
        ensures
            match history {
                Some(messages) => self@.dom().contains(session_id@) && messages.deep_view()
                    == self@[session_id@],
                None => !self@.dom().contains(session_id@),
            },
    {
        self.histories.get(session_id)
    }

    /// A copy of the history of the session; empty where the session is not
    /// live.
    pub fn history(&self, session_id: &str) -> (messages: Vec<ChatMessage>)
        requires
            self.wf(),
        ensures
            messages.deep_view() == if self@.dom().contains(session_id@) {
                self@[session_id@]
            } else {
                Seq::empty()
            },
    {
        match self.histories.get(session_id) {
            Some(messages) => clone_history(messages),
            None => {
                let none: Vec<ChatMessage> = Vec::new();
                assert(none.deep_view() =~= Seq::<ChatMessageView>::empty());
                none
            },
        }
    }

    /// Puts the history under the session id, replacing what was there.
    pub fn insert(&mut self, session_id: String, history: Vec<ChatMessage>)
        requires
            old(self).wf(),
        ensures
            final(self).wf(),
            final(self)@ == old(self)@.insert(session_id@, history.deep_view()),
            final(self).ids() == if old(self)@.dom().contains(session_id@) {
                old(self).ids()
            } else {
                old(self).ids().push(session_id@)
            },
    {
        let _ = self.histories.insert(session_id, history);
        assert(self@ =~= old(self)@.insert(session_id@, history.deep_view()));
    }

    /// Deletes the session. Returns whether it was live.
    pub fn remove(&mut self, session_id: &str) -> (was_live: bool)
        requires
            old(self).wf(),
        ensures
            final(self).wf(),
            final(self)@ == old(self)@.remove(session_id@),
            was_live == old(self)@.dom().contains(session_id@),
            final(self).ids() == old(self).ids().filter(|id: Seq<char>| id != session_id@),
    {
        let previous = self.histories.remove(session_id);
        assert(self@ =~= old(self)@.remove(session_id@));
        previous.is_some()
    }

    /// The ids of the live sessions, oldest session first.
    pub fn session_ids(&self) -> (ids: Vec<String>)
        requires
            self.wf(),
        ensures
            ids.deep_view() == self.ids(),
    {
        self.histories.key_list()
    }

    /// Takes a user turn into the session: a session that is not live is
    /// created with the seed message, the prompt is appended as a user
    /// message and the history is cut down to the cap. Returns a copy of
    /// the history, which is what the engine is asked to continue.
    pub fn begin_turn(&mut self, session_id: &str, prompt: &str) -> (context: Vec<ChatMessage>)
        requires
            old(self).wf(),
        ensures
            final(self).wf(),
            final(self)@ == old(self)@.insert(
                session_id@,
                with_user_turn(session_history(old(self)@, session_id@), prompt@),
            ),
            context.deep_view() == final(self)@[session_id@],
            final(self).ids() == if old(self)@.dom().contains(session_id@) {
                old(self).ids()
            } else {
                old(self).ids().push(session_id@)
            },
    {
        let ghost existing = session_history(self@, session_id@);
        if !self.histories.contains_key(session_id) {
            let mut seeded: Vec<ChatMessage> = Vec::new();
            seeded.push(ChatMessage::new("system", "You are a helpful AI assistant."));
            assert(seeded.deep_view() =~= seq![seed_message()]);
            let _ = self.histories.insert(session_id.to_owned(), seeded);
        }
        let ghost opened = *self;
        let ghost base = match existing {
            Some(history) => history,
            None => seq![seed_message()],
        };
        assert(opened.histories@[session_id@].deep_view() == base);
        let context = match self.histories.get_mut(session_id) {
            Some(history) => {
                history.push(ChatMessage::new("user", prompt));
                assert(history.deep_view() =~= base.push(user_message(prompt@)));
                prune_history(history);
                clone_history(history)
            },
            None => Vec::new(),
        };
        assert(self@ =~= old(self)@.insert(session_id@, with_user_turn(existing, prompt@)));
        context
    }

    /// Appends the response as an assistant message to the session, if the
    /// session is live. Returns whether it was.
    pub fn complete_turn(&mut self, session_id: &str, response: &str) -> (appended: bool)
        requires
            old(self).wf(),
        ensures
            final(self).wf(),
            final(self).ids() == old(self).ids(),
            appended == old(self)@.dom().contains(session_id@),
            final(self)@ == if appended {
                old(self)@.insert(
                    session_id@,
                    old(self)@[session_id@].push(assistant_message(response@)),
                )
            } else {
                old(self)@
            },
    {
        let appended = match self.histories.get_mut(session_id) {
            Some(history) => {
                let ghost before = history.deep_view();
                history.push(ChatMessage::new("assistant", response));
                assert(history.deep_view() =~= before.push(assistant_message(response@)));
                true
            },
            None => false,
        };
        if appended {
            assert(self@ =~= old(self)@.insert(
                session_id@,
                old(self)@[session_id@].push(assistant_message(response@)),
            ));
        } else {
            assert(self@ =~= old(self)@);
        }
        appended
    }

    /// Undoes the last `amount` messages of the session, if it is live.
    /// Returns whether it was.
    pub fn rollback(&mut self, session_id: &str, amount: usize) -> (found: bool)
        requires
            old(self).wf(),
        ensures
            final(self).wf(),
            final(self).ids() == old(self).ids(),
            found == old(self)@.dom().contains(session_id@),
            final(self)@ == if found {
                old(self)@.insert(session_id@, rolled_back(old(self)@[session_id@], amount as nat))
            } else {
                old(self)@
            },
    {
        let found = match self.histories.get_mut(session_id) {
            Some(history) => {
                rollback(history, amount);
                true
            },
            None => false,
        };
        if found {
            assert(self@ =~= old(self)@.insert(
                session_id@,
                rolled_back(old(self)@[session_id@], amount as nat),
            ));
        } else {
            assert(self@ =~= old(self)@);
        }
        found
    }

    /// A point-in-time copy of every session, oldest session first, for
    /// writing the whole store out.
    pub fn snapshot(&self) -> (records: Vec<SessionRecord>)
        requires
            self.wf(),
        ensures
            records.len() == self.ids().len(),
            forall|i: int|
                0 <= i < records.len() ==> (#[trigger] records[i])@.session_id == self.ids()[i]
                    && records[i]@.history == Some(self@[self.ids()[i]]),
    {
        let ids = self.histories.key_list();
        let mut records: Vec<SessionRecord> = Vec::new();
        let mut i: usize = 0;
        proof {
            self.histories.lemma_keys();
        }
        while i < ids.len()
            invariant
                self.wf(),
                i <= ids.len(),
                ids.deep_view() == self.ids(),
                self.ids().to_set() == self.histories@.dom(),
                records.len() == i,
                forall|k: int|
                    0 <= k < i ==> (#[trigger] records[k])@.session_id == self.ids()[k]
                        && records[k]@.history == Some(self@[self.ids()[k]]),
            decreases ids.len() - i,
        {
            let id = &ids[i];
            assert(ids.deep_view()[i as int] == id@);
            assert(self.ids().contains(id@));
            assert(self.ids().to_set().contains(id@));
            let history = self.history(id.as_str());
            records.push(SessionRecord { session_id: id.clone(), history: Some(history) });
            i += 1;
        }
        records
    }
}

/// The history a store holds for the session, if any.
pub open spec fn session_history(sessions: Map<Seq<char>, HistoryView>, session_id: Seq<char>) -> Option<
    HistoryView,
> {
    if sessions.dom().contains(session_id) {
        Some(sessions[session_id])
    } else {
        None
    }
}

/// Why a request is turned away before it reaches the engine.
#[derive(Debug, Clone, Copy, PartialEq, Eq, Structural)]
pub enum AdmissionError {
    /// The prompt is longer than the limit, in bytes.
    PromptTooLong { limit: usize },
    /// As many sessions as the limit allows are live.
    SessionLimitExceeded { limit: usize },
    /// The key has used up its requests for the current window.
    RateLimitExceeded,
}

/// The sentence shown for a refusal.
pub open spec fn admission_error_text(error: AdmissionError) -> Seq<char> {
    match error {
        AdmissionError::PromptTooLong { limit } => "Prompt exceeds maximum length of "@
            + decimal_text(limit as nat) + " characters"@,
        AdmissionError::SessionLimitExceeded { limit } => "Maximum number of sessions ("@
            + decimal_text(limit as nat) + ") reached"@,
        AdmissionError::RateLimitExceeded => "Rate limit exceeded"@,
    }
}

/// The HTTP status a refusal is answered with: 400 for a prompt that is too
/// long, 429 where the caller is to come back later.
pub open spec fn admission_error_status(error: AdmissionError) -> u16 {
    match error {
        AdmissionError::PromptTooLong { .. } => 400,
        AdmissionError::SessionLimitExceeded { .. } => 429,
        AdmissionError::RateLimitExceeded => 429,
    }
}

impl AdmissionError {
    /// The sentence shown for this refusal.
    pub fn message(&self) -> (text: String)
        ensures
            text@ == admission_error_text(*self),
    {
        match self {
            AdmissionError::PromptTooLong { limit } => {
                let number = decimal(*limit);
                let mut text = join("Prompt exceeds maximum length of ", number.as_str());
                text.append(" characters");
                text
            },
            AdmissionError::SessionLimitExceeded { limit } => {
                let number = decimal(*limit);
                let mut text = join("Maximum number of sessions (", number.as_str());
                text.append(") reached");
                text
            },
            AdmissionError::RateLimitExceeded => "Rate limit exceeded".to_owned(),
        }
    }

    /// The HTTP status this refusal is answered with.
    pub fn status(&self) -> (code: u16)
        ensures
            code == admission_error_status(*self),
    {
        match self {
            AdmissionError::PromptTooLong { .. } => 400,
            AdmissionError::SessionLimitExceeded { .. } => 429,
            AdmissionError::RateLimitExceeded => 429,
        }
    }
}

/// The length of a text in bytes, as UTF-8.
pub open spec fn byte_length(text: Seq<char>) -> nat {
    vstd::utf8::encode_utf8(text).len()
}

/// Checks the prompt against the longest prompt allowed, in bytes.
pub fn validate_prompt_length(prompt: &str, limits: &LimitsConfig) -> (outcome: Result<
    (),
    AdmissionError,
>)
    ensures
        outcome == if byte_length(prompt@) > limits.max_prompt_length {
            Err::<(), AdmissionError>(
                AdmissionError::PromptTooLong { limit: limits.max_prompt_length },
            )
        } else {
            Ok(())
        },
{
    if prompt.as_bytes().len() > limits.max_prompt_length {
        Err(AdmissionError::PromptTooLong { limit: limits.max_prompt_length })
    } else {
        Ok(())
    }
}

/// Checks that fewer sessions are live than the limit allows.
pub fn check_session_limit(sessions: &SessionMap, limits: &LimitsConfig) -> (outcome: Result<
    (),
    AdmissionError,
>)
    requires
        sessions.wf(),
    ensures
        outcome == if sessions@.dom().len() >= limits.max_sessions {
            Err::<(), AdmissionError>(
                AdmissionError::SessionLimitExceeded { limit: limits.max_sessions },
            )
        } else {
            Ok(())
        },
{
    if sessions.len() >= limits.max_sessions {
        Err(AdmissionError::SessionLimitExceeded { limit: limits.max_sessions })
    } else {
        Ok(())
    }
}

/// A session keeps its system message in front through every turn: where
/// no message but the first carries the system role, the same holds once a
/// user turn is taken in, and once an answer is appended. A new session
/// starts that way.
pub proof fn lemma_turns_keep_system_in_front(
    existing: Option<HistoryView>,
    prompt: Seq<char>,
    response: Seq<char>,
)
    requires
        existing is Some ==> system_only_in_front(existing->0),
    ensures
        system_only_in_front(with_user_turn(existing, prompt)),
        existing is Some ==> system_only_in_front(
            existing->0.push(assistant_message(response)),
        ),
{
    reveal_strlit("system");
    reveal_strlit("user");
    reveal_strlit("assistant");
    assert("user"@.len() != "system"@.len());
    assert("assistant"@.len() != "system"@.len());
    let base = match existing {
        Some(history) => history,
        None => seq![seed_message()],
    };
    assert(system_only_in_front(base));
    let grown = base.push(user_message(prompt));
    assert forall|i: int| 0 < i < grown.len() implies (#[trigger] grown[i]).role != "system"@ by {
        if i < base.len() {
            assert(grown[i] == base[i]);
        }
    }
    lemma_system_stays_in_front(grown, MAX_HISTORY_LENGTH as nat, 0, user_message(prompt));
    if existing is Some {
        lemma_system_stays_in_front(existing->0, 1, 0, assistant_message(response));
    }
}

} // verus!

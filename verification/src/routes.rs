//! Rules the request handlers apply to a conversation history.
use vstd::prelude::*;
use crate::config::{LimitsConfig, ModelConfig, ModelConfigView};
use crate::engine::claims;
use crate::models::{ChatMessage, ChatMessageView};
use crate::state::{
    AdmissionError, HistoryView, SessionMap, byte_length, check_session_limit, session_history,
    validate_prompt_length, with_user_turn,
};
use crate::text::str_eq;

verus! {

/// Longest history kept for a session, in messages.
pub const MAX_HISTORY_LENGTH: usize = 20;

/// Whether a history opens with a system message.
pub open spec fn has_system_prompt(history: Seq<ChatMessageView>) -> bool {
    history.len() > 0 && history[0].role == "system"@
}

/// The history cut down to at most `cap` messages: a leading system message
/// always stays, and beyond it the oldest messages go first.
pub open spec fn pruned_to(history: Seq<ChatMessageView>, cap: nat) -> Seq<ChatMessageView>
    recommends
        cap >= 1,
{
    if history.len() <= cap {
        history
    } else if has_system_prompt(history) {
        seq![history[0]] + history.subrange(history.len() - (cap - 1), history.len() as int)
    } else {
        history.subrange(history.len() - cap, history.len() as int)
    }
}

/// The history cut down to [`MAX_HISTORY_LENGTH`].
pub open spec fn pruned(history: Seq<ChatMessageView>) -> Seq<ChatMessageView> {
    pruned_to(history, MAX_HISTORY_LENGTH as nat)
}

/// The history after undoing its last `amount` messages. An amount that would
/// reach the first message leaves a leading system message alone and clears
/// a history that has none.
pub open spec fn rolled_back(history: Seq<ChatMessageView>, amount: nat) -> Seq<ChatMessageView> {
    if history.len() > amount {
        history.subrange(0, history.len() - amount)
    } else if has_system_prompt(history) {
        history.subrange(0, 1)
    } else {
        Seq::empty()
    }
}

/// Whether the history opens with a system message.
pub fn starts_with_system(history: &Vec<ChatMessage>) -> (found: bool)
    ensures
        found == has_system_prompt(history.deep_view()),
{
    if history.len() == 0 {
        false
    } else {
        str_eq(history[0].role.as_str(), "system")
    }
}

/// Caps the history at [`MAX_HISTORY_LENGTH`] messages.
pub fn prune_history(history: &mut Vec<ChatMessage>)
    ensures
        final(history).deep_view() == pruned(old(history).deep_view()),
{
    let len: usize = history.len();
    if len > MAX_HISTORY_LENGTH {
        let has_system = starts_with_system(history);
        if has_system {
            let mut recent = history.split_off(len - (MAX_HISTORY_LENGTH - 1));
            history.truncate(1);
            history.append(&mut recent);
        } else {
            let recent = history.split_off(len - MAX_HISTORY_LENGTH);
            *history = recent;
        }
    }
    assert(history.deep_view() =~= pruned(old(history).deep_view()));
}

/// Undoes the last `amount` messages of the history.
pub fn rollback(history: &mut Vec<ChatMessage>, amount: usize)
    ensures
        final(history).deep_view() == rolled_back(old(history).deep_view(), amount as nat),
{
    let len: usize = history.len();
    if len > amount {
        history.truncate(len - amount);
    } else if starts_with_system(history) {
        history.truncate(1);
    } else {
        history.clear();
    }
    assert(history.deep_view() =~= rolled_back(old(history).deep_view(), amount as nat));
}

/// How many messages a rollback undoes: what the request names, and one
/// where it names nothing. A number beyond what the machine can count
/// stands for as many as it can.
pub fn rollback_amount(requested: Option<u64>) -> (amount: usize)
    ensures
        amount == match requested {
            Some(count) => if count > usize::MAX {
                usize::MAX
            } else {
                count as usize
            },
            None => 1usize,
        },
{
    match requested {
        Some(count) => if count > usize::MAX as u64 {
            usize::MAX
        } else {
            count as usize
        },
        None => 1,
    }
}

/// The token budget of a request, held to what the service allows.
pub fn clamp_max_tokens(requested: usize, limits: &LimitsConfig) -> (granted: usize)
    ensures
        granted == if requested <= limits.max_response_tokens {
            requested
        } else {
            limits.max_response_tokens
        },
{
    if requested <= limits.max_response_tokens {
        requested
    } else {
        limits.max_response_tokens
    }
}

/// What the engine is asked once a chat request has been admitted.
#[derive(Debug)]
pub struct ChatTurn {
    /// The token budget, held to what the service allows.
    pub max_token: usize,
    /// The conversation to continue, for a request that belongs to a
    /// session.
    pub messages: Option<Vec<ChatMessage>>,
}

/// Why a chat request is refused, if it is: its prompt is too long, or it
/// belongs to a session while as many sessions as allowed are live.
pub open spec fn chat_refusal(
    sessions: Map<Seq<char>, HistoryView>,
    limits: LimitsConfig,
    session_id: Option<Seq<char>>,
    prompt: Seq<char>,
) -> Option<AdmissionError> {
    if byte_length(prompt) > limits.max_prompt_length {
        Some(AdmissionError::PromptTooLong { limit: limits.max_prompt_length })
    } else if session_id is Some && sessions.dom().len() >= limits.max_sessions {
        Some(AdmissionError::SessionLimitExceeded { limit: limits.max_sessions })
    } else {
        None
    }
}

/// The sessions after a chat request was taken in: the user turn is
/// recorded in its session, if it has one.
pub open spec fn sessions_after_admission(
    sessions: Map<Seq<char>, HistoryView>,
    session_id: Option<Seq<char>>,
    prompt: Seq<char>,
) -> Map<Seq<char>, HistoryView> {
    match session_id {
        Some(id) => sessions.insert(id, with_user_turn(session_history(sessions, id), prompt)),
        None => sessions,
    }
}

/// Takes in a chat request. A refused request leaves the sessions as they
/// are. An admitted one has its user turn recorded in its session, and the
/// engine is then asked to continue that session's history within the
/// granted token budget.
pub fn admit_chat_turn(
    sessions: &mut SessionMap,
    limits: &LimitsConfig,
    session_id: Option<&str>,
    prompt: &str,
    max_token: usize,
) -> (outcome: Result<ChatTurn, AdmissionError>)
    requires
        old(sessions).wf(),
    ensures
        final(sessions).wf(),
        match outcome {
            Ok(turn) => {
                &&& chat_refusal(old(sessions)@, *limits, session_id.deep_view(), prompt@) is None
                &&& final(sessions)@ == sessions_after_admission(
                    old(sessions)@,
                    session_id.deep_view(),
                    prompt@,
                )
                &&& turn.max_token == if max_token <= limits.max_response_tokens {
                    max_token
                } else {
                    limits.max_response_tokens
                }
                &&& turn.messages.deep_view() == match session_id {
                    Some(id) => Some(final(sessions)@[id@]),
                    None => None,
                }
            },
            Err(error) => {
                &&& chat_refusal(old(sessions)@, *limits, session_id.deep_view(), prompt@) == Some(
                    error,
                )
                &&& final(sessions)@ == old(sessions)@
                &&& final(sessions).ids() == old(sessions).ids()
            },
        },
{
    match validate_prompt_length(prompt, limits) {
        Err(error) => {
            return Err(error);
        },
        Ok(_) => {},
    }
    let granted = clamp_max_tokens(max_token, limits);
    match session_id {
        Some(id) => {
            match check_session_limit(sessions, limits) {
                Err(error) => {
                    return Err(error);
                },
                Ok(_) => {},
            }
            let context = sessions.begin_turn(id, prompt);
            Ok(ChatTurn { max_token: granted, messages: Some(context) })
        },
        None => Ok(ChatTurn { max_token: granted, messages: None }),
    }
}

/// Takes in a plain completion request: the prompt is checked and the
/// token budget held to what the service allows.
pub fn admit_completion(prompt: &str, max_tokens: usize, limits: &LimitsConfig) -> (outcome: Result<
    usize,
    AdmissionError,
>)
    ensures
        outcome == if byte_length(prompt@) > limits.max_prompt_length {
            Err::<usize, AdmissionError>(
                AdmissionError::PromptTooLong { limit: limits.max_prompt_length },
            )
        } else {
            Ok(
                if max_tokens <= limits.max_response_tokens {
                    max_tokens
                } else {
                    limits.max_response_tokens
                },
            )
        },
{
    match validate_prompt_length(prompt, limits) {
        Err(error) => Err(error),
        Ok(_) => Ok(clamp_max_tokens(max_tokens, limits)),
    }
}

/// Index of the first model that answers to the selector, or -1.
pub open spec fn first_claiming(models: Seq<ModelConfigView>, selector: Seq<char>) -> int
    decreases models.len(),
{
    if models.len() == 0 {
        -1
    } else if claims(models[0], selector) {
        0
    } else {
        let later = first_claiming(models.drop_first(), selector);
        if later < 0 {
            -1
        } else {
            later + 1
        }
    }
}

/// `first_claiming` is the least index that answers to the selector.
pub proof fn lemma_first_claiming(models: Seq<ModelConfigView>, selector: Seq<char>)
    ensures
        -1 <= first_claiming(models, selector) < models.len(),
        first_claiming(models, selector) >= 0 ==> claims(
            models[first_claiming(models, selector)],
            selector,
        ),
        forall|k: int|
            0 <= k < models.len() && (k < first_claiming(models, selector) || first_claiming(
                models,
                selector,
            ) < 0) ==> !claims(#[trigger] models[k], selector),
    decreases models.len(),
{
    if models.len() > 0 && !claims(models[0], selector) {
        let rest = models.drop_first();
        lemma_first_claiming(rest, selector);
        assert forall|k: int|
            0 <= k < models.len() && (k < first_claiming(models, selector) || first_claiming(
                models,
                selector,
            ) < 0) implies !claims(#[trigger] models[k], selector) by {
            if k > 0 {
                assert(rest[k - 1] == models[k]);
            }
        }
    }
}

/// The model a client asks about: the first configured model whose
/// canonical id or display name is the selector.
pub fn find_model<'a>(models: &'a Vec<ModelConfig>, selector: &str) -> (found: Option<
    &'a ModelConfig,
>)
    ensures
        match found {
            Some(model) => first_claiming(models.deep_view(), selector@) >= 0 && model@
                == models.deep_view()[first_claiming(models.deep_view(), selector@)],
            None => first_claiming(models.deep_view(), selector@) == -1,
        },
{
    let mut i: usize = 0;
    while i < models.len()
        invariant
            i <= models.len(),
            forall|k: int| 0 <= k < i ==> !claims(#[trigger] models.deep_view()[k], selector@),
        decreases models.len() - i,
    {
        let model = &models[i];
        assert(models.deep_view()[i as int] == model@);
        if str_eq(model.id.as_str(), selector) || str_eq(model.name.as_str(), selector) {
            proof {
                lemma_first_claiming(models.deep_view(), selector@);
            }
            return Some(model);
        }
        i += 1;
    }
    proof {
        lemma_first_claiming(models.deep_view(), selector@);
    }
    None
}

/// Whether the service is ready to serve: it is once a model is available.
pub fn is_ready(models_available: usize) -> (ready: bool)
    ensures
        ready == (models_available > 0),
{
    models_available > 0
}

/// Whether no message but the first carries the system role.
pub open spec fn system_only_in_front(history: Seq<ChatMessageView>) -> bool {
    forall|i: int| 0 < i < history.len() ==> (#[trigger] history[i]).role != "system"@
}

/// A history over the cap that opens with a system message is cut to the
/// cap: the system message stays in front, followed by the most recent
/// messages in their order.
pub proof fn lemma_prune_keeps_system_and_recent(history: Seq<ChatMessageView>, cap: nat)
    requires
        cap >= 1,
        history.len() > cap,
        has_system_prompt(history),
    ensures
        pruned_to(history, cap).len() == cap,
        pruned_to(history, cap)[0] == history[0],
        forall|i: int|
            1 <= i < cap ==> #[trigger] pruned_to(history, cap)[i] == history[history.len() - cap
                + i],
{
}

/// A history over the cap that opens with anything else is cut to its most
/// recent messages, in their order.
pub proof fn lemma_prune_keeps_recent(history: Seq<ChatMessageView>, cap: nat)
    requires
        cap >= 1,
        history.len() > cap,
        !has_system_prompt(history),
    ensures
        pruned_to(history, cap).len() == cap,
        forall|i: int|
            0 <= i < cap ==> #[trigger] pruned_to(history, cap)[i] == history[history.len() - cap
                + i],
{
}

/// Pruning never leaves more than the cap, leaves a history within the cap
/// alone, and pruning twice is pruning once.
pub proof fn lemma_prune_within_cap(history: Seq<ChatMessageView>, cap: nat)
    requires
        cap >= 1,
    ensures
        pruned_to(history, cap).len() <= cap,
        history.len() <= cap ==> pruned_to(history, cap) == history,
        pruned_to(pruned_to(history, cap), cap) == pruned_to(history, cap),
{
}

/// A rollback by at least as many messages as the history holds leaves
/// exactly the system message where the history opens with one, and
/// nothing otherwise.
pub proof fn lemma_rollback_past_start(history: Seq<ChatMessageView>, amount: nat)
    requires
        amount >= history.len(),
    ensures
        rolled_back(history, amount) == if has_system_prompt(history) {
            seq![history[0]]
        } else {
            Seq::<ChatMessageView>::empty()
        },
{
    if has_system_prompt(history) {
        assert(history.subrange(0, 1) =~= seq![history[0]]);
    }
}

/// A rollback short of the whole history removes exactly its last messages.
pub proof fn lemma_rollback_removes_last(history: Seq<ChatMessageView>, amount: nat)
    requires
        amount < history.len(),
    ensures
        rolled_back(history, amount).len() == history.len() - amount,
        forall|i: int|
            0 <= i < history.len() - amount ==> #[trigger] rolled_back(history, amount)[i]
                == history[i],
{
}

/// A system message that is present stays at the front: where no message
/// but the first carries the system role, the same holds after pruning,
/// after a rollback, and after appending a message of another role.
pub proof fn lemma_system_stays_in_front(
    history: Seq<ChatMessageView>,
    cap: nat,
    amount: nat,
    appended: ChatMessageView,
)
    requires
        cap >= 1,
        system_only_in_front(history),
    ensures
        system_only_in_front(pruned_to(history, cap)),
        system_only_in_front(rolled_back(history, amount)),
        appended.role != "system"@ || history.len() == 0 ==> system_only_in_front(
            history.push(appended),
        ),
{
    let cut = pruned_to(history, cap);
    assert forall|i: int| 0 < i < cut.len() implies (#[trigger] cut[i]).role != "system"@ by {
        if history.len() > cap {
            assert(cut[i] == history[history.len() - cap + i]);
        }
    }
    let undone = rolled_back(history, amount);
    assert forall|i: int| 0 < i < undone.len() implies (#[trigger] undone[i]).role != "system"@ by {
        assert(undone[i] == history[i]);
    }
    if appended.role != "system"@ || history.len() == 0 {
        let longer = history.push(appended);
        assert forall|i: int| 0 < i < longer.len() implies (#[trigger] longer[i]).role
            != "system"@ by {
            if i < history.len() {
                assert(longer[i] == history[i]);
            }
        }
    }
}

} // verus!

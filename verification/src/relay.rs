//! The relay between an engine's token stream and the consumer.
//!
//! A relay follows one request through `Started → Streaming → {Completed |
//! Cancelled | Failed}`. The server hands it each thing the engine does and
//! sends on what the relay answers; the relay never performs the sending
//! itself.
use vstd::prelude::*;
use crate::state::{HistoryView, SessionMap, assistant_message};
use crate::text::join;

verus! {

/// Where a request stands.
#[derive(Debug, Clone, Copy, PartialEq, Eq, Structural)]
pub enum RelayPhase {
    /// Nothing has come from the engine yet.
    Started,
    /// The engine is producing and the relay is forwarding.
    Streaming,
    /// The engine finished normally.
    Completed,
    /// The session was deleted, or the consumer went away, while the engine
    /// was producing.
    Cancelled,
    /// The engine broke down while producing.
    Failed,
}

/// Whether the phase is final: nothing is forwarded from it any more.
pub open spec fn is_terminal(phase: RelayPhase) -> bool {
    phase is Completed || phase is Cancelled || phase is Failed
}

/// What the relay is told of a stream: what the engine did, or that the
/// consumer went away.
#[derive(Debug)]
pub enum UpstreamEvent {
    /// The engine produced a text fragment.
    Token(String),
    /// The engine reported an error in place of a fragment.
    EngineError(String),
    /// The engine broke down while producing the next fragment.
    Fault,
    /// The engine has nothing more to produce.
    End,
    /// The consumer went away.
    Disconnected,
}

/// Model of an [`UpstreamEvent`].
pub enum UpstreamEventView {
    Token(Seq<char>),
    EngineError(Seq<char>),
    Fault,
    End,
    Disconnected,
}

impl View for UpstreamEvent {
    type V = UpstreamEventView;

    open spec fn view(&self) -> UpstreamEventView {
        match *self {
            UpstreamEvent::Token(text) => UpstreamEventView::Token(text@),
            UpstreamEvent::EngineError(reason) => UpstreamEventView::EngineError(reason@),
            UpstreamEvent::Fault => UpstreamEventView::Fault,
            UpstreamEvent::End => UpstreamEventView::End,
            UpstreamEvent::Disconnected => UpstreamEventView::Disconnected,
        }
    }
}

impl Clone for UpstreamEvent {
    fn clone(&self) -> (copy: Self)
        ensures
            copy@ == self@,
    {
        match self {
            UpstreamEvent::Token(text) => UpstreamEvent::Token(text.clone()),
            UpstreamEvent::EngineError(reason) => UpstreamEvent::EngineError(reason.clone()),
            UpstreamEvent::Fault => UpstreamEvent::Fault,
            UpstreamEvent::End => UpstreamEvent::End,
            UpstreamEvent::Disconnected => UpstreamEvent::Disconnected,
        }
    }
}

impl DeepView for UpstreamEvent {
    type V = UpstreamEventView;

    open spec fn deep_view(&self) -> UpstreamEventView {
        self@
    }
}

/// What is sent to the consumer.
#[derive(Debug)]
pub enum Frame {
    /// A text fragment.
    Token(String),
    /// An error signal with its description.
    Error(String),
}

/// Model of a [`Frame`].
pub enum FrameView {
    Token(Seq<char>),
    Error(Seq<char>),
}

impl View for Frame {
    type V = FrameView;

    open spec fn view(&self) -> FrameView {
        match *self {
            Frame::Token(text) => FrameView::Token(text@),
            Frame::Error(reason) => FrameView::Error(reason@),
        }
    }
}

impl DeepView for Frame {
    type V = FrameView;

    open spec fn deep_view(&self) -> FrameView {
        self@
    }
}

/// The payload of a frame on the wire: a fragment goes out as it is, an
/// error signal behind the marker `__ERROR__:`.
pub open spec fn frame_payload(frame: FrameView) -> Seq<char> {
    match frame {
        FrameView::Token(text) => text,
        FrameView::Error(reason) => "__ERROR__:"@ + reason,
    }
}

impl Frame {
    /// The payload of this frame on the wire.
    pub fn data(&self) -> (payload: String)
        ensures
            payload@ == frame_payload(self@),
    {
        match self {
            Frame::Token(text) => text.clone(),
            Frame::Error(reason) => join("__ERROR__:", reason.as_str()),
        }
    }
}

/// The description sent when the engine breaks down.
pub open spec fn fault_text() -> Seq<char> {
    "Inference engine panicked"@
}

/// The description sent when the engine breaks down.
pub fn fault_message() -> (text: String)
    ensures
        text@ == fault_text(),
{
    "Inference engine panicked".to_owned()
}

/// What is reported of a breakdown: what the engine left behind where it is
/// text, and `unknown panic` otherwise.
pub fn panic_message(payload: Option<String>) -> (text: String)
    ensures
        text@ == match payload {
            Some(said) => said@,
            None => "unknown panic"@,
        },
{
    match payload {
        Some(said) => said,
        None => "unknown panic".to_owned(),
    }
}

/// Model of a [`StreamRelay`].
pub struct RelayView {
    /// The session the request belongs to, if any.
    pub session_id: Option<Seq<char>>,
    pub phase: RelayPhase,
    /// Everything forwarded so far, joined.
    pub response: Seq<char>,
    /// How many fragments were forwarded.
    pub tokens: usize,
}

/// The count of fragments after one more; it stops at the largest number.
pub open spec fn one_more(tokens: usize) -> usize {
    if tokens < usize::MAX {
        (tokens + 1) as usize
    } else {
        tokens
    }
}

/// Whether the session a relay is bound to is gone. A relay without a
/// session is never orphaned.
pub open spec fn orphaned(relay: RelayView, sessions: Map<Seq<char>, HistoryView>) -> bool {
    match relay.session_id {
        Some(id) => !sessions.dom().contains(id),
        None => false,
    }
}

/// One step of the relay: the state it moves to and the frame it sends, if
/// any.
///
/// - From a final phase nothing moves and nothing is sent.
/// - A fragment for an orphaned relay cancels the request; nothing is sent.
/// - Any other fragment is sent on and added to the response.
/// - An engine error is sent on as an error signal; the stream goes on.
/// - A breakdown is sent on as one error signal and ends the request.
/// - The end of the stream completes the request.
/// - A consumer that went away cancels it.
pub open spec fn relay_step(
    relay: RelayView,
    sessions: Map<Seq<char>, HistoryView>,
    event: UpstreamEventView,
) -> (RelayView, Option<FrameView>) {
    if is_terminal(relay.phase) {
        (relay, None)
    } else {
        match event {
            UpstreamEventView::Token(text) => {
                if orphaned(relay, sessions) {
                    (RelayView { phase: RelayPhase::Cancelled, ..relay }, None)
                } else {
                    (
                        RelayView {
                            phase: RelayPhase::Streaming,
                            response: relay.response + text,
                            tokens: one_more(relay.tokens),
                            ..relay
                        },
                        Some(FrameView::Token(text)),
                    )
                }
            },
            UpstreamEventView::EngineError(reason) => (
                RelayView { phase: RelayPhase::Streaming, ..relay },
                Some(FrameView::Error(reason)),
            ),
            UpstreamEventView::Fault => (
                RelayView { phase: RelayPhase::Failed, ..relay },
                Some(FrameView::Error(fault_text())),
            ),
            UpstreamEventView::End => (RelayView { phase: RelayPhase::Completed, ..relay }, None),
            UpstreamEventView::Disconnected => (
                RelayView { phase: RelayPhase::Cancelled, ..relay },
                None,
            ),
        }
    }
}

/// The sessions once a request is settled: a completed request that belongs
/// to a live session leaves its response there as an assistant message;
/// every other request leaves the sessions as they are.
pub open spec fn settled(relay: RelayView, sessions: Map<Seq<char>, HistoryView>) -> Map<
    Seq<char>,
    HistoryView,
> {
    match relay.session_id {
        Some(id) => if relay.phase is Completed && sessions.dom().contains(id) {
            sessions.insert(id, sessions[id].push(assistant_message(relay.response)))
        } else {
            sessions
        },
        None => sessions,
    }
}

/// Whether settling a request changes its session, which is then to be
/// written to the durable store.
pub open spec fn settles_session(relay: RelayView, sessions: Map<Seq<char>, HistoryView>) -> bool {
    match relay.session_id {
        Some(id) => relay.phase is Completed && sessions.dom().contains(id),
        None => false,
    }
}

/// The relay of one request.
pub struct StreamRelay {
    session_id: Option<String>,
    phase: RelayPhase,
    response: String,
    tokens: usize,
}

impl View for StreamRelay {
    type V = RelayView;

    closed spec fn view(&self) -> RelayView {
        RelayView {
            session_id: self.session_id.deep_view(),
            phase: self.phase,
            response: self.response@,
            tokens: self.tokens,
        }
    }
}

impl StreamRelay {
    /// A relay for a request that has just been handed to the engine.
    pub fn new(session_id: Option<String>) -> (relay: Self)
        ensures
            relay@ == (RelayView {
                session_id: session_id.deep_view(),
                phase: RelayPhase::Started,
                response: Seq::empty(),
                tokens: 0,
            }),
    {
        StreamRelay { session_id, phase: RelayPhase::Started, response: String::new(), tokens: 0 }
    }

    /// Where the request stands.
    pub fn phase(&self) -> (phase: RelayPhase)
        ensures
            phase == self@.phase,
    {
        self.phase
    }

    /// Whether the request is over: the server stops reading the engine.
    pub fn is_finished(&self) -> (over: bool)
        ensures
            over == is_terminal(self@.phase),
    {
        match self.phase {
            RelayPhase::Started => false,
            RelayPhase::Streaming => false,
            RelayPhase::Completed => true,
            RelayPhase::Cancelled => true,
            RelayPhase::Failed => true,
        }
    }

    /// How many fragments were forwarded.
    pub fn tokens(&self) -> (count: usize)
        ensures
            count == self@.tokens,
    {
        self.tokens
    }

    /// Everything forwarded so far, joined.
    pub fn response(&self) -> (text: &str)
        ensures
            text@ == self@.response,
    {
        self.response.as_str()
    }

    /// The session the request belongs to, if any.
    pub fn session_id(&self) -> (id: Option<&str>)
        ensures
            match id {
                Some(text) => self@.session_id == Some(text@),
                None => self@.session_id is None,
            },
    {
        match &self.session_id {
            Some(id) => Some(id.as_str()),
            None => None,
        }
    }

    fn is_orphaned(&self, sessions: &SessionMap) -> (gone: bool)
        requires
            sessions.wf(),
        ensures
            gone == orphaned(self@, sessions@),
    {
        match &self.session_id {
            Some(id) => !sessions.contains_key(id.as_str()),
            None => false,
        }
    }

    /// Takes in what happened upstream and answers with the frame to send
    /// to the consumer, if any.
    pub fn step(&mut self, sessions: &SessionMap, event: UpstreamEvent) -> (frame: Option<Frame>)
        requires
            sessions.wf(),
        ensures
            (final(self)@, frame.deep_view()) == relay_step(old(self)@, sessions@, event@),
    {
        if self.is_finished() {
            return None;
        }
        match event {
            UpstreamEvent::Token(text) => {
                if self.is_orphaned(sessions) {
                    self.phase = RelayPhase::Cancelled;
                    None
                } else {
                    self.phase = RelayPhase::Streaming;
                    self.response.append(text.as_str());
                    if self.tokens < usize::MAX {
                        self.tokens += 1;
                    }
                    Some(Frame::Token(text))
                }
            },
            UpstreamEvent::EngineError(reason) => {
                self.phase = RelayPhase::Streaming;
                Some(Frame::Error(reason))
            },
            UpstreamEvent::Fault => {
                self.phase = RelayPhase::Failed;
                Some(Frame::Error(fault_message()))
            },
            UpstreamEvent::End => {
                self.phase = RelayPhase::Completed;
                None
            },
            UpstreamEvent::Disconnected => {
                self.phase = RelayPhase::Cancelled;
                None
            },
        }
    }

    /// Takes in a whole stream, event by event, with the sessions as they
    /// are, and answers with the frames to send, in order.
    pub fn run(&mut self, sessions: &SessionMap, events: &Vec<UpstreamEvent>) -> (frames: Vec<Frame>)
        requires
            sessions.wf(),
        ensures
            (final(self)@, frames.deep_view()) == relay_run(
                old(self)@,
                unchanging(sessions@, events.len() as nat),
                events.deep_view(),
            ),
    {
        let mut frames: Vec<Frame> = Vec::new();
        let mut i: usize = 0;
        let ghost start = self@;
        let ghost all = events.deep_view();
        let ghost held = unchanging(sessions@, events.len() as nat);
        proof {
            assert(all.take(0) =~= Seq::<UpstreamEventView>::empty());
            assert(frames.deep_view() =~= Seq::<FrameView>::empty());
        }
        while i < events.len()
            invariant
                i <= events.len(),
                sessions.wf(),
                all == events.deep_view(),
                held == unchanging(sessions@, events.len() as nat),
                (self@, frames.deep_view()) == relay_run(start, held.take(i as int), all.take(i as int)),
            decreases events.len() - i,
        {
            let ghost before = self@;
            let ghost sent = frames.deep_view();
            let event = events[i].clone();
            assert(event@ == all[i as int]);
            let frame = self.step(sessions, event);
            match frame {
                Some(frame) => {
                    frames.push(frame);
                    assert(frames.deep_view() =~= sent.push(frame@));
                },
                None => {},
            }
            proof {
                let next = i + 1;
                lemma_run_in_two(start, held.take(next), all.take(next), i as int);
                assert(all.take(next).take(i as int) =~= all.take(i as int));
                assert(held.take(next).take(i as int) =~= held.take(i as int));
                let last_events = all.take(next).skip(i as int);
                let last_sessions = held.take(next).skip(i as int);
                assert(last_events.len() == 1);
                assert(last_events[0] == all[i as int]);
                assert(last_sessions[0] == sessions@);
                assert(last_events.drop_first().len() == 0);
                let (after, frame_view) = relay_step(before, sessions@, all[i as int]);
                assert(relay_run(after, last_sessions.drop_first(), last_events.drop_first()) == (
                    after,
                    Seq::<FrameView>::empty(),
                ));
                assert(relay_run(before, last_sessions, last_events) == (
                    after,
                    match frame_view {
                        Some(one) => seq![one] + Seq::<FrameView>::empty(),
                        None => Seq::<FrameView>::empty(),
                    },
                ));
                match frame_view {
                    Some(one) => {
                        assert(sent + (seq![one] + Seq::<FrameView>::empty()) =~= sent.push(one));
                    },
                    None => {
                        assert(sent + Seq::<FrameView>::empty() =~= sent);
                    },
                }
            }
            i += 1;
        }
        proof {
            assert(all.take(events.len() as int) =~= all);
            assert(held.take(events.len() as int) =~= held);
        }
        frames
    }

    /// Settles the request once the stream is over: a completed request
    /// that belongs to a live session leaves its response there as an
    /// assistant message. Returns whether it did, in which case the session
    /// is to be written to the durable store.
    pub fn finish(&self, sessions: &mut SessionMap) -> (persist: bool)
        requires
            old(sessions).wf(),
        ensures
            final(sessions).wf(),
            final(sessions)@ == settled(self@, old(sessions)@),
            final(sessions).ids() == old(sessions).ids(),
            persist == settles_session(self@, old(sessions)@),
    {
        match &self.session_id {
            Some(id) => {
                match self.phase {
                    RelayPhase::Completed => sessions.complete_turn(
                        id.as_str(),
                        self.response.as_str(),
                    ),
                    _ => false,
                }
            },
            None => false,
        }
    }
}

/// The sessions as the relay finds them at each event of a stream.
pub type SessionsOverTime = Seq<Map<Seq<char>, HistoryView>>;

/// A whole stream through the relay: the state it ends in and the frames
/// it sends, in order. The relay sees the sessions as they are at each
/// event.
pub open spec fn relay_run(
    relay: RelayView,
    sessions: SessionsOverTime,
    events: Seq<UpstreamEventView>,
) -> (RelayView, Seq<FrameView>)
    decreases events.len(),
{
    if events.len() == 0 {
        (relay, Seq::empty())
    } else {
        let (next, frame) = relay_step(relay, sessions[0], events[0]);
        let (last, rest) = relay_run(next, sessions.drop_first(), events.drop_first());
        (
            last,
            match frame {
                Some(sent) => seq![sent] + rest,
                None => rest,
            },
        )
    }
}

/// The same sessions at each of `count` events.
pub open spec fn unchanging(sessions: Map<Seq<char>, HistoryView>, count: nat) -> SessionsOverTime {
    Seq::new(count, |i: int| sessions)
}

/// From a final phase the relay sends nothing and stays as it is, whatever
/// still comes.
pub proof fn lemma_final_phase_is_silent(
    relay: RelayView,
    sessions: SessionsOverTime,
    events: Seq<UpstreamEventView>,
)
    requires
        is_terminal(relay.phase),
    ensures
        relay_run(relay, sessions, events) == (relay, Seq::<FrameView>::empty()),
    decreases events.len(),
{
    if events.len() > 0 {
        lemma_final_phase_is_silent(relay, sessions.drop_first(), events.drop_first());
    }
}

/// A stream can be cut anywhere: running it whole is running its head and
/// then its tail from where the head ended.
pub proof fn lemma_run_in_two(
    relay: RelayView,
    sessions: SessionsOverTime,
    events: Seq<UpstreamEventView>,
    at: int,
)
    requires
        0 <= at <= events.len(),
        sessions.len() == events.len(),
    ensures
        relay_run(relay, sessions, events) == ({
            let (middle, head) = relay_run(relay, sessions.take(at), events.take(at));
            let (last, tail) = relay_run(middle, sessions.skip(at), events.skip(at));
            (last, head + tail)
        }),
    decreases at,
{
    if at == 0 {
        assert(events.take(0) =~= Seq::<UpstreamEventView>::empty());
        assert(events.skip(0) =~= events);
        assert(sessions.skip(0) =~= sessions);
        let (last, tail) = relay_run(relay, sessions, events);
        assert(Seq::<FrameView>::empty() + tail =~= tail);
    } else {
        let (next, frame) = relay_step(relay, sessions[0], events[0]);
        lemma_run_in_two(next, sessions.drop_first(), events.drop_first(), at - 1);
        assert(events.take(at).drop_first() =~= events.drop_first().take(at - 1));
        assert(sessions.take(at).drop_first() =~= sessions.drop_first().take(at - 1));
        assert(events.drop_first().skip(at - 1) =~= events.skip(at));
        assert(sessions.drop_first().skip(at - 1) =~= sessions.skip(at));
        assert(events.take(at)[0] == events[0]);
        assert(sessions.take(at)[0] == sessions[0]);
        let (middle, head_rest) = relay_run(
            next,
            sessions.drop_first().take(at - 1),
            events.drop_first().take(at - 1),
        );
        let (last, tail) = relay_run(middle, sessions.skip(at), events.skip(at));
        match frame {
            Some(sent) => {
                assert((seq![sent] + head_rest) + tail =~= seq![sent] + (head_rest + tail));
            },
            None => {},
        }
    }
}

/// A stream whose session is deleted under it stops there. Where the
/// fragment number `at` finds the session of the relay gone, the consumer
/// gets what was sent before that fragment and nothing after it, the
/// request ends cancelled, and settling it writes no assistant message.
pub proof fn lemma_deleted_session_stops_stream(
    relay: RelayView,
    sessions: SessionsOverTime,
    events: Seq<UpstreamEventView>,
    at: int,
    later: Map<Seq<char>, HistoryView>,
)
    requires
        sessions.len() == events.len(),
        0 <= at < events.len(),
        events[at] is Token,
        !is_terminal(relay_run(relay, sessions.take(at), events.take(at)).0.phase),
        orphaned(relay, sessions[at]),
    ensures
        relay_run(relay, sessions, events).1 == relay_run(
            relay,
            sessions.take(at),
            events.take(at),
        ).1,
        relay_run(relay, sessions, events).0.phase is Cancelled,
        settled(relay_run(relay, sessions, events).0, later) == later,
        !settles_session(relay_run(relay, sessions, events).0, later),
{
    lemma_run_in_two(relay, sessions, events, at);
    let (middle, head) = relay_run(relay, sessions.take(at), events.take(at));
    lemma_session_is_kept(relay, sessions.take(at), events.take(at));
    let tail_sessions = sessions.skip(at);
    let tail_events = events.skip(at);
    assert(tail_events[0] == events[at]);
    assert(tail_sessions[0] == sessions[at]);
    let (next, frame) = relay_step(middle, tail_sessions[0], tail_events[0]);
    assert(next.phase is Cancelled && frame is None);
    lemma_final_phase_is_silent(next, tail_sessions.drop_first(), tail_events.drop_first());
    assert(head + Seq::<FrameView>::empty() =~= head);
}

/// A relay belongs to the same session from its first event to its last.
pub proof fn lemma_session_is_kept(
    relay: RelayView,
    sessions: SessionsOverTime,
    events: Seq<UpstreamEventView>,
)
    ensures
        relay_run(relay, sessions, events).0.session_id == relay.session_id,
    decreases events.len(),
{
    if events.len() > 0 {
        let (next, frame) = relay_step(relay, sessions[0], events[0]);
        lemma_session_is_kept(next, sessions.drop_first(), events.drop_first());
    }
}

/// A breakdown of the engine reaches the consumer as exactly one error
/// signal, and as the last thing it gets. Where the event number `at` is a
/// breakdown, the consumer gets what was sent before it, then the one
/// signal, then nothing; the request ends failed, and settling it leaves
/// every session as it was.
pub proof fn lemma_fault_gives_one_terminal_error(
    relay: RelayView,
    sessions: SessionsOverTime,
    events: Seq<UpstreamEventView>,
    at: int,
    later: Map<Seq<char>, HistoryView>,
)
    requires
        sessions.len() == events.len(),
        0 <= at < events.len(),
        events[at] is Fault,
        !is_terminal(relay_run(relay, sessions.take(at), events.take(at)).0.phase),
    ensures
        relay_run(relay, sessions, events).1 == relay_run(
            relay,
            sessions.take(at),
            events.take(at),
        ).1.push(FrameView::Error(fault_text())),
        relay_run(relay, sessions, events).0.phase is Failed,
        settled(relay_run(relay, sessions, events).0, later) == later,
{
    lemma_run_in_two(relay, sessions, events, at);
    let (middle, head) = relay_run(relay, sessions.take(at), events.take(at));
    let tail_sessions = sessions.skip(at);
    let tail_events = events.skip(at);
    assert(tail_events[0] == events[at]);
    let (next, frame) = relay_step(middle, tail_sessions[0], tail_events[0]);
    assert(next.phase is Failed);
    lemma_final_phase_is_silent(next, tail_sessions.drop_first(), tail_events.drop_first());
    let signal = FrameView::Error(fault_text());
    assert(seq![signal] + Seq::<FrameView>::empty() =~= seq![signal]);
    assert(head + seq![signal] =~= head.push(signal));
}

/// Settling a request touches no session but its own.
pub proof fn lemma_settling_leaves_other_sessions(
    relay: RelayView,
    sessions: Map<Seq<char>, HistoryView>,
    other: Seq<char>,
)
    requires
        relay.session_id != Some(other),
    ensures
        settled(relay, sessions).dom().contains(other) == sessions.dom().contains(other),
        sessions.dom().contains(other) ==> settled(relay, sessions)[other] == sessions[other],
{
}

/// The response a relay holds is what it forwarded: after any stream, it is
/// what it held before, followed by the fragments it sent, joined in order.
/// This is what a completed request writes to its session.
pub proof fn lemma_response_is_what_was_forwarded(
    relay: RelayView,
    sessions: SessionsOverTime,
    events: Seq<UpstreamEventView>,
)
    requires
        sessions.len() == events.len(),
        !is_terminal(relay.phase),
    ensures
        relay_run(relay, sessions, events).0.response == relay.response + forwarded_text(
            relay_run(relay, sessions, events).1,
        ),
    decreases events.len(),
{
    if events.len() == 0 {
        assert(relay.response + Seq::<char>::empty() =~= relay.response);
    } else {
        let (next, frame) = relay_step(relay, sessions[0], events[0]);
        let (last, rest) = relay_run(next, sessions.drop_first(), events.drop_first());
        if is_terminal(next.phase) {
            lemma_final_phase_is_silent(next, sessions.drop_first(), events.drop_first());
        } else {
            lemma_response_is_what_was_forwarded(next, sessions.drop_first(), events.drop_first());
        }
        match frame {
            Some(sent) => {
                let all = seq![sent] + rest;
                assert(all.drop_first() =~= rest);
                assert(all[0] == sent);
                match sent {
                    FrameView::Token(text) => {
                        assert((relay.response + text) + forwarded_text(rest) =~= relay.response
                            + (text + forwarded_text(rest)));
                    },
                    FrameView::Error(_) => {},
                }
            },
            None => {
                if is_terminal(next.phase) {
                    assert(relay.response + Seq::<char>::empty() =~= relay.response);
                }
            },
        }
    }
}

/// The fragments among the frames, joined in order.
pub open spec fn forwarded_text(frames: Seq<FrameView>) -> Seq<char>
    decreases frames.len(),
{
    if frames.len() == 0 {
        Seq::empty()
    } else {
        match frames[0] {
            FrameView::Token(text) => text + forwarded_text(frames.drop_first()),
            FrameView::Error(_) => forwarded_text(frames.drop_first()),
        }
    }
}

} // verus!

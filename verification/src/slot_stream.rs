//! The engine's answer to one request: its events, folded into a completion.

use crate::chat::{calls_view, ToolCall, ToolCallV};
use crate::json;
use crate::json::{json_of, JsonNumber, JsonV};
use crate::slots::{pending_view, record_pending_tools, recorded, texts, turn_of, PendingToolTurn};
use vstd::prelude::*;

verus! {

/// Why generation ended.
#[derive(Debug, PartialEq, Eq)]
pub enum FinishReason {
    Stop,
    Length,
    ToolCalls,
    /// What the emitter says.
    Emitter(String),
}

impl FinishReason {
    /// The reason's text.
    pub open spec fn text(&self) -> Seq<char> {
        match self {
            FinishReason::Stop => "stop"@,
            FinishReason::Length => "length"@,
            FinishReason::ToolCalls => "tool_calls"@,
            FinishReason::Emitter(s) => s@,
        }
    }

    /// The reason's text.
    pub fn as_text(&self) -> (r: String)
        ensures
            r@ == self.text(),
    {
        match self {
            FinishReason::Stop => "stop".to_owned(),
            FinishReason::Length => "length".to_owned(),
            FinishReason::ToolCalls => "tool_calls".to_owned(),
            FinishReason::Emitter(s) => s.clone(),
        }
    }
}

/// An event of the slot engine.
#[derive(Debug, PartialEq, Eq)]
pub enum SlotEvent {
    /// The request has a session; so many prompt tokens were reused and prefilled.
    Accepted { session: u64, reused: usize, prefill: usize },
    /// The next token.
    Token { id: u32 },
    /// Generation is over, at the token limit or otherwise.
    Done { at_limit: bool, generated: usize },
    /// The engine took no part of the request.
    Rejected { reason: String },
}

/// What the request waits for, or what came instead.
#[derive(Debug, PartialEq, Eq)]
pub enum SlotInput {
    /// The client has gone.
    Cancelled,
    /// Nothing came in time.
    Timeout,
    /// The engine sends no more.
    Disconnected,
    /// An event.
    Event(SlotEvent),
}

/// Why a request ends without a completion.
#[derive(Debug, PartialEq, Eq)]
pub enum SlotFailure {
    Cancelled,
    Rejected(String),
}

impl SlotFailure {
    /// The failure's text.
    pub open spec fn text(&self) -> Seq<char> {
        match self {
            SlotFailure::Cancelled => "cancelled"@,
            SlotFailure::Rejected(reason) => "multi_slot rejected: "@ + reason@,
        }
    }

    /// The failure's text.
    pub fn message(&self) -> (r: String)
        ensures
            r@ == self.text(),
    {
        match self {
            SlotFailure::Cancelled => "cancelled".to_owned(),
            SlotFailure::Rejected(reason) => {
                let mut s = "multi_slot rejected: ".to_owned();
                s.append(reason.as_str());
                s
            },
        }
    }
}

/// What to do next.
#[derive(Debug, PartialEq, Eq)]
pub enum SlotAction {
    /// Wait for more.
    Wait,
    /// Hand the first token to the emitter.
    Begin(u32),
    /// Hand a later token to the emitter.
    Observe(u32),
    /// Close the emitter and complete.
    Finish,
    /// Give up.
    Fail(SlotFailure),
}

/// What the emitter makes of tokens.
#[derive(Debug, PartialEq, Eq)]
pub enum ClientEvent {
    /// Text of the answer.
    Token(String),
    /// Text of the reasoning.
    Reasoning(String),
    /// Complete tool calls.
    ToolCalls(Vec<ToolCall>),
    /// A mark that the client does not see.
    Committed,
}

/// A text that is sent to the client as it comes.
#[derive(Debug, PartialEq, Eq)]
pub enum Notice {
    Token(String),
    Reasoning(String),
}

/// What the client is sent.
pub open spec fn event_of(notice: NoticeV) -> JsonV {
    let (kind, text) = match notice {
        NoticeV::Token(s) => ("token"@, s),
        NoticeV::Reasoning(s) => ("reasoning"@, s),
    };
    JsonV::Object(
        Map::empty().insert("type"@, JsonV::Str(kind)).insert("text"@, JsonV::Str(text)),
    )
}

impl Notice {
    /// What the client is sent.
    pub fn event(&self) -> (r: serde_json::Value)
        ensures
            json_of(r) == event_of(self@),
    {
        let mut v = json::empty_object();
        match self {
            Notice::Token(s) => {
                json::insert(&mut v, "type", json::string("token"));
                json::insert(&mut v, "text", json::string(s.as_str()));
            },
            Notice::Reasoning(s) => {
                json::insert(&mut v, "type", json::string("reasoning"));
                json::insert(&mut v, "text", json::string(s.as_str()));
            },
        }
        v
    }
}

/// What the emitter's events hold.
pub enum ClientEventV {
    Token(Seq<char>),
    Reasoning(Seq<char>),
    ToolCalls(Seq<ToolCallV>),
    Committed,
}

/// What a notice holds.
pub enum NoticeV {
    Token(Seq<char>),
    Reasoning(Seq<char>),
}

impl View for ClientEvent {
    type V = ClientEventV;

    open spec fn view(&self) -> ClientEventV {
        match self {
            ClientEvent::Token(s) => ClientEventV::Token(s@),
            ClientEvent::Reasoning(s) => ClientEventV::Reasoning(s@),
            ClientEvent::ToolCalls(c) => ClientEventV::ToolCalls(calls_view(c@)),
            ClientEvent::Committed => ClientEventV::Committed,
        }
    }
}

impl View for Notice {
    type V = NoticeV;

    open spec fn view(&self) -> NoticeV {
        match self {
            Notice::Token(s) => NoticeV::Token(s@),
            Notice::Reasoning(s) => NoticeV::Reasoning(s@),
        }
    }
}

/// What each of several events holds.
pub open spec fn events_view(events: Seq<ClientEvent>) -> Seq<ClientEventV> {
    events.map_values(|e: ClientEvent| e@)
}

/// What each of several notices holds.
pub open spec fn notices_view(notices: Seq<Notice>) -> Seq<NoticeV> {
    notices.map_values(|n: Notice| n@)
}

/// The answer's text in a row of events.
pub open spec fn content_of(events: Seq<ClientEventV>) -> Seq<char>
    decreases events.len(),
{
    if events.len() == 0 {
        Seq::empty()
    } else {
        content_of(events.drop_last()) + match events.last() {
            ClientEventV::Token(s) => s,
            _ => Seq::empty(),
        }
    }
}

/// The reasoning's text in a row of events.
pub open spec fn reasoning_of(events: Seq<ClientEventV>) -> Seq<char>
    decreases events.len(),
{
    if events.len() == 0 {
        Seq::empty()
    } else {
        reasoning_of(events.drop_last()) + match events.last() {
            ClientEventV::Reasoning(s) => s,
            _ => Seq::empty(),
        }
    }
}

/// The tool calls in a row of events.
pub open spec fn calls_of(events: Seq<ClientEventV>) -> Seq<ToolCallV>
    decreases events.len(),
{
    if events.len() == 0 {
        Seq::empty()
    } else {
        calls_of(events.drop_last()) + match events.last() {
            ClientEventV::ToolCalls(c) => c,
            _ => Seq::empty(),
        }
    }
}

/// What the client is sent of a row of events: the texts, in order.
pub open spec fn notices_of(events: Seq<ClientEventV>) -> Seq<NoticeV>
    decreases events.len(),
{
    if events.len() == 0 {
        Seq::empty()
    } else {
        notices_of(events.drop_last()) + match events.last() {
            ClientEventV::Token(s) => seq![NoticeV::Token(s)],
            ClientEventV::Reasoning(s) => seq![NoticeV::Reasoning(s)],
            _ => Seq::empty(),
        }
    }
}

/// The emitter's last word.
#[derive(Debug, PartialEq, Eq)]
pub struct EmitSummary {
    pub events: Vec<ClientEvent>,
    /// How many complete calls the emitter counts.
    pub tool_calls: usize,
    pub finish_reason: String,
}

/// A completed request.
#[derive(Debug, PartialEq, Eq)]
pub struct Completion {
    pub id: String,
    pub created: u64,
    pub model: String,
    pub content: String,
    pub reasoning_content: String,
    pub preserve_thinking: bool,
    pub tool_calls: Vec<ToolCall>,
    pub done: serde_json::Value,
    /// Slots give none.
    pub logprobs: Option<serde_json::Value>,
}

/// What has come of a request so far.
#[derive(Debug, PartialEq, Eq)]
pub struct SlotStream {
    pub content: String,
    pub reasoning_content: String,
    pub tool_calls: Vec<ToolCall>,
    pub finish: FinishReason,
    pub cached_tokens: usize,
    pub prefill_tokens: usize,
    pub generated_tokens: usize,
    pub session: Option<u64>,
    pub first_token: bool,
}

impl SlotStream {
    /// Nothing has come yet.
    pub fn new() -> (r: SlotStream)
        ensures
            r.content@ == Seq::<char>::empty(),
            r.reasoning_content@ == Seq::<char>::empty(),
            r.tool_calls@ == Seq::<ToolCall>::empty(),
            r.finish == FinishReason::Stop,
            r.cached_tokens == 0,
            r.prefill_tokens == 0,
            r.generated_tokens == 0,
            r.session is None,
            r.first_token,
    {
        SlotStream {
            content: String::new(),
            reasoning_content: String::new(),
            tool_calls: Vec::new(),
            finish: FinishReason::Stop,
            cached_tokens: 0,
            prefill_tokens: 0,
            generated_tokens: 0,
            session: None,
            first_token: true,
        }
    }

    /// The stream after an input.
    pub open spec fn after(self, input: SlotInput) -> SlotStream {
        match input {
            SlotInput::Event(SlotEvent::Accepted { session, reused, prefill }) => SlotStream {
                session: Some(session),
                cached_tokens: reused,
                prefill_tokens: prefill,
                ..self
            },
            SlotInput::Event(SlotEvent::Token { .. }) => SlotStream { first_token: false, ..self },
            SlotInput::Event(SlotEvent::Done { at_limit, generated }) => SlotStream {
                finish: if at_limit {
                    FinishReason::Length
                } else {
                    FinishReason::Stop
                },
                generated_tokens: generated,
                ..self
            },
            _ => self,
        }
    }

    /// What follows an input.
    pub open spec fn action(self, input: SlotInput) -> SlotAction {
        match input {
            SlotInput::Cancelled => SlotAction::Fail(SlotFailure::Cancelled),
            SlotInput::Timeout => SlotAction::Wait,
            SlotInput::Disconnected => SlotAction::Finish,
            SlotInput::Event(SlotEvent::Accepted { .. }) => SlotAction::Wait,
            SlotInput::Event(SlotEvent::Token { id }) => if self.first_token {
                SlotAction::Begin(id)
            } else {
                SlotAction::Observe(id)
            },
            SlotInput::Event(SlotEvent::Done { .. }) => SlotAction::Finish,
            SlotInput::Event(SlotEvent::Rejected { reason }) => SlotAction::Fail(
                SlotFailure::Rejected(reason),
            ),
        }
    }

    /// Takes in what came and says what to do next.
    pub fn step(&mut self, input: SlotInput) -> (r: SlotAction)
        ensures
            *final(self) == old(self).after(input),
            r == old(self).action(input),
    {
        match input {
            SlotInput::Cancelled => SlotAction::Fail(SlotFailure::Cancelled),
            SlotInput::Timeout => SlotAction::Wait,
            SlotInput::Disconnected => SlotAction::Finish,
            SlotInput::Event(event) => match event {
                SlotEvent::Accepted { session, reused, prefill } => {
                    self.session = Some(session);
                    self.cached_tokens = reused;
                    self.prefill_tokens = prefill;
                    SlotAction::Wait
                },
                SlotEvent::Token { id } => {
                    if self.first_token {
                        self.first_token = false;
                        SlotAction::Begin(id)
                    } else {
                        SlotAction::Observe(id)
                    }
                },
                SlotEvent::Done { at_limit, generated } => {
                    self.finish = if at_limit {
                        FinishReason::Length
                    } else {
                        FinishReason::Stop
                    };
                    self.generated_tokens = generated;
                    SlotAction::Finish
                },
                SlotEvent::Rejected { reason } => SlotAction::Fail(SlotFailure::Rejected(reason)),
            },
        }
    }

    /// Takes in what the emitter made of a token; gives what the client is sent.
    pub fn absorb(&mut self, events: Vec<ClientEvent>) -> (out: Vec<Notice>)
        ensures
            final(self).content@ == old(self).content@ + content_of(events_view(events@)),
            final(self).reasoning_content@ == old(self).reasoning_content@ + reasoning_of(
                events_view(events@),
            ),
            calls_view(final(self).tool_calls@) == calls_view(old(self).tool_calls@) + calls_of(
                events_view(events@),
            ),
            notices_view(out@) == notices_of(events_view(events@)),
            final(self).finish == old(self).finish,
            final(self).cached_tokens == old(self).cached_tokens,
            final(self).prefill_tokens == old(self).prefill_tokens,
            final(self).generated_tokens == old(self).generated_tokens,
            final(self).session == old(self).session,
            final(self).first_token == old(self).first_token,
    {
        let ghost all = events_view(events@);
        let ghost before = *self;
        let mut rest = events;
        let mut out: Vec<Notice> = Vec::new();
        let ghost mut k: int = 0;
        assert(all.subrange(0, 0) =~= Seq::<ClientEventV>::empty());
        assert(all.subrange(0, all.len() as int) =~= all);
        assert(self.content@ =~= before.content@ + content_of(all.subrange(0, 0)));
        assert(self.reasoning_content@ =~= before.reasoning_content@ + reasoning_of(
            all.subrange(0, 0),
        ));
        assert(calls_view(self.tool_calls@) =~= calls_view(before.tool_calls@) + calls_of(
            all.subrange(0, 0),
        ));
        assert(notices_view(out@) =~= notices_of(all.subrange(0, 0)));
        while rest.len() > 0
            invariant
                0 <= k <= all.len(),
                rest@.len() == all.len() - k,
                events_view(rest@) == all.subrange(k, all.len() as int),
                self.content@ == before.content@ + content_of(all.subrange(0, k)),
                self.reasoning_content@ == before.reasoning_content@ + reasoning_of(
                    all.subrange(0, k),
                ),
                calls_view(self.tool_calls@) == calls_view(before.tool_calls@) + calls_of(
                    all.subrange(0, k),
                ),
                notices_view(out@) == notices_of(all.subrange(0, k)),
                self.finish == before.finish,
                self.cached_tokens == before.cached_tokens,
                self.prefill_tokens == before.prefill_tokens,
                self.generated_tokens == before.generated_tokens,
                self.session == before.session,
                self.first_token == before.first_token,
            decreases rest.len(),
        {
            let ghost rv = events_view(rest@);
            let ghost pre = all.subrange(0, k + 1);
            let ghost sent = out@;
            let ghost had = self.tool_calls@;
            assert(pre.drop_last() =~= all.subrange(0, k));
            let event = rest.remove(0);
            assert(event@ == rv[0]);
            assert(pre.last() == event@);
            assert(events_view(rest@) =~= rv.remove(0));
            assert(events_view(rest@) =~= all.subrange(k + 1, all.len() as int));
            match event {
                ClientEvent::Token(s) => {
                    self.content.append(s.as_str());
                    let ghost n = s@;
                    out.push(Notice::Token(s));
                    assert(notices_view(out@) =~= notices_view(sent) + seq![NoticeV::Token(n)]);
                },
                ClientEvent::Reasoning(s) => {
                    self.reasoning_content.append(s.as_str());
                    let ghost n = s@;
                    out.push(Notice::Reasoning(s));
                    assert(notices_view(out@) =~= notices_view(sent) + seq![
                        NoticeV::Reasoning(n),
                    ]);
                },
                ClientEvent::ToolCalls(calls) => {
                    let ghost new = calls@;
                    let mut calls = calls;
                    self.tool_calls.append(&mut calls);
                    assert(calls_view(self.tool_calls@) =~= calls_view(had) + calls_view(new));
                },
                ClientEvent::Committed => {},
            }
            proof {
                k = k + 1;
                assert(self.content@ =~= before.content@ + content_of(pre));
                assert(self.reasoning_content@ =~= before.reasoning_content@ + reasoning_of(pre));
                assert(calls_view(self.tool_calls@) =~= calls_view(before.tool_calls@) + calls_of(
                    pre,
                ));
                assert(notices_view(out@) =~= notices_of(pre));
            }
        }
        out
    }

    /// Takes in whether the emitter stops the turn; where it does, the tokens
    /// that it streamed are those generated.
    pub fn observed(&mut self, stop: bool, streamed: usize) -> (r: SlotAction)
        ensures
            *final(self) == (if stop {
                SlotStream { generated_tokens: streamed, ..*old(self) }
            } else {
                *old(self)
            }),
            r == (if stop {
                SlotAction::Finish
            } else {
                SlotAction::Wait
            }),
    {
        if stop {
            self.generated_tokens = streamed;
            SlotAction::Finish
        } else {
            SlotAction::Wait
        }
    }

    /// The reason that the client is given: complete tool calls win; a pure
    /// token-limit exit stays one; otherwise the emitter's verdict counts.
    pub open spec fn finish_of(
        self,
        counted_calls: int,
        has_calls: bool,
        verdict: Seq<char>,
    ) -> Seq<char> {
        if counted_calls > 0 && has_calls {
            "tool_calls"@
        } else if self.finish is Length {
            "length"@
        } else {
            verdict
        }
    }

    /// Takes in the emitter's last word.
    pub fn close(&mut self, summary: EmitSummary) -> (out: Vec<Notice>)
        ensures
            final(self).content@ == old(self).content@ + content_of(events_view(summary.events@)),
            final(self).reasoning_content@ == old(self).reasoning_content@ + reasoning_of(
                events_view(summary.events@),
            ),
            calls_view(final(self).tool_calls@) == calls_view(old(self).tool_calls@) + calls_of(
                events_view(summary.events@),
            ),
            notices_view(out@) == notices_of(events_view(summary.events@)),
            final(self).finish.text() == old(self).finish_of(
                summary.tool_calls as int,
                final(self).tool_calls@.len() > 0,
                summary.finish_reason@,
            ),
            final(self).cached_tokens == old(self).cached_tokens,
            final(self).prefill_tokens == old(self).prefill_tokens,
            final(self).generated_tokens == old(self).generated_tokens,
            final(self).session == old(self).session,
            final(self).first_token == old(self).first_token,
    {
        let EmitSummary { events, tool_calls, finish_reason } = summary;
        let out = self.absorb(events);
        if tool_calls > 0 && self.tool_calls.len() > 0 {
            self.finish = FinishReason::ToolCalls;
        } else {
            let limited = match self.finish {
                FinishReason::Length => true,
                _ => false,
            };
            if !limited {
                self.finish = FinishReason::Emitter(finish_reason);
            }
        }
        out
    }

    /// The completion's last word: why it ended, and how many tokens it took.
    pub open spec fn summary(&self) -> JsonV {
        JsonV::Object(
            Map::empty().insert("finish_reason"@, JsonV::Str(self.finish.text())).insert(
                "cached_tokens"@,
                JsonV::Number(JsonNumber::Unsigned(self.cached_tokens as u64)),
            ).insert(
                "prefill_tokens"@,
                JsonV::Number(JsonNumber::Unsigned(self.prefill_tokens as u64)),
            ).insert(
                "tokens"@,
                JsonV::Number(JsonNumber::Unsigned(self.generated_tokens as u64)),
            ),
        )
    }

    /// The completion's last word.
    pub fn done(&self) -> (r: serde_json::Value)
        ensures
            json_of(r) == self.summary(),
    {
        let reason = self.finish.as_text();
        let mut v = json::empty_object();
        json::insert(&mut v, "finish_reason", json::string(reason.as_str()));
        json::insert(&mut v, "cached_tokens", json::integer(self.cached_tokens as u64));
        json::insert(&mut v, "prefill_tokens", json::integer(self.prefill_tokens as u64));
        json::insert(&mut v, "tokens", json::integer(self.generated_tokens as u64));
        v
    }

    /// Remembers what the session left unanswered, where there is a session.
    pub fn remember(
        &self,
        pending: &mut Vec<PendingToolTurn>,
        convo: &Vec<u64>,
        ids: &Vec<String>,
    )
        ensures
            pending_view(final(pending)@) == match self.session {
                Some(session) => recorded(
                    pending_view(old(pending)@),
                    turn_of(session, convo@, calls_view(self.tool_calls@), texts(ids@)),
                    self.tool_calls@.len(),
                ),
                None => pending_view(old(pending)@),
            },
    {
        match self.session {
            Some(session) => record_pending_tools(pending, session, convo, &self.tool_calls, ids),
            None => {},
        }
    }

    /// The completion, once the request's choice of tools has been applied to the
    /// calls and the last word, or why that choice refuses them.
    pub fn complete(
        self,
        id: &str,
        created: u64,
        model: String,
        chosen: Result<(Vec<ToolCall>, serde_json::Value), String>,
    ) -> (r: Result<Completion, String>)
        ensures
            match chosen {
                Err(why) => r == Err::<Completion, String>(why),
                Ok((calls, done)) => r is Ok && {
                    let c = r->Ok_0;
                    &&& c.id@ == id@
                    &&& c.created == created
                    &&& c.model == model
                    &&& c.content == self.content
                    &&& c.reasoning_content == self.reasoning_content
                    &&& !c.preserve_thinking
                    &&& c.tool_calls == calls
                    &&& c.done == done
                    &&& c.logprobs is None
                },
            },
    {
        let (tool_calls, done) = match chosen {
            Ok(c) => c,
            Err(why) => {
                return Err(why);
            },
        };
        Ok(
            Completion {
                id: id.to_owned(),
                created,
                model,
                content: self.content,
                reasoning_content: self.reasoning_content,
                preserve_thinking: false,
                tool_calls,
                done,
                logprobs: None,
            },
        )
    }
}

impl SlotStream {
    /// The stream after several inputs, the first of them first.
    pub open spec fn after_all(self, inputs: Seq<SlotInput>) -> SlotStream
        decreases inputs.len(),
    {
        if inputs.len() == 0 {
            self
        } else {
            self.after_all(inputs.drop_last()).after(inputs.last())
        }
    }
}

/// Whether an input says that generation is over.
pub open spec fn is_done(input: SlotInput) -> bool {
    input matches SlotInput::Event(SlotEvent::Done { .. })
}

/// Whether an input says that the request has a session.
pub open spec fn is_accepted(input: SlotInput) -> bool {
    input matches SlotInput::Event(SlotEvent::Accepted { .. })
}

/// Whether an input is a token.
pub open spec fn is_token(input: SlotInput) -> bool {
    input matches SlotInput::Event(SlotEvent::Token { .. })
}

proof fn reason_is_kept(start: SlotStream, inputs: Seq<SlotInput>)
    requires
        forall|i: int| 0 <= i < inputs.len() ==> !is_done(#[trigger] inputs[i]),
    ensures
        start.after_all(inputs).finish == start.finish,
        start.after_all(inputs).generated_tokens == start.generated_tokens,
    decreases inputs.len(),
{
    if inputs.len() > 0 {
        let init = inputs.drop_last();
        assert forall|i: int| 0 <= i < init.len() implies !is_done(#[trigger] init[i]) by {
            assert(init[i] == inputs[i]);
        }
        reason_is_kept(start, init);
        assert(!is_done(inputs[inputs.len() - 1]));
    }
}

/// A stream that began with no reason, whatever came before it ended, is given
/// the reason "length" where its last event said that the token limit was
/// reached, and the emitter's verdict where it did not or where none came;
/// complete tool calls go before either.
pub proof fn limit_is_the_reason_where_it_was_reached(
    start: SlotStream,
    inputs: Seq<SlotInput>,
    at_limit: bool,
    generated: usize,
    counted_calls: int,
    has_calls: bool,
    verdict: Seq<char>,
)
    requires
        start.finish is Stop,
        forall|i: int| 0 <= i < inputs.len() ==> !is_done(#[trigger] inputs[i]),
    ensures
        ({
            let ended = start.after_all(
                inputs.push(SlotInput::Event(SlotEvent::Done { at_limit, generated })),
            );
            let cut = start.after_all(inputs);
            &&& counted_calls > 0 && has_calls ==> {
                &&& ended.finish_of(counted_calls, has_calls, verdict) == "tool_calls"@
                &&& cut.finish_of(counted_calls, has_calls, verdict) == "tool_calls"@
            }
            &&& counted_calls <= 0 || !has_calls ==> {
                &&& at_limit ==> ended.finish_of(counted_calls, has_calls, verdict) == "length"@
                &&& !at_limit ==> ended.finish_of(counted_calls, has_calls, verdict) == verdict
                &&& cut.finish_of(counted_calls, has_calls, verdict) == verdict
            }
            &&& ended.generated_tokens == generated
            &&& cut.generated_tokens == start.generated_tokens
        }),
{
    let done = SlotInput::Event(SlotEvent::Done { at_limit, generated });
    reason_is_kept(start, inputs);
    assert(inputs.push(done).drop_last() =~= inputs);
    assert(inputs.push(done).last() == done);
}

/// The session and the counts of a stream are those with which the engine took
/// the request, whatever came before and after but another such event.
pub proof fn acceptance_gives_the_counts(
    start: SlotStream,
    before: Seq<SlotInput>,
    session: u64,
    reused: usize,
    prefill: usize,
    rest: Seq<SlotInput>,
)
    requires
        forall|i: int| 0 <= i < rest.len() ==> !is_accepted(#[trigger] rest[i]),
    ensures
        ({
            let taken = SlotInput::Event(SlotEvent::Accepted { session, reused, prefill });
            let now = start.after_all(before.push(taken) + rest);
            &&& now.session == Some(session)
            &&& now.cached_tokens == reused
            &&& now.prefill_tokens == prefill
        }),
    decreases rest.len(),
{
    let taken = SlotInput::Event(SlotEvent::Accepted { session, reused, prefill });
    let all = before.push(taken) + rest;
    if rest.len() == 0 {
        assert(all =~= before.push(taken));
        assert(all.drop_last() =~= before);
        assert(all.last() == taken);
    } else {
        let init = rest.drop_last();
        assert forall|i: int| 0 <= i < init.len() implies !is_accepted(#[trigger] init[i]) by {
            assert(init[i] == rest[i]);
        }
        acceptance_gives_the_counts(start, before, session, reused, prefill, init);
        assert(all.drop_last() =~= before.push(taken) + init);
        assert(all.last() == rest[rest.len() - 1]);
    }
}

/// The first token of a stream, and no later one, begins the answer.
pub proof fn the_first_token_begins(start: SlotStream, inputs: Seq<SlotInput>, id: u32)
    requires
        start.first_token,
    ensures
        start.after_all(inputs).action(SlotInput::Event(SlotEvent::Token { id })) == (if exists|
            i: int,
        |
            0 <= i < inputs.len() && is_token(#[trigger] inputs[i]) {
            SlotAction::Observe(id)
        } else {
            SlotAction::Begin(id)
        }),
    decreases inputs.len(),
{
    if inputs.len() > 0 {
        let init = inputs.drop_last();
        the_first_token_begins(start, init, id);
        assert forall|i: int| 0 <= i < init.len() implies #[trigger] init[i] == inputs[i] by {}
        assert(inputs.last() == inputs[inputs.len() - 1]);
        if exists|i: int| 0 <= i < init.len() && is_token(#[trigger] init[i]) {
            let i = choose|i: int| 0 <= i < init.len() && is_token(#[trigger] init[i]);
            assert(is_token(inputs[i]));
        } else {
            assert forall|i: int| 0 <= i < init.len() implies !is_token(#[trigger] inputs[i]) by {
                assert(!is_token(init[i]));
            }
        }
    }
}

/// A stream ends with the engine's last event or with the engine, fails where
/// the client has gone or the engine refuses, and waits otherwise.
pub proof fn only_the_end_ends(stream: SlotStream, input: SlotInput)
    ensures
        stream.action(input) is Finish <==> is_done(input) || input is Disconnected,
        stream.action(input) == SlotAction::Fail(SlotFailure::Cancelled) <==> input is Cancelled,
        stream.action(input) is Fail ==> input is Cancelled || (input matches SlotInput::Event(
            SlotEvent::Rejected { reason },
        ) && stream.action(input) == SlotAction::Fail(SlotFailure::Rejected(reason))),
        (input matches SlotInput::Event(SlotEvent::Rejected { .. })) ==> stream.action(input)
            is Fail,
        stream.action(input) is Wait <==> input is Timeout || is_accepted(input),
        stream.after(input).content == stream.content,
        stream.after(input).reasoning_content == stream.reasoning_content,
        stream.after(input).tool_calls == stream.tool_calls,
{
}

/// What the notices of one kind say, put together.
pub open spec fn said(notices: Seq<NoticeV>, reasoning: bool) -> Seq<char>
    decreases notices.len(),
{
    if notices.len() == 0 {
        Seq::empty()
    } else {
        said(notices.drop_last(), reasoning) + match notices.last() {
            NoticeV::Token(s) => if reasoning {
                Seq::empty()
            } else {
                s
            },
            NoticeV::Reasoning(s) => if reasoning {
                s
            } else {
                Seq::empty()
            },
        }
    }
}

/// The texts that the client is sent, put together, are the texts that the
/// completion holds: the answer's and the reasoning's, each for itself.
pub proof fn the_client_is_sent_what_is_kept(events: Seq<ClientEventV>)
    ensures
        said(notices_of(events), false) == content_of(events),
        said(notices_of(events), true) == reasoning_of(events),
    decreases events.len(),
{
    if events.len() > 0 {
        the_client_is_sent_what_is_kept(events.drop_last());
        let sent = notices_of(events.drop_last());
        match events.last() {
            ClientEventV::Token(s) => {
                assert((sent + seq![NoticeV::Token(s)]).drop_last() =~= sent);
                assert(said(notices_of(events), true) =~= said(sent, true));
                assert(said(notices_of(events), false) =~= content_of(events));
            },
            ClientEventV::Reasoning(s) => {
                assert((sent + seq![NoticeV::Reasoning(s)]).drop_last() =~= sent);
                assert(said(notices_of(events), true) =~= reasoning_of(events));
                assert(said(notices_of(events), false) =~= said(sent, false));
            },
            _ => {
                assert(notices_of(events) =~= sent);
            },
        }
        assert(content_of(events) =~= said(notices_of(events), false));
        assert(reasoning_of(events) =~= said(notices_of(events), true));
    }
}

/// Events taken in two parts leave what they leave taken at once, the first
/// part's first; one event leaves its own text or its own calls and nothing
/// else.
pub proof fn events_add_up(a: Seq<ClientEventV>, b: Seq<ClientEventV>)
    ensures
        content_of(a + b) == content_of(a) + content_of(b),
        reasoning_of(a + b) == reasoning_of(a) + reasoning_of(b),
        calls_of(a + b) == calls_of(a) + calls_of(b),
        notices_of(a + b) == notices_of(a) + notices_of(b),
        b.len() == 1 ==> {
            &&& content_of(b) == (match b[0] {
                ClientEventV::Token(s) => s,
                _ => Seq::empty(),
            })
            &&& reasoning_of(b) == (match b[0] {
                ClientEventV::Reasoning(s) => s,
                _ => Seq::empty(),
            })
            &&& calls_of(b) == (match b[0] {
                ClientEventV::ToolCalls(c) => c,
                _ => Seq::empty(),
            })
        },
    decreases b.len(),
{
    if b.len() == 0 {
        assert(a + b =~= a);
        assert(content_of(a) + content_of(b) =~= content_of(a));
        assert(reasoning_of(a) + reasoning_of(b) =~= reasoning_of(a));
        assert(calls_of(a) + calls_of(b) =~= calls_of(a));
        assert(notices_of(a) + notices_of(b) =~= notices_of(a));
    } else {
        events_add_up(a, b.drop_last());
        assert((a + b).drop_last() =~= a + b.drop_last());
        assert((a + b).last() == b.last());
        assert(content_of(a + b) =~= content_of(a) + content_of(b));
        assert(reasoning_of(a + b) =~= reasoning_of(a) + reasoning_of(b));
        assert(calls_of(a + b) =~= calls_of(a) + calls_of(b));
        assert(notices_of(a + b) =~= notices_of(a) + notices_of(b));
        if b.len() == 1 {
            assert(b.drop_last() =~= Seq::empty());
            assert(b.last() == b[0]);
            assert(content_of(b) =~= match b[0] {
                ClientEventV::Token(s) => s,
                _ => Seq::empty(),
            });
            assert(reasoning_of(b) =~= match b[0] {
                ClientEventV::Reasoning(s) => s,
                _ => Seq::empty(),
            });
            assert(calls_of(b) =~= match b[0] {
                ClientEventV::ToolCalls(c) => c,
                _ => Seq::empty(),
            });
        }
    }
}

/// Each count of the last word stands under its own name, beside the reason,
/// and nothing else does.
pub proof fn the_last_word_names_each_count(stream: SlotStream)
    ensures
        stream.summary() is Object,
        ({
            let m = stream.summary()->Object_0;
            &&& m.dom() == set![
                "finish_reason"@,
                "cached_tokens"@,
                "prefill_tokens"@,
                "tokens"@,
            ]
            &&& m["finish_reason"@] == JsonV::Str(stream.finish.text())
            &&& m["cached_tokens"@] == JsonV::Number(
                JsonNumber::Unsigned(stream.cached_tokens as u64),
            )
            &&& m["prefill_tokens"@] == JsonV::Number(
                JsonNumber::Unsigned(stream.prefill_tokens as u64),
            )
            &&& m["tokens"@] == JsonV::Number(
                JsonNumber::Unsigned(stream.generated_tokens as u64),
            )
        }),
{
    reveal_strlit("finish_reason");
    reveal_strlit("cached_tokens");
    reveal_strlit("prefill_tokens");
    reveal_strlit("tokens");
    assert("finish_reason"@.len() == 13 && "cached_tokens"@.len() == 13);
    assert("finish_reason"@[0] == 'f' && "cached_tokens"@[0] == 'c');
    assert("prefill_tokens"@.len() == 14);
    assert("tokens"@.len() == 6);
    assert(stream.summary()->Object_0.dom() =~= set![
        "finish_reason"@,
        "cached_tokens"@,
        "prefill_tokens"@,
        "tokens"@,
    ]);
}

/// Each reason has its own name, and an emitter's is what it says.
pub proof fn reasons_have_their_names(reason: FinishReason)
    ensures
        reason is Stop ==> reason.text() == "stop"@,
        reason is Length ==> reason.text() == "length"@,
        reason is ToolCalls ==> reason.text() == "tool_calls"@,
        reason matches FinishReason::Emitter(s) ==> reason.text() == s@,
{
}

} // verus!

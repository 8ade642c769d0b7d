//! One request to the slot engine: how its prompt is framed, what it continues,
//! and what the engine is handed.

use crate::chat::{messages_view, Message, MessageV, Role};
use crate::json;
use crate::json::{json_of, json_seq, JsonV};
use crate::slots::{
    answered_keys, answers_turn, keys_view, pending_view, resolve_pending_session,
    resolved_session, result_texts, text_hash, texts, tool_result_tail, turn_hash, PendingToolTurn,
    PendingV,
};
use crate::text;
use vstd::prelude::*;

verus! {

/// How much the model reasons before it answers.
#[derive(Clone, Copy, Debug, PartialEq, Eq, Structural)]
pub enum ThinkMode {
    NonThink,
    Low,
    High,
    Max,
}

/// The effort level for the emitter. An undefined effort is the model
/// template's own default: the turn is still a thinking turn.
pub open spec fn mode_of(effort: Option<ThinkMode>, enable_thinking: bool) -> ThinkMode {
    if !enable_thinking {
        ThinkMode::NonThink
    } else {
        match effort {
            Some(e) => e,
            None => ThinkMode::Low,
        }
    }
}

/// The effort level for the emitter.
pub fn think_mode_for(effort: Option<ThinkMode>, enable_thinking: bool) -> (r: ThinkMode)
    ensures
        r == mode_of(effort, enable_thinking),
{
    if !enable_thinking {
        return ThinkMode::NonThink;
    }
    match effort {
        Some(e) => e,
        None => ThinkMode::Low,
    }
}

/// An undefined effort is no wish for no reasoning: the turn is a thinking turn
/// exactly where thinking is enabled.
pub proof fn undefined_effort_still_thinks(enable_thinking: bool)
    ensures
        mode_of(None, enable_thinking) != ThinkMode::NonThink <==> enable_thinking,
{
}

/// How the assistant's turn is opened.
#[derive(Clone, Copy, Debug, PartialEq, Eq, Structural)]
pub enum AssistantPrefix {
    Plain,
    OpenThink,
    ClosedThink,
}

/// The opening of an assistant turn: inside a thought where the turn starts in
/// one, behind a closed thought where the model knows thoughts at all.
pub open spec fn prefix_of(in_think: bool, has_think: bool) -> AssistantPrefix {
    if in_think {
        AssistantPrefix::OpenThink
    } else if has_think {
        AssistantPrefix::ClosedThink
    } else {
        AssistantPrefix::Plain
    }
}

/// The opening of an assistant turn.
pub fn assistant_prefix(in_think: bool, has_think: bool) -> (r: AssistantPrefix)
    ensures
        r == prefix_of(in_think, has_think),
{
    if in_think {
        AssistantPrefix::OpenThink
    } else if has_think {
        AssistantPrefix::ClosedThink
    } else {
        AssistantPrefix::Plain
    }
}

/// Whether the lowered request turns reasoning off: one thinking token is the
/// engine's sentinel for none.
pub open spec fn reasoning_off(lowered: JsonV) -> bool {
    lowered.member_unsigned("max_think_tokens"@) == Some(1u64)
}

/// Whether the turn is a thinking turn.
pub fn thinking_enabled(lowered: &serde_json::Value, has_think: bool) -> (r: bool)
    ensures
        r == (has_think && !reasoning_off(json_of(*lowered))),
{
    let off = match json::member_unsigned(lowered, "max_think_tokens") {
        Some(n) => n == 1,
        None => false,
    };
    has_think && !off
}

/// The effort that the lowered request names.
pub fn requested_effort(lowered: &serde_json::Value) -> (r: Option<&str>)
    ensures
        match r {
            Some(s) => json_of(*lowered).member_text("reasoning_effort"@) == Some(s@),
            None => json_of(*lowered).member_text("reasoning_effort"@) is None,
        },
{
    json::member_text(lowered, "reasoning_effort")
}

/// The model that a request names.
pub open spec fn model_of(body: JsonV) -> Seq<char> {
    match body.member_text("model"@) {
        Some(s) => s,
        None => "unknown"@,
    }
}

/// The model that a request names.
pub fn requested_model(body: &serde_json::Value) -> (r: String)
    ensures
        r@ == model_of(json_of(*body)),
{
    match json::member_text(body, "model") {
        Some(s) => s.to_owned(),
        None => "unknown".to_owned(),
    }
}

/// The `top_k` that a request names, zero where it names none.
pub open spec fn top_k_of(body: JsonV) -> i32 {
    match body.member("top_k"@) {
        Some(v) => match v.signed() {
            Some(n) => n as i32,
            None => 0,
        },
        None => 0,
    }
}

/// The `top_k` that a request names, zero where it names none; the number's
/// low 32 bits.
pub fn requested_top_k(body: &serde_json::Value) -> (r: i32)
    ensures
        r == top_k_of(json_of(*body)),
{
    match json::get(body, "top_k") {
        Some(v) => match json::as_i64(v) {
            Some(n) => #[verifier::truncate] (n as i32),
            None => 0,
        },
        None => 0,
    }
}

/// The tools that are offered to the model: those of a non-empty array.
pub open spec fn tools_of(forwarded: Option<JsonV>) -> Option<Seq<JsonV>> {
    match forwarded {
        Some(v) => match v.items() {
            Some(a) => if a.len() > 0 {
                Some(a)
            } else {
                None
            },
            None => None,
        },
        None => None,
    }
}

/// What an optional document holds.
pub open spec fn opt_json(v: Option<&serde_json::Value>) -> Option<JsonV> {
    match v {
        Some(v) => Some(json_of(*v)),
        None => None,
    }
}

/// The tools that are offered to the model.
pub fn offered_tools(forwarded: Option<&serde_json::Value>) -> (r: Option<&Vec<serde_json::Value>>)
    ensures
        match r {
            Some(a) => tools_of(opt_json(forwarded)) == Some(json_seq(a@)),
            None => tools_of(opt_json(forwarded)) is None,
        },
{
    match forwarded {
        Some(v) => match json::as_array(v) {
            Some(a) => {
                assert(json_seq(a@).len() == a@.len());
                if a.len() > 0 {
                    Some(a)
                } else {
                    None
                }
            },
            None => None,
        },
        None => None,
    }
}

/// The tools that the emitter checks calls against: those offered to the model,
/// where calls are held to a grammar.
pub fn emitter_tools(forwarded: Option<&serde_json::Value>, tool_grammar: bool) -> (r: Option<
    &Vec<serde_json::Value>,
>)
    ensures
        match r {
            Some(a) => tool_grammar && tools_of(opt_json(forwarded)) == Some(json_seq(a@)),
            None => !tool_grammar || tools_of(opt_json(forwarded)) is None,
        },
{
    if tool_grammar {
        offered_tools(forwarded)
    } else {
        None
    }
}

/// Whether a rendered prompt leaves the assistant inside a thought.
pub fn starts_in_think(rendered: &str) -> (r: bool)
    ensures
        r == text::ends(text::trimmed_end(rendered@), "<think>"@),
{
    let mut chars = text::chars_of(rendered);
    while chars.len() > 0 && text::white(chars[chars.len() - 1])
        invariant
            text::trimmed_end(chars@) == text::trimmed_end(rendered@),
        decreases chars.len(),
    {
        let ghost before = chars@;
        chars.pop();
        assert(chars@ =~= before.drop_last());
    }
    let mark = text::chars_of("<think>");
    if mark.len() > chars.len() {
        return false;
    }
    text::stands_at(&chars, &mark, chars.len() - mark.len())
}

/// What the assistant and the user said, as `(role, text)`: system messages
/// are left out, and a tool result reads as the user's.
pub open spec fn turns_of(messages: Seq<MessageV>) -> Seq<(Role, Seq<char>)>
    decreases messages.len(),
{
    if messages.len() == 0 {
        Seq::empty()
    } else {
        let init = turns_of(messages.drop_last());
        let m = messages.last();
        match m.role {
            Role::System => init,
            Role::Assistant => init.push((Role::Assistant, m.content)),
            _ => init.push((Role::User, m.content)),
        }
    }
}

/// The system messages' texts, one per line.
pub open spec fn system_of(messages: Seq<MessageV>) -> Option<Seq<char>>
    decreases messages.len(),
{
    if messages.len() == 0 {
        None
    } else {
        let init = system_of(messages.drop_last());
        let m = messages.last();
        if m.role == Role::System {
            match init {
                Some(s) => Some(s + "\n"@ + m.content),
                None => Some(m.content),
            }
        } else {
            init
        }
    }
}

/// Whether the user's last turn is at `i`.
pub open spec fn last_user_at(turns: Seq<(Role, Seq<char>)>, i: int) -> bool {
    &&& 0 <= i < turns.len()
    &&& turns[i].0 == Role::User
    &&& forall|j: int| i < j < turns.len() ==> (#[trigger] turns[j]).0 != Role::User
}

/// What turns hold.
pub open spec fn turns_view(turns: Seq<(Role, String)>) -> Seq<(Role, Seq<char>)> {
    turns.map_values(|t: (Role, String)| (t.0, t.1@))
}

/// A prompt for a model without a chat template.
#[derive(Debug, PartialEq, Eq)]
pub struct PlainFrame {
    pub system: Option<String>,
    pub history: Vec<(Role, String)>,
    pub user: String,
    pub prefix: AssistantPrefix,
}

/// Why a prompt cannot be framed.
#[derive(Clone, Copy, Debug, PartialEq, Eq, Structural)]
pub enum FrameError {
    /// Tools were offered to a model that has no chat template.
    ToolsWithoutTemplate,
    /// No turn is the user's.
    NoUser,
}

impl FrameError {
    /// The error's text.
    pub fn message(&self) -> (r: String)
        ensures
            r@ == match *self {
                FrameError::ToolsWithoutTemplate =>
                    "multi_slot: model has no chat template; tools are not supported"@,
                FrameError::NoUser => "messages must contain at least one user message"@,
            },
    {
        match self {
            FrameError::ToolsWithoutTemplate =>
                "multi_slot: model has no chat template; tools are not supported".to_owned(),
            FrameError::NoUser => "messages must contain at least one user message".to_owned(),
        }
    }
}

/// Whether a frame asks the user's last turn, with the turns round it as the
/// history.
pub open spec fn frames(f: PlainFrame, messages: Seq<MessageV>, prefix: AssistantPrefix) -> bool {
    let turns = turns_of(messages);
    &&& crate::chat::opt_text(f.system) == system_of(messages)
    &&& exists|i: int| #[trigger]
        last_user_at(turns, i) && f.user@ == turns[i].1 && turns_view(f.history@) == turns.remove(
            i,
        )
    &&& f.prefix == prefix
}

/// Why a prompt cannot be framed without a chat template; nothing where it can.
pub open spec fn frame_refusal(messages: Seq<MessageV>, tools_offered: bool) -> Option<FrameError> {
    if tools_offered {
        Some(FrameError::ToolsWithoutTemplate)
    } else if exists|i: int| #[trigger] last_user_at(turns_of(messages), i) {
        None
    } else {
        Some(FrameError::NoUser)
    }
}

/// Frames the prompt of a model without a chat template: the user's last turn
/// is the question, the turns round it are the history.
pub fn plain_frame(
    messages: &Vec<Message>,
    tools_offered: bool,
    enable_thinking: bool,
    has_think: bool,
) -> (r: Result<PlainFrame, FrameError>)
    ensures
        match r {
            Ok(f) => !tools_offered && frames(
                f,
                messages_view(messages@),
                prefix_of(enable_thinking, has_think),
            ),
            Err(e) => frame_refusal(messages_view(messages@), tools_offered) == Some(e),
        },
{
    if tools_offered {
        return Err(FrameError::ToolsWithoutTemplate);
    }
    let ghost ms = messages_view(messages@);
    let mut system: Option<String> = None;
    let mut turns: Vec<(Role, String)> = Vec::new();
    let mut i: usize = 0;
    assert(turns_view(turns@) =~= turns_of(ms.subrange(0, 0)));
    while i < messages.len()
        invariant
            i <= messages.len(),
            ms == messages_view(messages@),
            crate::chat::opt_text(system) == system_of(ms.subrange(0, i as int)),
            turns_view(turns@) == turns_of(ms.subrange(0, i as int)),
        decreases messages.len() - i,
    {
        let m = &messages[i];
        let ghost pre = ms.subrange(0, i + 1);
        let ghost before = turns@;
        assert(pre.drop_last() =~= ms.subrange(0, i as int));
        assert(pre.last() == m@);
        match m.role {
            Role::System => {
                system = match system {
                    Some(s) => {
                        let mut s = s;
                        s.append("\n");
                        s.append(m.content.as_str());
                        Some(s)
                    },
                    None => Some(m.content.clone()),
                };
            },
            Role::Assistant => {
                turns.push((Role::Assistant, m.content.clone()));
                assert(turns_view(turns@) =~= turns_view(before).push(
                    (Role::Assistant, m.content@),
                ));
            },
            _ => {
                turns.push((Role::User, m.content.clone()));
                assert(turns_view(turns@) =~= turns_view(before).push((Role::User, m.content@)));
            },
        }
        i = i + 1;
    }
    assert(ms.subrange(0, ms.len() as int) =~= ms);
    let ghost tv = turns_view(turns@);
    let mut k: usize = turns.len();
    while k > 0 && turns[k - 1].0 != Role::User
        invariant
            k <= turns.len(),
            tv == turns_view(turns@),
            forall|j: int| k <= j < tv.len() ==> (#[trigger] tv[j]).0 != Role::User,
        decreases k,
    {
        assert(tv[k - 1].0 == turns@[k - 1].0);
        k = k - 1;
    }
    if k == 0 {
        return Err(FrameError::NoUser);
    }
    assert(tv[k - 1].0 == turns@[k - 1].0);
    assert(last_user_at(tv, k - 1));
    let last = turns.remove(k - 1);
    assert(turns_view(turns@) =~= tv.remove(k - 1));
    Ok(
        PlainFrame {
            system,
            history: turns,
            user: last.1,
            prefix: assistant_prefix(enable_thinking, has_think),
        },
    )
}

/// The identity of a conversation: the hashes of the user's turns, in order.
pub open spec fn convo_of(messages: Seq<MessageV>) -> Seq<u64>
    decreases messages.len(),
{
    if messages.len() == 0 {
        Seq::empty()
    } else {
        let init = convo_of(messages.drop_last());
        if messages.last().role == Role::User {
            init.push(text_hash(messages.last().content))
        } else {
            init
        }
    }
}

/// The identity of a conversation.
pub fn conversation(messages: &Vec<Message>) -> (out: Vec<u64>)
    ensures
        out@ == convo_of(messages_view(messages@)),
{
    let ghost ms = messages_view(messages@);
    let mut out: Vec<u64> = Vec::new();
    let mut i: usize = 0;
    assert(out@ =~= convo_of(ms.subrange(0, 0)));
    while i < messages.len()
        invariant
            i <= messages.len(),
            ms == messages_view(messages@),
            out@ == convo_of(ms.subrange(0, i as int)),
        decreases messages.len() - i,
    {
        let m = &messages[i];
        assert(ms.subrange(0, i + 1).drop_last() =~= ms.subrange(0, i as int));
        assert(ms.subrange(0, i + 1).last() == m@);
        if m.role == Role::User {
            out.push(turn_hash(m.content.as_str()));
        }
        i = i + 1;
    }
    assert(ms.subrange(0, ms.len() as int) =~= ms);
    out
}

/// What of the engine's stored state a request continues.
#[derive(Debug, PartialEq, Eq)]
pub enum Continuation {
    /// Nothing: the whole prompt is prefilled.
    Cold,
    /// The conversation goes on with a new user turn of this text.
    UserTurn(String),
    /// These results answer one session's calls.
    ToolResults { session: u64, results: Vec<String> },
}

/// What a continuation holds.
pub enum ContinuationV {
    Cold,
    UserTurn(Seq<char>),
    ToolResults(u64, Seq<Seq<char>>),
}

impl View for Continuation {
    type V = ContinuationV;

    open spec fn view(&self) -> ContinuationV {
        match self {
            Continuation::Cold => ContinuationV::Cold,
            Continuation::UserTurn(s) => ContinuationV::UserTurn(s@),
            Continuation::ToolResults { session, results } => ContinuationV::ToolResults(
                *session,
                texts(results@),
            ),
        }
    }
}

/// What a request continues: a second or later user turn continues its
/// conversation; tool results continue the one session whose calls they
/// answer; all else starts cold.
pub open spec fn continuation_of(
    messages: Seq<MessageV>,
    pending: Seq<PendingV>,
) -> ContinuationV {
    let convo = convo_of(messages);
    if messages.len() == 0 {
        ContinuationV::Cold
    } else if messages.last().role == Role::User && convo.len() >= 2 {
        ContinuationV::UserTurn(messages.last().content)
    } else if messages.last().role == Role::Tool && exists|head: int| #[trigger]
        answers_turn(messages, head) {
        let head = choose|head: int| #[trigger] answers_turn(messages, head);
        match resolved_session(pending, convo, answered_keys(messages, head)) {
            Some(session) => ContinuationV::ToolResults(session, result_texts(messages, head)),
            None => ContinuationV::Cold,
        }
    } else {
        ContinuationV::Cold
    }
}

/// A trailing run of tool results answers at most one turn.
pub proof fn answered_turn_is_unique(messages: Seq<MessageV>, a: int, b: int)
    requires
        answers_turn(messages, a),
        answers_turn(messages, b),
    ensures
        a == b,
{
    if a < b {
        assert(messages[b].role == Role::Tool);
    }
    if b < a {
        assert(messages[a].role == Role::Tool);
    }
}

/// What a request continues.
pub fn continuation(messages: &Vec<Message>, pending: &Vec<PendingToolTurn>) -> (r: Continuation)
    ensures
        r@ == continuation_of(messages_view(messages@), pending_view(pending@)),
{
    let ghost ms = messages_view(messages@);
    if messages.len() == 0 {
        return Continuation::Cold;
    }
    let convo = conversation(messages);
    let last = &messages[messages.len() - 1];
    assert(ms.last() == last@);
    match last.role {
        Role::User => if convo.len() >= 2 {
            Continuation::UserTurn(last.content.clone())
        } else {
            Continuation::Cold
        },
        Role::Tool => match tool_result_tail(messages) {
            Some(tail) => {
                proof {
                    let h = choose|h: int| #[trigger] answers_turn(ms, h);
                    let k = choose|h: int| #[trigger]
                        answers_turn(ms, h) && keys_view(tail.answered@) == answered_keys(ms, h)
                            && texts(tail.results@) == result_texts(ms, h);
                    answered_turn_is_unique(ms, h, k);
                }
                match resolve_pending_session(pending, &convo, &tail.answered) {
                    Some(session) => Continuation::ToolResults { session, results: tail.results },
                    None => Continuation::Cold,
                }
            },
            None => Continuation::Cold,
        },
        _ => Continuation::Cold,
    }
}

/// How a request's prompt is built.
#[derive(Debug, PartialEq, Eq)]
pub enum Framing {
    /// The model's chat template renders the messages.
    Template,
    /// There is no template.
    Plain(PlainFrame),
}

/// How a request's prompt is built, once its messages are read.
pub fn framing(
    messages: &Vec<Message>,
    has_template: bool,
    forwarded_tools: Option<&serde_json::Value>,
    lowered: &serde_json::Value,
    has_think: bool,
) -> (r: Result<Framing, FrameError>)
    ensures
        ({
            let ms = messages_view(messages@);
            let tools = tools_of(opt_json(forwarded_tools)) is Some;
            let thinks = has_think && !reasoning_off(json_of(*lowered));
            match r {
                Ok(Framing::Template) => has_template,
                Ok(Framing::Plain(f)) => !has_template && !tools && frames(
                    f,
                    ms,
                    prefix_of(thinks, has_think),
                ),
                Err(e) => !has_template && frame_refusal(ms, tools) == Some(e),
            }
        }),
{
    if has_template {
        return Ok(Framing::Template);
    }
    let offered: bool = match offered_tools(forwarded_tools) {
        Some(_) => true,
        None => false,
    };
    match plain_frame(messages, offered, thinking_enabled(lowered, has_think), has_think) {
        Ok(f) => Ok(Framing::Plain(f)),
        Err(e) => Err(e),
    }
}

/// The bits of the number one.
pub const ONE_BITS: u64 = 0x3ff0_0000_0000_0000;

/// A number that a request names, by its bits, else a default.
pub open spec fn number_or(body: JsonV, key: Seq<char>, default: u64) -> u64 {
    match body.member_double(key) {
        Some(bits) => bits,
        None => default,
    }
}

fn requested_number(body: &serde_json::Value, key: &str, default: u64) -> (r: u64)
    ensures
        r == number_or(json_of(*body), key@, default),
{
    match json::member_double(body, key) {
        Some(bits) => bits,
        None => default,
    }
}

/// What is handed to the engine for a request, beside its prompt's tokens.
#[derive(Debug, PartialEq, Eq)]
pub struct SlotSubmission {
    pub model: String,
    /// The opening of the assistant's turn, in the prompt and behind what is
    /// continued.
    pub prefix: AssistantPrefix,
    pub think_mode: ThinkMode,
    pub convo: Vec<u64>,
    pub continuation: Continuation,
    /// The most tokens that are generated.
    pub max_tokens: usize,
    /// The bits of binary64 numbers. Without a temperature the engine is greedy.
    pub temperature: u64,
    pub top_p: u64,
    pub top_k: i32,
    /// What the sampling starts from.
    pub seed: u64,
}

/// The text of a seed that cannot be taken.
pub open spec fn seed_refused(why: Seq<char>) -> Seq<char> {
    "seed: "@ + why
}

/// Whether the assistant's turn begins inside a thought: the rendered prompt
/// says so, or the frame where there is no template.
pub open spec fn in_think(framing: Framing, rendered: Seq<char>) -> bool {
    match framing {
        Framing::Template => text::ends(text::trimmed_end(rendered), "<think>"@),
        Framing::Plain(f) => f.prefix == AssistantPrefix::OpenThink,
    }
}

/// What is handed to the engine for a request. `rendered` is what the chat
/// template made of the messages, `effort` the level of reasoning asked for,
/// `seed` the seed that the request's own one and the attempt give, or why the
/// request's is malformed: such a request is refused.
pub fn complete_request_slots(
    body: &serde_json::Value,
    messages: &Vec<Message>,
    framing: &Framing,
    rendered: &str,
    effort: Option<ThinkMode>,
    lowered: &serde_json::Value,
    has_think: bool,
    pending: &Vec<PendingToolTurn>,
    max_tokens: usize,
    seed: Result<u64, String>,
) -> (r: Result<SlotSubmission, String>)
    ensures
        match seed {
            Err(why) => r is Err && r->Err_0@ == seed_refused(why@),
            Ok(_) => r is Ok,
        },
        r matches Ok(sent) ==> {
            let ms = messages_view(messages@);
            &&& sent.model@ == model_of(json_of(*body))
            &&& sent.prefix == prefix_of(in_think(*framing, rendered@), has_think)
            &&& sent.think_mode == mode_of(
                effort,
                has_think && !reasoning_off(json_of(*lowered)),
            )
            &&& sent.convo@ == convo_of(ms)
            &&& sent.continuation@ == continuation_of(ms, pending_view(pending@))
            &&& sent.temperature == number_or(json_of(*body), "temperature"@, 0)
            &&& sent.top_p == number_or(json_of(*body), "top_p"@, ONE_BITS)
            &&& sent.top_k == top_k_of(json_of(*body))
            &&& sent.max_tokens == max_tokens
            &&& seed == Ok::<u64, String>(sent.seed)
        },
{
    let seed: u64 = match seed {
        Ok(seed) => seed,
        Err(why) => {
            let mut s = "seed: ".to_owned();
            s.append(why.as_str());
            return Err(s);
        },
    };
    let started: bool = match framing {
        Framing::Template => starts_in_think(rendered),
        Framing::Plain(f) => f.prefix == AssistantPrefix::OpenThink,
    };
    Ok(
        SlotSubmission {
            model: requested_model(body),
            prefix: assistant_prefix(started, has_think),
            think_mode: think_mode_for(effort, thinking_enabled(lowered, has_think)),
            convo: conversation(messages),
            continuation: continuation(messages, pending),
            max_tokens,
            temperature: requested_number(body, "temperature", 0),
            top_p: requested_number(body, "top_p", ONE_BITS),
            top_k: requested_top_k(body),
            seed,
        },
    )
}

/// Without a template the continued turn is opened as the framed prompt is.
pub proof fn frame_and_continuation_open_alike(
    f: PlainFrame,
    messages: Seq<MessageV>,
    thinks: bool,
    has_think: bool,
    rendered: Seq<char>,
)
    requires
        thinks ==> has_think,
        frames(f, messages, prefix_of(thinks, has_think)),
    ensures
        prefix_of(in_think(Framing::Plain(f), rendered), has_think) == f.prefix,
{
}

/// A request whose last message is neither the user's nor a tool's starts cold.
pub proof fn other_requests_start_cold(messages: Seq<MessageV>, pending: Seq<PendingV>)
    requires
        messages.len() > 0,
        messages.last().role != Role::User,
        messages.last().role != Role::Tool,
    ensures
        continuation_of(messages, pending) == ContinuationV::Cold,
{
}

/// The emitter is given the effort that was asked for wherever the turn is a
/// thinking turn, and none where it is not.
pub proof fn effort_is_given_where_thinking_is(effort: ThinkMode, enable_thinking: bool)
    ensures
        enable_thinking ==> mode_of(Some(effort), enable_thinking) == effort,
        !enable_thinking ==> mode_of(Some(effort), enable_thinking) == ThinkMode::NonThink,
        enable_thinking ==> mode_of(None, enable_thinking) == ThinkMode::Low,
{
}

/// A turn is opened inside a thought exactly where it starts in one, and
/// plainly exactly where the model knows no thoughts and it does not.
pub proof fn openings_tell_thoughts_apart(in_think: bool, has_think: bool)
    ensures
        prefix_of(in_think, has_think) == AssistantPrefix::OpenThink <==> in_think,
        prefix_of(in_think, has_think) == AssistantPrefix::Plain <==> !in_think && !has_think,
{
}

/// One thinking token means none; any other number, and none named, leaves
/// reasoning on.
pub proof fn only_one_token_turns_reasoning_off(lowered: JsonV, named: Option<u64>)
    requires
        lowered.member_unsigned("max_think_tokens"@) == named,
    ensures
        reasoning_off(lowered) <==> named == Some(1u64),
{
}

/// Tools are offered exactly where a non-empty array was forwarded, and then all
/// of them in its order.
pub proof fn forwarded_tools_are_offered(forwarded: JsonV, items: Seq<JsonV>)
    ensures
        tools_of(None) is None,
        forwarded.items() is None ==> tools_of(Some(forwarded)) is None,
        forwarded.items() == Some(items) && items.len() > 0 ==> tools_of(Some(forwarded)) == Some(
            items,
        ),
        forwarded.items() == Some(items) && items.len() == 0 ==> tools_of(Some(forwarded)) is None,
{
}

/// What one message says: nothing of a system message, the assistant's own, and
/// what anyone else says as the user's.
pub open spec fn said_by(m: MessageV) -> Seq<(Role, Seq<char>)> {
    if m.role == Role::System {
        Seq::empty()
    } else if m.role == Role::Assistant {
        seq![(Role::Assistant, m.content)]
    } else {
        seq![(Role::User, m.content)]
    }
}

/// The turns of messages taken in two parts are the first part's turns and then
/// the second's; one message makes its own turn or none.
pub proof fn turns_add_up(a: Seq<MessageV>, b: Seq<MessageV>)
    ensures
        turns_of(a + b) == turns_of(a) + turns_of(b),
        b.len() == 1 ==> turns_of(b) == said_by(b[0]),
    decreases b.len(),
{
    if b.len() == 0 {
        assert(a + b =~= a);
        assert(turns_of(a) + turns_of(b) =~= turns_of(a));
    } else {
        turns_add_up(a, b.drop_last());
        assert((a + b).drop_last() =~= a + b.drop_last());
        assert((a + b).last() == b.last());
        assert(turns_of(a + b) =~= turns_of(a) + turns_of(b));
        if b.len() == 1 {
            assert(b.drop_last() =~= Seq::empty());
            assert(turns_of(b) =~= said_by(b[0]));
        }
    }
}

/// The system texts of messages taken in two parts are joined by one line break,
/// the first part's first; one message's is its own text where it is a system
/// message, and nothing where it is not.
pub proof fn system_texts_are_joined(a: Seq<MessageV>, b: Seq<MessageV>)
    ensures
        system_of(a + b) == match (system_of(a), system_of(b)) {
            (Some(s), Some(t)) => Some(s + "\n"@ + t),
            (Some(s), None) => Some(s),
            (None, t) => t,
        },
        b.len() == 1 && b[0].role == Role::System ==> system_of(b) == Some(b[0].content),
        b.len() == 1 && b[0].role != Role::System ==> system_of(b) is None,
    decreases b.len(),
{
    if b.len() == 0 {
        assert(a + b =~= a);
    } else {
        let init = b.drop_last();
        system_texts_are_joined(a, init);
        assert((a + b).drop_last() =~= a + init);
        assert((a + b).last() == b.last());
        if let (Some(s), Some(t)) = (system_of(a), system_of(init)) {
            let (n, c) = ("\n"@, b.last().content);
            assert((s + n + t) + n + c =~= s + n + (t + n + c));
        }
        if b.len() == 1 {
            assert(init =~= Seq::empty());
        }
    }
}

/// The identity of a conversation taken in two parts is the first part's and
/// then the second's; one message adds the hash of its text where it is the
/// user's, and nothing where it is not.
pub proof fn conversations_add_up(a: Seq<MessageV>, b: Seq<MessageV>)
    ensures
        convo_of(a + b) == convo_of(a) + convo_of(b),
        b.len() == 1 && b[0].role == Role::User ==> convo_of(b) == seq![text_hash(b[0].content)],
        b.len() == 1 && b[0].role != Role::User ==> convo_of(b).len() == 0,
    decreases b.len(),
{
    if b.len() == 0 {
        assert(a + b =~= a);
        assert(convo_of(a) + convo_of(b) =~= convo_of(a));
    } else {
        conversations_add_up(a, b.drop_last());
        assert((a + b).drop_last() =~= a + b.drop_last());
        assert((a + b).last() == b.last());
        assert(convo_of(a + b) =~= convo_of(a) + convo_of(b));
        if b.len() == 1 {
            assert(b.drop_last() =~= Seq::empty());
            assert(b[0].role == Role::User ==> convo_of(b) =~= seq![text_hash(b[0].content)]);
        }
    }
}

/// What the assistant and tools say, and what the system says, does not change
/// whose conversation it is.
pub proof fn answers_keep_the_conversation(before: Seq<MessageV>, m: MessageV, behind: Seq<MessageV>)
    requires
        m.role != Role::User,
    ensures
        convo_of(before.push(m) + behind) == convo_of(before + behind),
{
    conversations_add_up(before, seq![m]);
    assert(before + seq![m] =~= before.push(m));
    conversations_add_up(before.push(m), behind);
    conversations_add_up(before, behind);
    assert(convo_of(before) + convo_of(seq![m]) =~= convo_of(before));
}

/// A frame asks the last message that is the user's or a tool's, whatever the
/// assistant and the system say behind it, and keeps every other turn as the
/// history, in order.
pub proof fn the_last_question_is_asked(
    f: PlainFrame,
    before: Seq<MessageV>,
    question: MessageV,
    behind: Seq<MessageV>,
    prefix: AssistantPrefix,
)
    requires
        frames(f, before.push(question) + behind, prefix),
        question.role == Role::User || question.role == Role::Tool,
        forall|i: int|
            0 <= i < behind.len() ==> (#[trigger] behind[i]).role == Role::System || behind[i].role
                == Role::Assistant,
    ensures
        f.user@ == question.content,
        turns_view(f.history@) == turns_of(before) + turns_of(behind),
        f.prefix == prefix,
{
    let messages = before.push(question) + behind;
    let turns = turns_of(messages);
    turns_add_up(before.push(question), behind);
    turns_add_up(before, seq![question]);
    assert(before + seq![question] =~= before.push(question));
    no_one_asks(behind);
    let at = turns_of(before).len() as int;
    let (a, q, b) = (turns_of(before), turns_of(seq![question]), turns_of(behind));
    assert(q.len() == 1 && q[0] == (Role::User, question.content));
    assert(turns =~= a + q + b);
    assert forall|j: int| at < j < turns.len() implies (#[trigger] turns[j]).0 != Role::User by {
        assert(turns[j] == b[j - at - 1]);
    }
    assert(last_user_at(turns, at));
    let i = choose|i: int| #[trigger]
        last_user_at(turns, i) && f.user@ == turns[i].1 && turns_view(f.history@) == turns.remove(
            i,
        );
    if i < at {
        assert(turns[at].0 != Role::User);
    }
    if at < i {
        assert(turns[i].0 != Role::User);
    }
    assert(turns.remove(at) =~= a + b);
}

proof fn no_one_asks(messages: Seq<MessageV>)
    requires
        forall|i: int|
            0 <= i < messages.len() ==> (#[trigger] messages[i]).role == Role::System
                || messages[i].role == Role::Assistant,
    ensures
        forall|i: int|
            0 <= i < turns_of(messages).len() ==> (#[trigger] turns_of(messages)[i]).0
                != Role::User,
    decreases messages.len(),
{
    if messages.len() > 0 {
        let init = messages.drop_last();
        assert forall|i: int| 0 <= i < init.len() implies (#[trigger] init[i]).role == Role::System
            || init[i].role == Role::Assistant by {
            assert(init[i] == messages[i]);
        }
        no_one_asks(init);
        assert(messages.last() == messages[messages.len() - 1]);
    }
}

/// A prompt is refused for want of a question exactly where no message is the
/// user's or a tool's; one with tools is refused for them, question or not.
pub proof fn only_unasked_prompts_are_refused(messages: Seq<MessageV>)
    ensures
        frame_refusal(messages, false) is None <==> exists|i: int|
            0 <= i < messages.len() && ((#[trigger] messages[i]).role == Role::User
                || messages[i].role == Role::Tool),
        frame_refusal(messages, false) is Some ==> frame_refusal(messages, false) == Some(
            FrameError::NoUser,
        ),
        frame_refusal(messages, true) == Some(FrameError::ToolsWithoutTemplate),
{
    if exists|i: int|
        0 <= i < messages.len() && ((#[trigger] messages[i]).role == Role::User || messages[i].role
            == Role::Tool) {
        let i = choose|i: int|
            0 <= i < messages.len() && ((#[trigger] messages[i]).role == Role::User
                || messages[i].role == Role::Tool);
        user_turn_exists(messages, i);
    } else {
        no_one_asks(messages);
    }
}

proof fn user_turn_exists(messages: Seq<MessageV>, i: int)
    requires
        0 <= i < messages.len(),
        messages[i].role == Role::User || messages[i].role == Role::Tool,
    ensures
        exists|k: int| #[trigger] last_user_at(turns_of(messages), k),
{
    let before = messages.subrange(0, i);
    let own = seq![messages[i]];
    let behind = messages.subrange(i + 1, messages.len() as int);
    turns_add_up(before, own);
    turns_add_up(before + own, behind);
    assert(messages =~= before + own + behind);
    let turns = turns_of(messages);
    assert(turns_of(own) == said_by(messages[i]));
    let at = turns_of(before).len() as int;
    assert(turns[at] == said_by(messages[i])[0]);
    last_of_users(turns, at);
}

proof fn last_of_users(turns: Seq<(Role, Seq<char>)>, i: int)
    requires
        0 <= i < turns.len(),
        turns[i].0 == Role::User,
    ensures
        exists|k: int| #[trigger] last_user_at(turns, k),
    decreases turns.len() - i,
{
    if exists|j: int| i < j < turns.len() && (#[trigger] turns[j]).0 == Role::User {
        let j = choose|j: int| i < j < turns.len() && (#[trigger] turns[j]).0 == Role::User;
        last_of_users(turns, j);
    } else {
        assert(last_user_at(turns, i));
    }
}

/// A user's turn behind an earlier one of theirs continues the conversation with
/// its own text; the first one starts cold, whatever is pending.
pub proof fn later_user_turns_continue(
    before: Seq<MessageV>,
    question: MessageV,
    pending: Seq<PendingV>,
)
    requires
        question.role == Role::User,
    ensures
        (exists|i: int| 0 <= i < before.len() && (#[trigger] before[i]).role == Role::User)
            ==> continuation_of(before.push(question), pending) == ContinuationV::UserTurn(
            question.content,
        ),
        (forall|i: int| 0 <= i < before.len() ==> (#[trigger] before[i]).role != Role::User)
            ==> continuation_of(before.push(question), pending) == ContinuationV::Cold,
{
    let messages = before.push(question);
    conversations_add_up(before, seq![question]);
    assert(before + seq![question] =~= messages);
    users_make_the_conversation(before);
}

proof fn users_make_the_conversation(messages: Seq<MessageV>)
    ensures
        convo_of(messages).len() > 0 <==> exists|i: int|
            0 <= i < messages.len() && (#[trigger] messages[i]).role == Role::User,
    decreases messages.len(),
{
    if messages.len() > 0 {
        let init = messages.drop_last();
        users_make_the_conversation(init);
        if convo_of(init).len() > 0 {
            let i = choose|i: int| 0 <= i < init.len() && (#[trigger] init[i]).role == Role::User;
            assert(messages[i].role == Role::User);
        }
        if messages.last().role == Role::User {
            assert(messages[messages.len() - 1].role == Role::User);
        }
        if exists|i: int| 0 <= i < messages.len() && (#[trigger] messages[i]).role == Role::User {
            let i = choose|i: int|
                0 <= i < messages.len() && (#[trigger] messages[i]).role == Role::User;
            if i < init.len() {
                assert(init[i].role == Role::User);
            }
        }
    }
}

/// Results that answer a turn continue the session that waits for them, and are
/// handed over in the order in which they came; where no one session does, or
/// the results do not answer the turn, the request starts cold.
pub proof fn results_continue_their_session(
    messages: Seq<MessageV>,
    head: int,
    pending: Seq<PendingV>,
)
    requires
        answers_turn(messages, head),
    ensures
        match resolved_session(pending, convo_of(messages), answered_keys(messages, head)) {
            Some(session) => continuation_of(messages, pending) matches ContinuationV::ToolResults(
                to,
                results,
            ) && to == session && results.len() == messages[head].tool_calls.len() && forall|
                i: int,
            |
                0 <= i < results.len() ==> #[trigger] results[i] == messages[head + 1 + i].content,
            None => continuation_of(messages, pending) == ContinuationV::Cold,
        },
{
    assert(messages.last() == messages[messages.len() - 1]);
    assert(messages[messages.len() - 1].role == Role::Tool);
    let h = choose|h: int| #[trigger] answers_turn(messages, h);
    answered_turn_is_unique(messages, h, head);
}

/// A request names its model, its numbers and its `top_k`, and has the default
/// of each exactly where it names none.
pub proof fn defaults_stand_for_what_is_not_named(body: JsonV, key: Seq<char>, default: u64)
    ensures
        body.member_text("model"@) matches Some(s) ==> model_of(body) == s,
        body.member_text("model"@) is None ==> model_of(body) == "unknown"@,
        body.member_double(key) matches Some(bits) ==> number_or(body, key, default) == bits,
        body.member_double(key) is None ==> number_or(body, key, default) == default,
        body.member("top_k"@) is None ==> top_k_of(body) == 0,
        body.member("top_k"@) matches Some(v) ==> (v.signed() matches Some(n) ==> (i32::MIN <= n
            <= i32::MAX ==> top_k_of(body) == n)),
{
}

/// A request that names a number as its `top_k` gets that number, whichever sign
/// it has; one that names none, or no number, gets zero.
pub proof fn named_bounds_are_taken(body: JsonV, n: i32)
    ensures
        body.member("top_k"@) is None ==> top_k_of(body) == 0,
        (body.member("top_k"@) matches Some(v) && v.signed() is None) ==> top_k_of(body) == 0,
        (body.member("top_k"@) matches Some(v) && v.signed() == Some(n as i64)) ==> top_k_of(body)
            == n,
{
}

} // verus!

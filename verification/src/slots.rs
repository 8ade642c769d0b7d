//! Concurrent slots: the tool calls that sessions wait for, and which session a
//! request's results belong to.

use crate::chat::{calls_view, messages_view, Message, MessageV, Role, ToolCall, ToolCallV};
use crate::json;
use crate::json::{json_of, text_of_json};
use crate::text;
use vstd::prelude::*;

verus! {

/// Sessions whose last turn ended in unanswered tool calls, at most.
pub const MAX_PENDING_TOOL_TURNS: usize = 64;

/// A tool call as the client saw it. The arguments are its canonical JSON
/// text, so that a client that writes them anew still compares equal.
#[derive(Debug, PartialEq, Eq)]
pub struct ToolCallKey {
    pub id: String,
    pub name: String,
    pub arguments: String,
}

/// What a tool-call key holds.
#[verifier::ext_equal]
pub struct ToolCallKeyV {
    pub id: Seq<char>,
    pub name: Seq<char>,
    pub arguments: Seq<char>,
}

impl View for ToolCallKey {
    type V = ToolCallKeyV;

    open spec fn view(&self) -> ToolCallKeyV {
        ToolCallKeyV { id: self.id@, name: self.name@, arguments: self.arguments@ }
    }
}

/// What each of several keys holds.
pub open spec fn keys_view(keys: Seq<ToolCallKey>) -> Seq<ToolCallKeyV> {
    keys.map_values(|k: ToolCallKey| k@)
}

/// A session's unanswered tool calls, as the client saw them.
#[derive(Debug, PartialEq, Eq)]
pub struct PendingToolTurn {
    pub session: u64,
    pub convo: Vec<u64>,
    pub calls: Vec<ToolCallKey>,
}

/// What a pending turn holds.
#[verifier::ext_equal]
pub struct PendingV {
    pub session: u64,
    pub convo: Seq<u64>,
    pub calls: Seq<ToolCallKeyV>,
}

impl View for PendingToolTurn {
    type V = PendingV;

    open spec fn view(&self) -> PendingV {
        PendingV { session: self.session, convo: self.convo@, calls: keys_view(self.calls@) }
    }
}

/// What each of several pending turns holds.
pub open spec fn pending_view(pending: Seq<PendingToolTurn>) -> Seq<PendingV> {
    pending.map_values(|p: PendingToolTurn| p@)
}

/// FNV-1a over bytes.
pub open spec fn fnv1a(bytes: Seq<u8>) -> u64
    decreases bytes.len(),
{
    if bytes.len() == 0 {
        0xcbf29ce484222325u64
    } else {
        vstd::wrapping::u64_specs::wrapping_mul(
            fnv1a(bytes.drop_last()) ^ (bytes.last() as u64),
            0x100000001b3u64,
        )
    }
}

/// FNV-1a over the UTF-8 bytes of a text.
pub open spec fn text_hash(s: Seq<char>) -> u64 {
    fnv1a(vstd::utf8::encode_utf8(s))
}

/// FNV-1a over a user turn's text. Conversation identity is the user turns alone.
pub fn turn_hash(s: &str) -> (h: u64)
    ensures
        h == text_hash(s@),
{
    let bytes = s.as_bytes();
    let mut h: u64 = 0xcbf29ce484222325u64;
    let mut i: usize = 0;
    assert(bytes@.subrange(0, 0) =~= Seq::<u8>::empty());
    while i < bytes.len()
        invariant
            i <= bytes.len(),
            h == fnv1a(bytes@.subrange(0, i as int)),
        decreases bytes.len() - i,
    {
        assert(bytes@.subrange(0, i + 1).drop_last() =~= bytes@.subrange(0, i as int));
        h = (h ^ (bytes[i] as u64)).wrapping_mul(0x100000001b3u64);
        i = i + 1;
    }
    assert(bytes@.subrange(0, bytes@.len() as int) =~= bytes@);
    h
}

/// The canonical text of a call's arguments.
pub fn canonical_arguments(arguments: &serde_json::Value) -> (r: String)
    ensures
        r@ == text_of_json(json_of(*arguments)),
{
    match json::write(arguments) {
        Ok(s) => s,
        Err(_) => "{}".to_owned(),
    }
}

/// The key of a call that the client knows under `id`.
pub open spec fn key_of(call: ToolCallV, id: Seq<char>) -> ToolCallKeyV {
    ToolCallKeyV { id, name: call.name, arguments: text_of_json(call.arguments) }
}

fn key_for(call: &ToolCall, id: &str) -> (r: ToolCallKey)
    ensures
        r@ == key_of(call@, id@),
{
    ToolCallKey {
        id: id.to_owned(),
        name: call.name.clone(),
        arguments: canonical_arguments(&call.arguments),
    }
}

/// The tool results that a request feeds back, with the calls that they answer.
#[derive(Debug, PartialEq, Eq)]
pub struct ToolResultTail {
    /// The assistant's calls, in the order in which the client answered them.
    pub answered: Vec<ToolCallKey>,
    pub results: Vec<String>,
}

/// The texts of a list of strings.
pub open spec fn texts(list: Seq<String>) -> Seq<Seq<char>> {
    list.map_values(|s: String| s@)
}

/// Whether all messages from `from` on are tool results.
pub open spec fn only_results_from(messages: Seq<MessageV>, from: int) -> bool {
    forall|i: int| from <= i < messages.len() ==> (#[trigger] messages[i]).role == Role::Tool
}

/// Whether the message at `head` is an assistant turn with tool calls and the
/// messages behind it are its results: one for each call, in the calls' order,
/// each under the id of its call.
pub open spec fn answers_turn(messages: Seq<MessageV>, head: int) -> bool {
    &&& 0 <= head < messages.len()
    &&& messages[head].role == Role::Assistant
    &&& messages[head].tool_calls.len() > 0
    &&& only_results_from(messages, head + 1)
    &&& messages.len() - head - 1 == messages[head].tool_calls.len()
    &&& forall|i: int|
        0 <= i < messages[head].tool_calls.len() ==> {
            &&& (#[trigger] messages[head].tool_calls[i]).id is Some
            &&& messages[head + 1 + i].tool_call_id == messages[head].tool_calls[i].id
        }
}

/// The keys of the calls of the assistant turn at `head`.
pub open spec fn answered_keys(messages: Seq<MessageV>, head: int) -> Seq<ToolCallKeyV> {
    Seq::new(
        messages[head].tool_calls.len(),
        |i: int|
            key_of(messages[head].tool_calls[i], messages[head].tool_calls[i].id->Some_0),
    )
}

/// The contents of the messages behind `head`.
pub open spec fn result_texts(messages: Seq<MessageV>, head: int) -> Seq<Seq<char>> {
    Seq::new(
        (messages.len() - head - 1) as nat,
        |i: int| messages[head + 1 + i].content,
    )
}

/// Reads a trailing run of tool results, or refuses.
///
/// Refuses unless every result carries an id and those ids are exactly the
/// preceding assistant turn's calls, in order: the results are appended by
/// position, so a partial, longer or reordered set would put the calls and
/// their results out of correspondence.
pub fn tool_result_tail(messages: &Vec<Message>) -> (r: Option<ToolResultTail>)
    ensures
        match r {
            Some(tail) => exists|head: int| #[trigger]
                answers_turn(messages_view(messages@), head) && keys_view(tail.answered@)
                    == answered_keys(messages_view(messages@), head) && texts(tail.results@)
                    == result_texts(messages_view(messages@), head),
            None => forall|head: int| !#[trigger] answers_turn(messages_view(messages@), head),
        },
{
    let ghost ms = messages_view(messages@);
    let mut n: usize = messages.len();
    while n > 0 && messages[n - 1].role == Role::Tool
        invariant
            n <= messages.len(),
            ms == messages_view(messages@),
            only_results_from(ms, n as int),
        decreases n,
    {
        assert(ms[n - 1] == messages@[n - 1]@);
        n = n - 1;
    }
    assert forall|h: int| #[trigger] answers_turn(ms, h) implies h == n - 1 by {
        if h > n - 1 {
            assert(ms[h].role == Role::Tool);
        }
        if h < n - 1 {
            assert(ms[n - 1] == messages@[n - 1]@);
            assert(ms[n - 1].role == Role::Tool);
        }
    }
    if n == 0 || n == messages.len() {
        return None;
    }
    let head: usize = n - 1;
    let assistant = &messages[head];
    assert(ms[head as int] == assistant@);
    if assistant.role != Role::Assistant || assistant.tool_calls.len() == 0 {
        return None;
    }
    if messages.len() - n != assistant.tool_calls.len() {
        return None;
    }
    let mut answered: Vec<ToolCallKey> = Vec::new();
    let mut results: Vec<String> = Vec::new();
    let mut i: usize = 0;
    while i < assistant.tool_calls.len()
        invariant
            ms == messages_view(messages@),
            n == head + 1,
            n < messages.len(),
            i <= assistant.tool_calls.len(),
            messages@.len() - n == assistant.tool_calls@.len(),
            *assistant == messages@[head as int],
            ms[head as int] == assistant@,
            forall|h: int| #[trigger] answers_turn(ms, h) ==> h == head,
            answered@.len() == i,
            results@.len() == i,
            forall|j: int|
                0 <= j < i ==> {
                    &&& (#[trigger] ms[head as int].tool_calls[j]).id is Some
                    &&& ms[head + 1 + j].tool_call_id == ms[head as int].tool_calls[j].id
                },
            forall|j: int|
                0 <= j < i ==> (#[trigger] answered@[j])@ == key_of(
                    ms[head as int].tool_calls[j],
                    ms[head as int].tool_calls[j].id->Some_0,
                ),
            forall|j: int| 0 <= j < i ==> (#[trigger] results@[j])@ == ms[head + 1 + j].content,
        decreases assistant.tool_calls.len() - i,
    {
        let result = &messages[n + i];
        let call = &assistant.tool_calls[i];
        assert(ms[head + 1 + i] == result@);
        assert(ms[head as int].tool_calls[i as int] == call@);
        match (&result.tool_call_id, &call.id) {
            (Some(id), Some(call_id)) => {
                if !text::same(id.as_str(), call_id.as_str()) {
                    return None;
                }
                answered.push(key_for(call, id.as_str()));
                results.push(result.content.clone());
            },
            _ => {
                return None;
            },
        }
        i = i + 1;
    }
    proof {
        assert(answers_turn(ms, head as int));
        assert(keys_view(answered@) =~= answered_keys(ms, head as int));
        assert(texts(results@) =~= result_texts(ms, head as int));
    }
    Some(ToolResultTail { answered, results })
}

/// Whether a pending turn belongs to a conversation and left exactly these
/// calls unanswered.
pub open spec fn fits(turn: PendingV, convo: Seq<u64>, answered: Seq<ToolCallKeyV>) -> bool {
    turn.convo == convo && turn.calls == answered
}

fn same_numbers(a: &Vec<u64>, b: &Vec<u64>) -> (r: bool)
    ensures
        r == (a@ == b@),
{
    if a.len() != b.len() {
        return false;
    }
    let mut i: usize = 0;
    while i < a.len()
        invariant
            i <= a.len(),
            a.len() == b.len(),
            forall|j: int| 0 <= j < i ==> a@[j] == b@[j],
        decreases a.len() - i,
    {
        if a[i] != b[i] {
            return false;
        }
        i = i + 1;
    }
    assert(a@ =~= b@);
    true
}

fn same_key(a: &ToolCallKey, b: &ToolCallKey) -> (r: bool)
    ensures
        r == (a@ == b@),
{
    text::same(a.id.as_str(), b.id.as_str()) && text::same(a.name.as_str(), b.name.as_str())
        && text::same(a.arguments.as_str(), b.arguments.as_str())
}

fn same_keys(a: &Vec<ToolCallKey>, b: &Vec<ToolCallKey>) -> (r: bool)
    ensures
        r == (keys_view(a@) == keys_view(b@)),
{
    let ghost x = keys_view(a@);
    let ghost y = keys_view(b@);
    if a.len() != b.len() {
        assert(x.len() != y.len());
        return false;
    }
    let mut i: usize = 0;
    while i < a.len()
        invariant
            i <= a.len(),
            a.len() == b.len(),
            x == keys_view(a@),
            y == keys_view(b@),
            forall|j: int| 0 <= j < i ==> x[j] == y[j],
        decreases a.len() - i,
    {
        if !same_key(&a[i], &b[i]) {
            assert(x[i as int] == a@[i as int]@);
            assert(y[i as int] == b@[i as int]@);
            return false;
        }
        i = i + 1;
    }
    assert(x =~= y);
    true
}

/// The session that the results resolve to: the one whose pending turn fits.
/// Nothing where none fits and where several do.
pub open spec fn resolved_session(
    pending: Seq<PendingV>,
    convo: Seq<u64>,
    answered: Seq<ToolCallKeyV>,
) -> Option<u64>
    decreases pending.len(),
{
    if pending.len() == 0 {
        None
    } else {
        let init = pending.drop_last();
        if fits(pending.last(), convo, answered) {
            if exists|i: int| 0 <= i < init.len() && fits(#[trigger] init[i], convo, answered) {
                None
            } else {
                Some(pending.last().session)
            }
        } else {
            resolved_session(init, convo, answered)
        }
    }
}

/// The results resolve to a session exactly where one pending turn fits them,
/// and then to that turn's session.
pub proof fn resolution_is_unique(
    pending: Seq<PendingV>,
    convo: Seq<u64>,
    answered: Seq<ToolCallKeyV>,
)
    ensures
        match resolved_session(pending, convo, answered) {
            Some(s) => exists|i: int|
                0 <= i < pending.len() && fits(#[trigger] pending[i], convo, answered)
                    && pending[i].session == s && forall|j: int|
                    0 <= j < pending.len() && fits(#[trigger] pending[j], convo, answered) ==> j
                        == i,
            None => (forall|i: int|
                0 <= i < pending.len() ==> !fits(#[trigger] pending[i], convo, answered)) || (
            exists|i: int, j: int|
                0 <= i < j < pending.len() && fits(#[trigger] pending[i], convo, answered) && fits(
                    #[trigger] pending[j],
                    convo,
                    answered,
                )),
        },
    decreases pending.len(),
{
    if pending.len() > 0 {
        let init = pending.drop_last();
        resolution_is_unique(init, convo, answered);
        let last = pending.len() - 1;
        assert(pending[last] == pending.last());
        assert(forall|i: int| 0 <= i < init.len() ==> init[i] == pending[i]);
        if fits(pending.last(), convo, answered) {
            if exists|i: int| 0 <= i < init.len() && fits(#[trigger] init[i], convo, answered) {
                let i = choose|i: int|
                    0 <= i < init.len() && fits(#[trigger] init[i], convo, answered);
                assert(fits(pending[i], convo, answered) && fits(pending[last], convo, answered));
            }
        } else {
            match resolved_session(init, convo, answered) {
                Some(s) => {
                    let i = choose|i: int|
                        0 <= i < init.len() && fits(#[trigger] init[i], convo, answered)
                            && init[i].session == s && forall|j: int|
                            0 <= j < init.len() && fits(#[trigger] init[j], convo, answered) ==> j
                                == i;
                    assert(fits(pending[i], convo, answered));
                    assert forall|j: int|
                        0 <= j < pending.len() && fits(
                            #[trigger] pending[j],
                            convo,
                            answered,
                        ) implies j == i by {
                        assert(j < init.len());
                        assert(fits(init[j], convo, answered));
                    }
                },
                None => {
                    if exists|i: int|
                        0 <= i < init.len() && fits(#[trigger] init[i], convo, answered) {
                        let (i, j) = choose|i: int, j: int|
                            0 <= i < j < init.len() && fits(
                                #[trigger] init[i],
                                convo,
                                answered,
                            ) && fits(#[trigger] init[j], convo, answered);
                        assert(fits(pending[i], convo, answered) && fits(
                            pending[j],
                            convo,
                            answered,
                        ));
                    } else {
                        assert forall|i: int| 0 <= i < pending.len() implies !fits(
                            #[trigger] pending[i],
                            convo,
                            answered,
                        ) by {
                            if i < init.len() {
                                assert(!fits(init[i], convo, answered));
                            }
                        }
                    }
                },
            }
        }
    }
}

/// The one session whose unanswered calls these results answer.
///
/// Nothing on no match and on several: the ids are per-response indices, so
/// two sessions on the same conversation can carry the same ones.
pub fn resolve_pending_session(
    pending: &Vec<PendingToolTurn>,
    convo: &Vec<u64>,
    answered: &Vec<ToolCallKey>,
) -> (r: Option<u64>)
    ensures
        r == resolved_session(pending_view(pending@), convo@, keys_view(answered@)),
{
    let ghost pv = pending_view(pending@);
    let ghost c = convo@;
    let ghost a = keys_view(answered@);
    let mut hit: Option<u64> = None;
    let mut i: usize = 0;
    while i < pending.len()
        invariant
            i <= pending.len(),
            pv == pending_view(pending@),
            c == convo@,
            a == keys_view(answered@),
            hit == resolved_session(pv.subrange(0, i as int), c, a),
            hit is None ==> forall|j: int| 0 <= j < i ==> !fits(#[trigger] pv[j], c, a),
            hit is Some ==> exists|j: int| 0 <= j < i && fits(#[trigger] pv[j], c, a),
        decreases pending.len() - i,
    {
        let entry = &pending[i];
        assert(pv[i as int] == entry@);
        let ghost pre = pv.subrange(0, i + 1);
        assert(pre.drop_last() =~= pv.subrange(0, i as int));
        assert(pre.last() == pv[i as int]);
        if same_numbers(&entry.convo, convo) && same_keys(&entry.calls, answered) {
            if hit.is_some() {
                proof {
                    let j = choose|j: int| 0 <= j < i && fits(#[trigger] pv[j], c, a);
                    assert(fits(pv[j], c, a) && fits(pv[i as int], c, a));
                    resolution_is_unique(pv, c, a);
                }
                return None;
            }
            assert(forall|j: int| 0 <= j < pre.drop_last().len() ==> pre.drop_last()[j] == pv[j]);
            hit = Some(entry.session);
        }
        i = i + 1;
    }
    assert(pv.subrange(0, pv.len() as int) =~= pv);
    hit
}

/// The pending turns of other sessions.
pub open spec fn of_others(pending: Seq<PendingV>, session: u64) -> Seq<PendingV>
    decreases pending.len(),
{
    if pending.len() == 0 {
        Seq::empty()
    } else {
        let init = of_others(pending.drop_last(), session);
        if pending.last().session == session {
            init
        } else {
            init.push(pending.last())
        }
    }
}

/// The turn to remember: the calls under the ids that the client was given.
pub open spec fn turn_of(
    session: u64,
    convo: Seq<u64>,
    calls: Seq<ToolCallV>,
    ids: Seq<Seq<char>>,
) -> PendingV {
    PendingV {
        session,
        convo,
        calls: Seq::new(
            if ids.len() < calls.len() {
                ids.len()
            } else {
                calls.len()
            },
            |i: int| key_of(calls[i], ids[i]),
        ),
    }
}

/// The pending turns after a session's turn: what the session left before is
/// forgotten, and calls that it leaves now are remembered. At the bound the
/// oldest turn of another session gives way.
pub open spec fn recorded(pending: Seq<PendingV>, turn: PendingV, calls: nat) -> Seq<PendingV> {
    let others = of_others(pending, turn.session);
    if calls == 0 {
        others
    } else if others.len() >= MAX_PENDING_TOOL_TURNS {
        others.remove(0).push(turn)
    } else {
        others.push(turn)
    }
}

/// The turn to remember: the calls as the client will see them, under the ids
/// that the response gives them.
pub fn pending_turn(
    session: u64,
    convo: &Vec<u64>,
    tool_calls: &Vec<ToolCall>,
    ids: &Vec<String>,
) -> (r: PendingToolTurn)
    ensures
        r@ == turn_of(session, convo@, calls_view(tool_calls@), texts(ids@)),
{
    let mut calls: Vec<ToolCallKey> = Vec::new();
    let mut i: usize = 0;
    while i < ids.len() && i < tool_calls.len()
        invariant
            i <= ids.len(),
            i <= tool_calls.len(),
            calls@.len() == i,
            forall|j: int|
                0 <= j < i ==> (#[trigger] calls@[j])@ == key_of(tool_calls@[j]@, ids@[j]@),
        decreases ids.len() - i,
    {
        calls.push(key_for(&tool_calls[i], ids[i].as_str()));
        i = i + 1;
    }
    let mut own: Vec<u64> = Vec::new();
    own.extend_from_slice(convo.as_slice());
    assert(own@ =~= convo@);
    let r = PendingToolTurn { session, convo: own, calls };
    assert(r@ =~= turn_of(session, convo@, calls_view(tool_calls@), texts(ids@)));
    r
}

/// Remembers, or forgets, what a session left unanswered.
pub fn record_pending_tools(
    pending: &mut Vec<PendingToolTurn>,
    session: u64,
    convo: &Vec<u64>,
    tool_calls: &Vec<ToolCall>,
    ids: &Vec<String>,
)
    ensures
        pending_view(final(pending)@) == recorded(
            pending_view(old(pending)@),
            turn_of(session, convo@, calls_view(tool_calls@), texts(ids@)),
            tool_calls@.len(),
        ),
{
    let ghost before = pending_view(pending@);
    let ghost mut k: int = 0;
    let mut i: usize = 0;
    assert(pending_view(pending@) =~= of_others(before.subrange(0, 0), session)
        + before.subrange(0, before.len() as int));
    while i < pending.len()
        invariant
            0 <= k <= before.len(),
            i <= pending@.len(),
            pending@.len() - i == before.len() - k,
            i == of_others(before.subrange(0, k), session).len(),
            pending_view(pending@) == of_others(before.subrange(0, k), session)
                + before.subrange(k, before.len() as int),
        decreases pending.len() - i,
    {
        let ghost pv = pending_view(pending@);
        let ghost done = of_others(before.subrange(0, k), session);
        assert(pv[i as int] == before[k]);
        assert(before.subrange(0, k + 1).drop_last() =~= before.subrange(0, k));
        assert(before.subrange(0, k + 1).last() == before[k]);
        if pending[i].session == session {
            let gone = pending.remove(i);
            assert(pending_view(pending@) =~= pv.remove(i as int));
            assert(pv.remove(i as int) =~= done + before.subrange(k + 1, before.len() as int));
        } else {
            assert(pv =~= done.push(before[k]) + before.subrange(k + 1, before.len() as int));
            i = i + 1;
        }
        proof {
            k = k + 1;
        }
    }
    proof {
        assert(before.subrange(0, k) =~= before);
        assert(pending_view(pending@) =~= of_others(before, session));
    }
    if tool_calls.len() == 0 {
        return;
    }
    let turn = pending_turn(session, convo, tool_calls, ids);
    if pending.len() >= MAX_PENDING_TOOL_TURNS {
        let ghost pv = pending_view(pending@);
        let oldest = pending.remove(0);
        assert(pending_view(pending@) =~= pv.remove(0));
    }
    let ghost pv = pending_view(pending@);
    pending.push(turn);
    assert(pending_view(pending@) =~= pv.push(turn@));
}

/// The bound on pending turns, and one turn per session.
pub open spec fn pending_wf(pending: Seq<PendingV>) -> bool {
    &&& pending.len() <= MAX_PENDING_TOOL_TURNS
    &&& forall|i: int, j: int|
        0 <= i < j < pending.len() ==> (#[trigger] pending[i]).session != (
        #[trigger] pending[j]).session
}

proof fn of_others_is_subsequence(pending: Seq<PendingV>, session: u64)
    requires
        forall|i: int, j: int|
            0 <= i < j < pending.len() ==> (#[trigger] pending[i]).session != (
            #[trigger] pending[j]).session,
    ensures
        ({
            let o = of_others(pending, session);
            &&& o.len() <= pending.len()
            &&& forall|i: int| 0 <= i < o.len() ==> (#[trigger] o[i]).session != session
            &&& forall|i: int| 0 <= i < o.len() ==> pending.contains(#[trigger] o[i])
            &&& forall|i: int, j: int|
                0 <= i < j < o.len() ==> (#[trigger] o[i]).session != (#[trigger] o[j]).session
            &&& forall|i: int|
                0 <= i < pending.len() && (#[trigger] pending[i]).session != session
                    ==> o.contains(pending[i])
        }),
    decreases pending.len(),
{
    if pending.len() > 0 {
        let init = pending.drop_last();
        assert forall|i: int, j: int| 0 <= i < j < init.len() implies (
        #[trigger] init[i]).session != (#[trigger] init[j]).session by {
            assert(init[i] == pending[i] && init[j] == pending[j]);
        }
        of_others_is_subsequence(init, session);
        let oi = of_others(init, session);
        let o = of_others(pending, session);
        let last = pending.len() - 1;
        assert forall|i: int| 0 <= i < o.len() implies pending.contains(#[trigger] o[i]) by {
            if i < oi.len() {
                assert(o[i] == oi[i]);
                assert(init.contains(oi[i]));
                let k = choose|k: int| 0 <= k < init.len() && init[k] == oi[i];
                assert(pending[k] == o[i]);
            } else {
                assert(pending[last] == o[i]);
            }
        }
        assert forall|i: int, j: int| 0 <= i < j < o.len() implies (#[trigger] o[i]).session != (
        #[trigger] o[j]).session by {
            if j == oi.len() {
                assert(o[i] == oi[i]);
                assert(init.contains(oi[i]));
                let k = choose|k: int| 0 <= k < init.len() && init[k] == oi[i];
                assert(pending[k].session != pending[last].session);
            } else {
                assert(o[i] == oi[i] && o[j] == oi[j]);
            }
        }
        assert forall|i: int|
            0 <= i < pending.len() && (#[trigger] pending[i]).session
                != session implies o.contains(pending[i]) by {
            if i < last {
                assert(init[i] == pending[i]);
                assert(oi.contains(init[i]));
                let k = choose|k: int| 0 <= k < oi.len() && oi[k] == init[i];
                assert(o[k] == pending[i]);
            } else {
                assert(o[o.len() - 1] == pending[i]);
            }
        }
    }
}

/// Recording keeps the bound and one turn per session.
pub proof fn recording_keeps_bound(pending: Seq<PendingV>, turn: PendingV, calls: nat)
    requires
        pending_wf(pending),
    ensures
        pending_wf(recorded(pending, turn, calls)),
{
    of_others_is_subsequence(pending, turn.session);
}

/// The ids handed to the client are the ids that resolve the session: a turn
/// that was just recorded is found again by its own calls, unless another
/// session's turn in the same conversation fits them as well.
pub proof fn recorded_turn_resolves(pending: Seq<PendingV>, turn: PendingV, calls: nat)
    requires
        pending_wf(pending),
        calls > 0,
        forall|i: int|
            0 <= i < pending.len() && (#[trigger] pending[i]).session != turn.session ==> !fits(
                pending[i],
                turn.convo,
                turn.calls,
            ),
    ensures
        resolved_session(recorded(pending, turn, calls), turn.convo, turn.calls) == Some(
            turn.session,
        ),
{
    of_others_is_subsequence(pending, turn.session);
    let o = of_others(pending, turn.session);
    let r = recorded(pending, turn, calls);
    let init = r.drop_last();
    assert(r.last() == turn);
    assert forall|i: int| 0 <= i < init.len() implies !fits(
        #[trigger] init[i],
        turn.convo,
        turn.calls,
    ) by {
        let e = init[i];
        assert(o.contains(e)) by {
            if o.len() >= MAX_PENDING_TOOL_TURNS {
                assert(e == o[i + 1]);
            } else {
                assert(e == o[i]);
            }
        }
        let k = choose|k: int| 0 <= k < o.len() && o[k] == e;
        assert(pending.contains(o[k]));
        let p = choose|p: int| 0 <= p < pending.len() && pending[p] == o[k];
        assert(o[k].session != turn.session);
        assert(!fits(pending[p], turn.convo, turn.calls));
    }
}

/// A session that answered all its calls resolves nothing.
pub proof fn forgotten_session_does_not_resolve(
    pending: Seq<PendingV>,
    turn: PendingV,
    convo: Seq<u64>,
    answered: Seq<ToolCallKeyV>,
)
    requires
        pending_wf(pending),
    ensures
        resolved_session(recorded(pending, turn, 0), convo, answered) != Some(turn.session),
{
    of_others_is_subsequence(pending, turn.session);
    resolution_is_unique(recorded(pending, turn, 0), convo, answered);
}

/// The hash of bytes with one more behind them: the byte is mixed in, and then
/// the whole is multiplied, in 64 bits.
pub proof fn hashes_grow_by_a_byte(bytes: Seq<u8>, b: u8)
    ensures
        fnv1a(Seq::empty()) == 14695981039346656037u64,
        fnv1a(bytes.push(b)) == ((fnv1a(bytes) ^ (b as u64)) * 1099511628211) % (u64::MAX + 1),
{
    assert(bytes.push(b).drop_last() =~= bytes);
}

/// Two calls have one key exactly where they have one id, one name and
/// arguments of one text.
pub proof fn keys_tell_calls_apart(a: ToolCallV, i: Seq<char>, b: ToolCallV, j: Seq<char>)
    ensures
        key_of(a, i) == key_of(b, j) <==> i == j && a.name == b.name && text_of_json(a.arguments)
            == text_of_json(b.arguments),
{
}

/// Each result stands under the id of the call that it answers, and the keys are
/// those of the calls, in their order.
pub proof fn results_answer_their_own_calls(messages: Seq<MessageV>, head: int, i: int)
    requires
        answers_turn(messages, head),
        0 <= i < messages[head].tool_calls.len(),
    ensures
        messages[head].role == Role::Assistant,
        answered_keys(messages, head).len() == messages[head].tool_calls.len(),
        result_texts(messages, head).len() == messages[head].tool_calls.len(),
        messages[head + 1 + i].role == Role::Tool,
        messages[head + 1 + i].tool_call_id == Some(answered_keys(messages, head)[i].id),
        answered_keys(messages, head)[i].name == messages[head].tool_calls[i].name,
        answered_keys(messages, head)[i].arguments == text_of_json(
            messages[head].tool_calls[i].arguments,
        ),
        result_texts(messages, head)[i] == messages[head + 1 + i].content,
{
    assert(messages[head + 1 + i].role == Role::Tool);
    assert(messages[head].tool_calls[i].id is Some);
}

/// Fewer results than calls answer no turn, and neither do more.
pub proof fn every_call_is_answered_once(messages: Seq<MessageV>, head: int, m: MessageV, h: int)
    requires
        answers_turn(messages, head),
        m.role == Role::Tool,
    ensures
        !answers_turn(messages.drop_last(), h),
        !answers_turn(messages.push(m), h),
{
    let fewer = messages.drop_last();
    let more = messages.push(m);
    if answers_turn(fewer, h) {
        assert(fewer[h] == messages[h]);
        if h < head {
            assert(fewer[head].role == Role::Tool);
        }
        if h > head {
            assert(messages[h].role == Role::Tool);
        }
    }
    if answers_turn(more, h) {
        if h < messages.len() {
            assert(more[h] == messages[h]);
        }
        if h < head {
            assert(more[head].role == Role::Tool);
            assert(more[head] == messages[head]);
        }
        if h > head && h < messages.len() {
            assert(messages[h].role == Role::Tool);
        }
    }
}

/// The turn to remember holds the calls under the ids that the client was
/// given, pair by pair.
pub proof fn remembered_calls_have_their_ids(
    session: u64,
    convo: Seq<u64>,
    calls: Seq<ToolCallV>,
    ids: Seq<Seq<char>>,
    i: int,
)
    requires
        0 <= i < calls.len(),
        ids.len() == calls.len(),
    ensures
        turn_of(session, convo, calls, ids).session == session,
        turn_of(session, convo, calls, ids).convo == convo,
        turn_of(session, convo, calls, ids).calls.len() == calls.len(),
        turn_of(session, convo, calls, ids).calls[i].id == ids[i],
        turn_of(session, convo, calls, ids).calls[i].name == calls[i].name,
        turn_of(session, convo, calls, ids).calls[i].arguments == text_of_json(
            calls[i].arguments,
        ),
{
}

proof fn others_without(pending: Seq<PendingV>, session: u64)
    requires
        forall|i: int| 0 <= i < pending.len() ==> (#[trigger] pending[i]).session != session,
    ensures
        of_others(pending, session) == pending,
    decreases pending.len(),
{
    if pending.len() > 0 {
        let init = pending.drop_last();
        assert forall|i: int| 0 <= i < init.len() implies (#[trigger] init[i]).session
            != session by {
            assert(init[i] == pending[i]);
        }
        others_without(init, session);
        assert(pending.last() == pending[pending.len() - 1]);
        assert(init.push(pending.last()) =~= pending);
    }
}

proof fn others_without_one(pending: Seq<PendingV>, session: u64, k: int)
    requires
        0 <= k < pending.len(),
        pending[k].session == session,
        forall|i: int|
            0 <= i < pending.len() && i != k ==> (#[trigger] pending[i]).session != session,
    ensures
        of_others(pending, session) == pending.remove(k),
    decreases pending.len(),
{
    let init = pending.drop_last();
    assert(pending.last() == pending[pending.len() - 1]);
    if k == init.len() {
        assert forall|i: int| 0 <= i < init.len() implies (#[trigger] init[i]).session
            != session by {
            assert(init[i] == pending[i]);
        }
        others_without(init, session);
        assert(pending.remove(k) =~= init);
    } else {
        assert(init[k] == pending[k]);
        assert forall|i: int| 0 <= i < init.len() && i != k implies (#[trigger] init[i]).session
            != session by {
            assert(init[i] == pending[i]);
        }
        others_without_one(init, session, k);
        assert(pending.remove(k) =~= init.remove(k).push(pending.last()));
    }
}

/// A session that had nothing pending is put behind the others, of which the
/// oldest gives way where there are as many as may be; a session without calls
/// leaves the others as they are.
pub proof fn new_turns_come_last(pending: Seq<PendingV>, turn: PendingV, calls: nat)
    requires
        pending_wf(pending),
        forall|i: int| 0 <= i < pending.len() ==> (#[trigger] pending[i]).session != turn.session,
    ensures
        calls == 0 ==> recorded(pending, turn, calls) == pending,
        calls > 0 && pending.len() < 64 ==> recorded(pending, turn, calls) == pending.push(turn),
        calls > 0 && pending.len() == 64 ==> recorded(pending, turn, calls) == pending.skip(1).push(
            turn,
        ),
{
    others_without(pending, turn.session);
    if pending.len() > 0 {
        assert(pending.remove(0) =~= pending.skip(1));
    }
}

/// A session's turn takes the place of what the session left before, and goes
/// behind the others; where it leaves no calls, only the old turn goes.
pub proof fn a_session_has_one_turn(pending: Seq<PendingV>, turn: PendingV, calls: nat, k: int)
    requires
        pending_wf(pending),
        0 <= k < pending.len(),
        pending[k].session == turn.session,
    ensures
        calls == 0 ==> recorded(pending, turn, calls) == pending.remove(k),
        calls > 0 ==> recorded(pending, turn, calls) == pending.remove(k).push(turn),
{
    assert forall|i: int| 0 <= i < pending.len() && i != k implies (#[trigger] pending[i]).session
        != turn.session by {
        if i < k {
            assert(pending[i].session != pending[k].session);
        } else {
            assert(pending[k].session != pending[i].session);
        }
    }
    others_without_one(pending, turn.session, k);
}

/// Results never resolve to a session of another conversation or of other calls:
/// a session that they resolve to has a pending turn of their own conversation
/// with exactly the calls that they answer, and a lone turn that differs in either
/// leaves them unresolved.
pub proof fn results_stay_in_their_conversation(
    pending: Seq<PendingV>,
    turn: PendingV,
    convo: Seq<u64>,
    answered: Seq<ToolCallKeyV>,
)
    ensures
        resolved_session(pending, convo, answered) matches Some(s) ==> exists|i: int|
            0 <= i < pending.len() && (#[trigger] pending[i]).session == s && pending[i].convo
                == convo && pending[i].calls == answered,
        turn.convo != convo || turn.calls != answered ==> {
            &&& resolved_session(seq![turn], convo, answered) is None
            &&& resolved_session(pending.push(turn), convo, answered) == resolved_session(
                pending,
                convo,
                answered,
            )
        },
        turn.convo == convo && turn.calls == answered ==> resolved_session(
            seq![turn],
            convo,
            answered,
        ) == Some(turn.session),
{
    resolution_is_unique(pending, convo, answered);
    assert(pending.push(turn).drop_last() =~= pending);
    let one = seq![turn];
    assert(one.drop_last() =~= Seq::<PendingV>::empty());
    assert(resolved_session(one.drop_last(), convo, answered) is None);
}

} // verus!

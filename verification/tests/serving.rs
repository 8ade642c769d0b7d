//! Serving requests from slots: messages, tool turns, prompts and streams.

use hipfire::chat::{read_messages, Message, MessagesError, Role, ToolCall};
use hipfire::lanes::{LaneState, Lanes, ResetShape};
use hipfire::slot_request::{
    assistant_prefix, complete_request_slots, continuation, conversation, emitter_tools, framing,
    offered_tools, plain_frame, requested_effort, requested_model, requested_top_k, starts_in_think,
    think_mode_for, thinking_enabled, AssistantPrefix, Continuation, FrameError, Framing, ThinkMode,
    ONE_BITS,
};
use hipfire::slot_stream::{
    ClientEvent, EmitSummary, FinishReason, Notice, SlotAction, SlotEvent, SlotFailure, SlotInput,
    SlotStream,
};
use hipfire::slots::{
    canonical_arguments, pending_turn, record_pending_tools, resolve_pending_session,
    tool_result_tail, turn_hash, PendingToolTurn, ToolCallKey, MAX_PENDING_TOOL_TURNS,
};
use serde_json::Value;

fn json(s: &str) -> Value {
    serde_json::from_str(s).unwrap()
}

fn message(role: Role, content: &str) -> Message {
    Message {
        role,
        content: content.to_owned(),
        name: None,
        tool_calls: Vec::new(),
        tool_call_id: None,
    }
}

fn call(id: &str, name: &str) -> ToolCall {
    ToolCall {
        id: Some(id.to_owned()),
        name: name.to_owned(),
        arguments: json(&format!("{{\"q\":\"{name}\"}}")),
    }
}

fn result(id: &str, content: &str) -> Message {
    let mut m = message(Role::Tool, content);
    m.tool_call_id = Some(id.to_owned());
    m
}

fn exchange(calls: Vec<ToolCall>, results: Vec<Message>) -> Vec<Message> {
    let mut msgs = vec![message(Role::User, "weather?")];
    let mut assistant = message(Role::Assistant, "");
    assistant.tool_calls = calls;
    msgs.push(assistant);
    msgs.extend(results);
    msgs
}

fn key(id: &str, name: &str) -> ToolCallKey {
    ToolCallKey {
        id: id.to_owned(),
        name: name.to_owned(),
        arguments: canonical_arguments(&json(&format!("{{\"q\":\"{name}\"}}"))),
    }
}

#[test]
fn a_matching_tool_result_run_names_the_calls_it_answers() {
    let msgs = exchange(
        vec![call("call_0", "weather"), call("call_1", "time")],
        vec![result("call_0", "sunny"), result("call_1", "noon")],
    );
    let tail = tool_result_tail(&msgs).expect("a complete, in-order tail");
    assert_eq!(tail.answered, vec![key("call_0", "weather"), key("call_1", "time")]);
    assert_eq!(tail.results, vec!["sunny".to_owned(), "noon".to_owned()]);
}

#[test]
fn out_of_order_or_partial_tool_results_refuse_reuse() {
    let swapped = exchange(
        vec![call("call_0", "weather"), call("call_1", "time")],
        vec![result("call_1", "noon"), result("call_0", "sunny")],
    );
    assert!(tool_result_tail(&swapped).is_none(), "reordered");

    let partial = exchange(
        vec![call("call_0", "weather"), call("call_1", "time")],
        vec![result("call_0", "sunny")],
    );
    assert!(tool_result_tail(&partial).is_none(), "one call unanswered");

    let unidentified = exchange(vec![call("call_0", "weather")], vec![message(Role::Tool, "sunny")]);
    assert!(tool_result_tail(&unidentified).is_none(), "no tool_call_id");

    let no_calls = exchange(Vec::new(), vec![result("call_0", "sunny")]);
    assert!(
        tool_result_tail(&no_calls).is_none(),
        "results for a turn that made no calls"
    );
}

#[test]
fn a_duplicate_conversation_makes_the_reentry_ambiguous_not_lru() {
    let answered = vec![key("call_0", "weather")];
    let convo = vec![7u64];
    let entry = |session| PendingToolTurn {
        session,
        convo: vec![7u64],
        calls: vec![key("call_0", "weather")],
    };
    assert_eq!(resolve_pending_session(&vec![entry(1)], &convo, &answered), Some(1));
    assert_eq!(
        resolve_pending_session(&vec![entry(1), entry(2)], &convo, &answered),
        None,
        "two sessions fit these ids equally well"
    );
    assert_eq!(
        resolve_pending_session(&vec![entry(1)], &vec![9], &answered),
        None,
        "another conversation"
    );
    assert_eq!(
        resolve_pending_session(&vec![entry(1)], &convo, &vec![key("call_0", "time")]),
        None,
        "same id, different call"
    );
}

#[test]
fn the_ids_handed_to_the_client_are_the_ids_that_resolve_the_session() {
    let convo = vec![turn_hash("weather?")];
    let emitted = vec![
        ToolCall {
            id: None,
            name: "get_weather".to_owned(),
            arguments: json("{\"city\":\"Paris\"}"),
        },
        ToolCall {
            id: None,
            name: "get_time".to_owned(),
            arguments: json("{\"tz\":\"CET\"}"),
        },
    ];
    let ids = vec!["call_0".to_owned(), "call_1".to_owned()];
    let pending = vec![pending_turn(7, &convo, &emitted, &ids)];

    let mut assistant = message(Role::Assistant, "");
    assistant.tool_calls = emitted
        .iter()
        .zip(&ids)
        .map(|(call, id)| ToolCall {
            id: Some(id.clone()),
            name: call.name.clone(),
            arguments: json(&call.arguments.to_string()),
        })
        .collect();
    let msgs = vec![
        message(Role::User, "weather?"),
        assistant,
        result(&ids[0], "sunny"),
        result(&ids[1], "noon"),
    ];

    let tail = tool_result_tail(&msgs).expect("the client's echo must parse");
    assert_eq!(resolve_pending_session(&pending, &convo, &tail.answered), Some(7));
}

#[test]
fn configured_effort_reaches_the_emitter_instead_of_a_fixed_level() {
    assert_eq!(think_mode_for(Some(ThinkMode::High), true), ThinkMode::High);
    assert_eq!(think_mode_for(Some(ThinkMode::Max), true), ThinkMode::Max);
    assert_eq!(think_mode_for(Some(ThinkMode::Low), true), ThinkMode::Low);
    assert_eq!(think_mode_for(None, true), ThinkMode::Low);
    assert_eq!(think_mode_for(Some(ThinkMode::High), false), ThinkMode::NonThink);
}

#[test]
fn arguments_compare_by_what_they_say() {
    assert_eq!(
        canonical_arguments(&json("{\"b\":1, \"a\":[true,null]}")),
        canonical_arguments(&json("{\"a\":[true,null],\"b\":1}"))
    );
    assert_ne!(canonical_arguments(&json("{\"a\":1}")), canonical_arguments(&json("{\"a\":2}")));
    assert_eq!(canonical_arguments(&json("{\"b\": 1, \"a\": [ ]}")), "{\"a\":[],\"b\":1}");
    assert_eq!(canonical_arguments(&Value::String("x".to_owned())), "\"x\"");
}

#[test]
fn only_so_many_tool_turns_are_remembered_and_each_session_once() {
    let calls = vec![call("x", "weather")];
    let ids = vec!["call_0".to_owned()];
    let mut pending = Vec::new();
    for session in 0..(MAX_PENDING_TOOL_TURNS as u64 + 3) {
        record_pending_tools(&mut pending, session, &vec![session], &calls, &ids);
    }
    assert_eq!(pending.len(), MAX_PENDING_TOOL_TURNS);
    assert_eq!(pending[0].session, 3);
    record_pending_tools(&mut pending, 5, &vec![99], &calls, &ids);
    assert_eq!(pending.iter().filter(|p| p.session == 5).count(), 1);
    assert_eq!(
        resolve_pending_session(&pending, &vec![99], &pending.last().unwrap().calls),
        Some(5)
    );
    // A turn without calls is forgotten.
    record_pending_tools(&mut pending, 5, &vec![99], &Vec::new(), &Vec::new());
    assert!(pending.iter().all(|p| p.session != 5));
}

#[test]
fn the_hash_of_a_turn_is_that_of_its_bytes() {
    assert_eq!(turn_hash(""), 0xcbf29ce484222325);
    assert_eq!(turn_hash("a"), 0xaf63dc4c8601ec8c);
    assert_ne!(turn_hash("é"), turn_hash("e"));
}

#[test]
fn messages_are_read_with_their_calls() {
    let v = json(
        "[{\"role\":\"system\",\"content\":\"be brief\"},\
          {\"role\":\"user\",\"content\":\"hi\"},\
          {\"role\":\"assistant\",\"content\":null,\"tool_calls\":[\
             {\"id\":\"call_0\",\"function\":{\"name\":\"f\",\"arguments\":{\"a\":1}}}]},\
          {\"role\":\"tool\",\"tool_call_id\":\"call_0\",\"content\":\"ok\"}]",
    );
    let msgs = read_messages(&v).unwrap();
    assert_eq!(msgs.len(), 4);
    assert_eq!(msgs[0].role, Role::System);
    assert_eq!(msgs[2].tool_calls[0].name, "f");
    assert_eq!(msgs[2].tool_calls[0].id.as_deref(), Some("call_0"));
    assert_eq!(msgs[3].tool_call_id.as_deref(), Some("call_0"));
    assert_eq!(msgs[3].content, "ok");
}

#[test]
fn arguments_that_are_a_text_count_as_what_the_text_writes() {
    let v = json(
        "[{\"role\":\"user\",\"content\":\"hi\"},\
          {\"role\":\"assistant\",\"tool_calls\":[\
             {\"function\":{\"name\":\"f\",\"arguments\":\"{\\\"a\\\": 1}\"}},\
             {\"function\":{\"name\":\"g\",\"arguments\":\"no document\"}},\
             {\"function\":{\"name\":\"h\"}},\
             {\"function\":{}}]}]",
    );
    let msgs = read_messages(&v).unwrap();
    let calls = &msgs[1].tool_calls;
    assert_eq!(calls.len(), 3);
    assert_eq!(calls[0].arguments, json("{\"a\":1}"));
    assert_eq!(calls[1].arguments, Value::String("no document".to_owned()));
    assert_eq!(calls[2].arguments, json("{}"));
    assert_eq!(calls[2].id, None);
}

#[test]
fn messages_without_a_user_are_refused() {
    assert_eq!(read_messages(&json("{}")), Err(MessagesError::Missing));
    assert_eq!(
        read_messages(&json("[{\"role\":\"system\",\"content\":\"x\"}]")),
        Err(MessagesError::NoUser)
    );
}

#[test]
fn requests_say_what_they_want() {
    let body = json("{\"model\":\"m\",\"top_k\":7}");
    assert_eq!(requested_model(&body), "m");
    assert_eq!(requested_top_k(&body), 7);
    assert_eq!(requested_model(&json("{}")), "unknown");
    assert_eq!(requested_top_k(&json("{\"top_k\":-1}")), -1);
    assert_eq!(requested_top_k(&json("{\"top_k\":\"many\"}")), 0);
    assert_eq!(requested_effort(&json("{}")), None);
    assert_eq!(requested_effort(&json("{\"reasoning_effort\":\"high\"}")), Some("high"));
    assert!(offered_tools(None).is_none());
    assert!(offered_tools(Some(&json("[]"))).is_none());
    assert_eq!(offered_tools(Some(&json("[{}]"))).map(|t| t.len()), Some(1));
    assert!(!thinking_enabled(&json("{}"), false));
    assert!(thinking_enabled(&json("{}"), true));
    assert!(!thinking_enabled(&json("{\"max_think_tokens\":1}"), true));
}

#[test]
fn the_assistant_prefix_closes_or_opens_a_thought() {
    assert_eq!(assistant_prefix(true, true), AssistantPrefix::OpenThink);
    assert_eq!(assistant_prefix(false, true), AssistantPrefix::ClosedThink);
    assert_eq!(assistant_prefix(false, false), AssistantPrefix::Plain);
    assert!(starts_in_think("user: hi\nassistant: <think>\n"));
    assert!(!starts_in_think("<think>done</think> hello"));
}

#[test]
fn a_plain_frame_ends_with_the_user() {
    let msgs = vec![
        message(Role::System, "be brief"),
        message(Role::User, "one"),
        message(Role::Assistant, "two"),
        message(Role::User, "three"),
    ];
    let frame = plain_frame(&msgs, false, true, false).unwrap();
    assert_eq!(frame.system.as_deref(), Some("be brief"));
    assert_eq!(frame.user, "three");
    assert_eq!(
        frame.history,
        vec![(Role::User, "one".to_owned()), (Role::Assistant, "two".to_owned())]
    );
    assert_eq!(
        plain_frame(&msgs, true, true, false),
        Err(FrameError::ToolsWithoutTemplate)
    );
    assert_eq!(
        plain_frame(&vec![message(Role::System, "x")], false, true, false),
        Err(FrameError::NoUser)
    );
}

#[test]
fn a_request_continues_the_session_whose_calls_it_answers() {
    let msgs = exchange(vec![call("call_0", "weather")], vec![result("call_0", "sunny")]);
    let convo = conversation(&msgs);
    let pending = vec![PendingToolTurn {
        session: 4,
        convo: conversation(&msgs),
        calls: vec![key("call_0", "weather")],
    }];
    assert_eq!(convo, vec![turn_hash("weather?")]);
    assert_eq!(
        continuation(&msgs, &pending),
        Continuation::ToolResults { session: 4, results: vec!["sunny".to_owned()] }
    );
    assert_eq!(continuation(&msgs, &Vec::new()), Continuation::Cold);
    let turn = vec![
        message(Role::User, "a"),
        message(Role::Assistant, "b"),
        message(Role::User, "c"),
    ];
    assert_eq!(continuation(&turn, &Vec::new()), Continuation::UserTurn("c".to_owned()));
}

#[test]
fn a_template_frames_what_it_can_and_plain_frames_take_no_tools() {
    let msgs = vec![message(Role::User, "hi")];
    let tools = json("[{}]");
    let plain = json("{}");
    assert_eq!(framing(&msgs, true, Some(&tools), &plain, true), Ok(Framing::Template));
    assert_eq!(
        framing(&msgs, false, Some(&tools), &plain, true),
        Err(FrameError::ToolsWithoutTemplate)
    );
    match framing(&msgs, false, None, &json("{\"max_think_tokens\":1}"), true) {
        Ok(Framing::Plain(f)) => {
            assert_eq!((f.user.as_str(), f.prefix), ("hi", AssistantPrefix::ClosedThink));
        }
        other => panic!("{other:?}"),
    }
}

#[test]
fn a_request_is_handed_to_the_engine_as_it_was_asked() {
    let msgs = vec![
        message(Role::User, "a"),
        message(Role::Assistant, "b"),
        message(Role::User, "c"),
    ];
    let body = json("{\"model\":\"m\",\"temperature\":0.5,\"top_k\":4}");
    let plain = json("{}");
    let sent = complete_request_slots(
        &body,
        &msgs,
        &Framing::Template,
        "user: c\nassistant: <think>\n",
        None,
        &plain,
        true,
        &Vec::new(),
        64,
        Ok(9),
    )
    .unwrap();
    assert_eq!((sent.model.as_str(), sent.top_k), ("m", 4));
    assert_eq!((sent.max_tokens, sent.seed), (64, 9));
    assert_eq!(sent.prefix, AssistantPrefix::OpenThink);
    assert_eq!(sent.continuation, Continuation::UserTurn("c".to_owned()));
    assert_eq!(sent.convo, conversation(&msgs));
    assert_eq!(sent.temperature, 0.5f64.to_bits());
    assert_eq!(sent.top_p, ONE_BITS);
    assert_eq!(ONE_BITS, 1.0f64.to_bits());
    let closed = complete_request_slots(
        &plain,
        &msgs,
        &Framing::Template,
        "user: c\nassistant: ",
        None,
        &plain,
        true,
        &Vec::new(),
        64,
        Ok(9),
    )
    .unwrap();
    assert_eq!((closed.model.as_str(), closed.temperature), ("unknown", 0));
    assert_eq!(closed.prefix, AssistantPrefix::ClosedThink);
}

#[test]
fn a_request_with_a_malformed_seed_is_refused() {
    let msgs = vec![message(Role::User, "a")];
    let plain = json("{}");
    let refused = complete_request_slots(
        &plain,
        &msgs,
        &Framing::Template,
        "",
        None,
        &plain,
        true,
        &Vec::new(),
        64,
        Err("not a number".to_owned()),
    );
    assert_eq!(refused, Err("seed: not a number".to_owned()));
}

#[test]
fn the_emitter_sees_tools_only_where_a_grammar_holds_them() {
    let tools = json("[{\"name\":\"t\"}]");
    assert_eq!(emitter_tools(Some(&tools), true).map(|t| t.len()), Some(1));
    assert_eq!(emitter_tools(Some(&tools), false), None);
    assert_eq!(emitter_tools(Some(&json("[]")), true), None);
    assert_eq!(emitter_tools(None, true), None);
}

#[test]
fn a_completion_carries_its_identity_and_what_was_chosen() {
    let mut s = SlotStream::new();
    s.absorb(vec![ClientEvent::Token("x".to_owned()), ClientEvent::Reasoning("r".to_owned())]);
    let done = s.done();
    let c = s.complete("id", 7, "m".to_owned(), Ok((Vec::new(), done.clone()))).unwrap();
    assert_eq!((c.id.as_str(), c.created, c.model.as_str()), ("id", 7, "m"));
    assert_eq!((c.content.as_str(), c.reasoning_content.as_str()), ("x", "r"));
    assert!(!c.preserve_thinking && c.tool_calls.is_empty() && c.logprobs.is_none());
    assert_eq!(c.done, done);
    let refused = SlotStream::new().complete("id", 7, "m".to_owned(), Err("no".to_owned()));
    assert_eq!(refused, Err("no".to_owned()));
}

#[test]
fn a_plain_frame_and_its_continuation_open_alike() {
    let msgs = vec![message(Role::User, "hi")];
    let plain = json("{}");
    for (lowered, has_think) in [("{}", true), ("{\"max_think_tokens\":1}", true), ("{}", false)] {
        let lowered = json(lowered);
        let framed = framing(&msgs, false, None, &lowered, has_think).unwrap();
        let sent = complete_request_slots(
            &plain,
            &msgs,
            &framed,
            "",
            None,
            &lowered,
            has_think,
            &Vec::new(),
            64,
            Ok(9),
        )
        .unwrap();
        match framed {
            Framing::Plain(f) => assert_eq!(f.prefix, sent.prefix),
            other => panic!("{other:?}"),
        }
    }
}

#[test]
fn the_client_is_sent_texts_and_a_last_word() {
    assert_eq!(
        Notice::Token("a \"b\"".to_owned()).event(),
        json("{\"type\":\"token\",\"text\":\"a \\\"b\\\"\"}")
    );
    assert_eq!(
        Notice::Reasoning("hm".to_owned()).event(),
        json("{\"type\":\"reasoning\",\"text\":\"hm\"}")
    );
    let mut s = SlotStream::new();
    s.step(SlotInput::Event(SlotEvent::Accepted { session: 3, reused: 5, prefill: 7 }));
    s.step(SlotInput::Event(SlotEvent::Done { at_limit: true, generated: 2 }));
    assert_eq!(
        s.done(),
        json(
            "{\"finish_reason\":\"length\",\"cached_tokens\":5,\"prefill_tokens\":7,\"tokens\":2}"
        )
    );
}

#[test]
fn a_stream_begins_with_its_first_token_and_ends_when_it_is_done() {
    let mut s = SlotStream::new();
    let accepted = SlotInput::Event(SlotEvent::Accepted { session: 3, reused: 5, prefill: 7 });
    assert_eq!(s.step(accepted), SlotAction::Wait);
    assert_eq!((s.session, s.cached_tokens, s.prefill_tokens), (Some(3), 5, 7));
    assert_eq!(s.step(SlotInput::Timeout), SlotAction::Wait);
    assert_eq!(s.step(SlotInput::Event(SlotEvent::Token { id: 11 })), SlotAction::Begin(11));
    assert_eq!(s.step(SlotInput::Event(SlotEvent::Token { id: 12 })), SlotAction::Observe(12));
    assert_eq!(s.observed(false, 1), SlotAction::Wait);
    let done = SlotInput::Event(SlotEvent::Done { at_limit: true, generated: 2 });
    assert_eq!(s.step(done), SlotAction::Finish);
    assert_eq!(s.finish, FinishReason::Length);
    assert_eq!(s.generated_tokens, 2);
}

#[test]
fn a_stream_fails_when_it_is_cancelled_or_rejected() {
    let mut s = SlotStream::new();
    assert_eq!(s.step(SlotInput::Cancelled), SlotAction::Fail(SlotFailure::Cancelled));
    assert_eq!(s.step(SlotInput::Disconnected), SlotAction::Finish);
    let r = s.step(SlotInput::Event(SlotEvent::Rejected { reason: "full".to_owned() }));
    match r {
        SlotAction::Fail(f) => assert!(f.message().contains("full")),
        other => panic!("{other:?}"),
    }
}

#[test]
fn complete_tool_calls_win_over_the_limit_and_the_limit_over_the_verdict() {
    let summary = |calls: usize, events: Vec<ClientEvent>| EmitSummary {
        events,
        tool_calls: calls,
        finish_reason: "stop".to_owned(),
    };
    let mut s = SlotStream::new();
    let sent = s.absorb(vec![
        ClientEvent::Reasoning("hm".to_owned()),
        ClientEvent::Token("a".to_owned()),
        ClientEvent::Committed,
        ClientEvent::Token("b".to_owned()),
    ]);
    assert_eq!(
        sent,
        vec![
            Notice::Reasoning("hm".to_owned()),
            Notice::Token("a".to_owned()),
            Notice::Token("b".to_owned()),
        ]
    );
    assert_eq!((s.content.as_str(), s.reasoning_content.as_str()), ("ab", "hm"));
    s.finish = FinishReason::Length;
    s.close(summary(0, Vec::new()));
    assert_eq!(s.finish.as_text(), "length");
    s.close(summary(1, vec![ClientEvent::ToolCalls(vec![call("x", "f")])]));
    assert_eq!(s.finish.as_text(), "tool_calls");
    let mut plain = SlotStream::new();
    plain.close(summary(1, Vec::new()));
    assert_eq!(plain.finish.as_text(), "stop");
}

#[test]
fn a_finished_stream_leaves_its_calls_behind() {
    let mut s = SlotStream::new();
    s.tool_calls.push(call("x", "weather"));
    let mut pending = Vec::new();
    s.remember(&mut pending, &vec![1], &vec!["call_0".to_owned()]);
    assert!(pending.is_empty(), "no session");
    s.session = Some(2);
    s.remember(&mut pending, &vec![1], &vec!["call_0".to_owned()]);
    assert_eq!(pending.len(), 1);
    assert_eq!(pending[0].calls, vec![key("call_0", "weather")]);
}

fn lanes(shape: ResetShape) -> Lanes {
    Lanes {
        shape,
        seq_pos: 37,
        conversation_tokens: vec![1, 2, 3, 4],
        lanes: (0..shape.lane_count())
            .map(|lane| LaneState {
                persistent_policy_id: 0xCA5E_0000 + lane as u64,
                persistent_scratch_id: 0x5C12_0000 + lane as u64,
                request_tokens: vec![lane as u32, 10, 11],
            })
            .collect(),
    }
}

const SHAPES: [ResetShape; 4] = [
    ResetShape::Single,
    ResetShape::PipelineParallel,
    ResetShape::TensorParallel,
    ResetShape::ExpertParallel,
];

#[test]
fn loader_owned_reset_matrix_clears_all_request_state_and_preserves_policy() {
    for shape in SHAPES {
        let mut harness = lanes(shape);
        let persistent_before: Vec<(u64, u64)> = harness
            .lanes
            .iter()
            .map(|lane| (lane.persistent_policy_id, lane.persistent_scratch_id))
            .collect();
        let steps = harness.reset(&vec![]);
        assert!(
            steps.iter().all(|s| s.outcome.is_ok()),
            "{} reset must attest",
            shape.label()
        );
        assert_eq!(harness.seq_pos, 0);
        assert!(harness.conversation_tokens.is_empty());
        assert!(harness.lanes.iter().all(|lane| lane.request_tokens.is_empty()));
        assert_eq!(
            harness
                .lanes
                .iter()
                .map(|lane| (lane.persistent_policy_id, lane.persistent_scratch_id))
                .collect::<Vec<_>>(),
            persistent_before,
            "{} reset replaced persistent owners",
            shape.label()
        );
    }
}

#[test]
fn loader_owned_reset_matrix_aggregates_failures_and_visits_every_lane() {
    for shape in SHAPES {
        let failing_lane = shape.lane_count().saturating_sub(1);
        let mut harness = lanes(shape);
        let steps = harness.reset(&vec![failing_lane]);
        let context: Vec<String> =
            steps.into_iter().filter_map(|s| s.outcome.err()).collect();
        assert!(!context.is_empty(), "failed {} reset cannot attest", shape.label());
        let context = context.join("; ");
        assert!(
            context.contains(&format!("lane {failing_lane}")),
            "{} reset omitted failing lane: {context}",
            shape.label()
        );
        assert_eq!(
            harness.lanes[..failing_lane]
                .iter()
                .filter(|lane| lane.request_tokens.is_empty())
                .count(),
            failing_lane,
            "{} adapter stopped before later lane failure",
            shape.label()
        );
        assert_eq!(
            harness.lanes[failing_lane].request_tokens,
            vec![failing_lane as u32, 10, 11],
            "failed lane state must remain inspectable for fail-closed recovery"
        );
    }
}

#[test]
fn loader_owned_reset_is_scoped_to_one_batch_lane() {
    let mut harness = lanes(ResetShape::TensorParallel);
    let policy_before = harness.lanes[1].persistent_policy_id;
    let scratch_before = harness.lanes[1].persistent_scratch_id;
    let peer_request = harness.lanes[1].request_tokens.clone();
    harness.cancel_lane(0);
    assert!(harness.lanes[0].request_tokens.is_empty());
    assert_eq!(harness.lanes[1].request_tokens, peer_request);
    assert_eq!(harness.lanes[1].persistent_policy_id, policy_before);
    assert_eq!(harness.lanes[1].persistent_scratch_id, scratch_before);
}

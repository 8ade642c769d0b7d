//! Chat messages: how a request's message list is read.

use crate::json;
use crate::json::{json_of, json_of_text, json_seq, JsonV};
use crate::text;
use vstd::prelude::*;

verus! {

/// Who speaks a message.
#[derive(Clone, Copy, Debug, PartialEq, Eq, Structural)]
pub enum Role {
    System,
    User,
    Assistant,
    Tool,
}

/// A call that the assistant made of a tool.
#[derive(Debug, PartialEq, Eq)]
pub struct ToolCall {
    pub id: Option<String>,
    pub name: String,
    pub arguments: serde_json::Value,
}

/// What a tool call holds.
#[verifier::ext_equal]
pub struct ToolCallV {
    pub id: Option<Seq<char>>,
    pub name: Seq<char>,
    pub arguments: JsonV,
}

/// One message of a conversation.
#[derive(Debug, PartialEq, Eq)]
pub struct Message {
    pub role: Role,
    pub content: String,
    pub name: Option<String>,
    pub tool_calls: Vec<ToolCall>,
    pub tool_call_id: Option<String>,
}

/// What a message holds.
#[verifier::ext_equal]
pub struct MessageV {
    pub role: Role,
    pub content: Seq<char>,
    pub name: Option<Seq<char>>,
    pub tool_calls: Seq<ToolCallV>,
    pub tool_call_id: Option<Seq<char>>,
}

/// The characters of an optional text.
pub open spec fn opt_text(o: Option<String>) -> Option<Seq<char>> {
    match o {
        Some(s) => Some(s@),
        None => None,
    }
}

impl View for ToolCall {
    type V = ToolCallV;

    open spec fn view(&self) -> ToolCallV {
        ToolCallV {
            id: opt_text(self.id),
            name: self.name@,
            arguments: json_of(self.arguments),
        }
    }
}

/// What each of several tool calls holds.
pub open spec fn calls_view(calls: Seq<ToolCall>) -> Seq<ToolCallV> {
    calls.map_values(|c: ToolCall| c@)
}

impl View for Message {
    type V = MessageV;

    open spec fn view(&self) -> MessageV {
        MessageV {
            role: self.role,
            content: self.content@,
            name: opt_text(self.name),
            tool_calls: calls_view(self.tool_calls@),
            tool_call_id: opt_text(self.tool_call_id),
        }
    }
}

/// What each of several messages holds.
pub open spec fn messages_view(messages: Seq<Message>) -> Seq<MessageV> {
    messages.map_values(|m: Message| m@)
}

/// The role that a message object names; an unknown or missing one is the user's.
pub open spec fn role_of(m: JsonV) -> Role {
    match m.member_text("role"@) {
        Some(r) => if r == "system"@ {
            Role::System
        } else if r == "assistant"@ {
            Role::Assistant
        } else if r == "tool"@ {
            Role::Tool
        } else {
            Role::User
        },
        None => Role::User,
    }
}

/// The arguments of a function object: a text is read as the document that it
/// writes where it writes one; missing arguments are an empty object.
pub open spec fn arguments_of(function: JsonV) -> JsonV {
    match function.member("arguments"@) {
        Some(JsonV::Str(s)) => match json_of_text(s) {
            Some(j) => j,
            None => JsonV::Str(s),
        },
        Some(v) => v,
        None => JsonV::Object(Map::empty()),
    }
}

/// The tool call that an entry of `tool_calls` writes, if it names a function.
pub open spec fn tool_call_of(entry: JsonV) -> Option<ToolCallV> {
    match entry.member("function"@) {
        Some(f) => match f.member_text("name"@) {
            Some(name) => Some(
                (ToolCallV { id: entry.member_text("id"@), name, arguments: arguments_of(f) }),
            ),
            None => None,
        },
        None => None,
    }
}

/// The tool calls that the entries write, in order, without those that name no function.
pub open spec fn tool_calls_of(entries: Seq<JsonV>) -> Seq<ToolCallV>
    decreases entries.len(),
{
    if entries.len() == 0 {
        Seq::empty()
    } else {
        let init = tool_calls_of(entries.drop_last());
        match tool_call_of(entries.last()) {
            Some(c) => init.push(c),
            None => init,
        }
    }
}

/// The message that an object writes.
pub open spec fn message_of(m: JsonV) -> MessageV {
    MessageV {
        role: role_of(m),
        content: match m.member_text("content"@) {
            Some(s) => s,
            None => ""@,
        },
        name: m.member_text("name"@),
        tool_calls: match m.member_items("tool_calls"@) {
            Some(a) => tool_calls_of(a),
            None => Seq::empty(),
        },
        tool_call_id: m.member_text("tool_call_id"@),
    }
}

/// The messages that an array writes.
pub open spec fn messages_of(items: Seq<JsonV>) -> Seq<MessageV> {
    items.map_values(|m: JsonV| message_of(m))
}

/// Why a request's message list is refused.
#[derive(Clone, Copy, Debug, PartialEq, Eq, Structural)]
pub enum MessagesError {
    /// The messages are no array.
    Missing,
    /// No message is the user's.
    NoUser,
}

impl MessagesError {
    /// The error's text.
    pub fn message(&self) -> (r: String)
        ensures
            r@ == match *self {
                MessagesError::Missing => "messages is required"@,
                MessagesError::NoUser => "messages must contain at least one user message"@,
            },
    {
        match self {
            MessagesError::Missing => "messages is required".to_owned(),
            MessagesError::NoUser => "messages must contain at least one user message".to_owned(),
        }
    }
}

/// Whether a message is the user's.
pub open spec fn has_user(messages: Seq<MessageV>) -> bool {
    exists|i: int| 0 <= i < messages.len() && (#[trigger] messages[i]).role == Role::User
}

pub(crate) fn owned(o: Option<&str>) -> (r: Option<String>)
    ensures
        match o {
            Some(s) => opt_text(r) == Some(s@),
            None => r is None,
        },
{
    match o {
        Some(s) => Some(s.to_owned()),
        None => None,
    }
}

fn read_role(m: &serde_json::Value) -> (r: Role)
    ensures
        r == role_of(json_of(*m)),
{
    match json::member_text(m, "role") {
        Some(s) => if text::same(s, "system") {
            Role::System
        } else if text::same(s, "assistant") {
            Role::Assistant
        } else if text::same(s, "tool") {
            Role::Tool
        } else {
            Role::User
        },
        None => Role::User,
    }
}

fn read_arguments(function: &serde_json::Value) -> (r: serde_json::Value)
    ensures
        json_of(r) == arguments_of(json_of(*function)),
{
    match json::get(function, "arguments") {
        Some(v) => match json::as_str(v) {
            Some(s) => match json::parse(s) {
                Ok(j) => j,
                Err(_) => json::copy(v),
            },
            None => json::copy(v),
        },
        None => json::empty_object(),
    }
}

fn read_tool_call(entry: &serde_json::Value) -> (r: Option<ToolCall>)
    ensures
        match r {
            Some(c) => tool_call_of(json_of(*entry)) == Some(c@),
            None => tool_call_of(json_of(*entry)) is None,
        },
{
    match json::get(entry, "function") {
        Some(f) => match json::member_text(f, "name") {
            Some(name) => Some(
                ToolCall {
                    id: owned(json::member_text(entry, "id")),
                    name: name.to_owned(),
                    arguments: read_arguments(f),
                },
            ),
            None => None,
        },
        None => None,
    }
}

fn read_tool_calls(entries: &Vec<serde_json::Value>) -> (out: Vec<ToolCall>)
    ensures
        calls_view(out@) == tool_calls_of(json_seq(entries@)),
{
    let ghost js = json_seq(entries@);
    let mut out: Vec<ToolCall> = Vec::new();
    let mut i: usize = 0;
    assert(calls_view(out@) =~= tool_calls_of(js.subrange(0, 0)));
    while i < entries.len()
        invariant
            i <= entries.len(),
            js == json_seq(entries@),
            calls_view(out@) == tool_calls_of(js.subrange(0, i as int)),
        decreases entries.len() - i,
    {
        let ghost before = out@;
        let call = read_tool_call(&entries[i]);
        assert(js.subrange(0, i + 1).drop_last() =~= js.subrange(0, i as int));
        assert(js.subrange(0, i + 1).last() == json_of(entries@[i as int]));
        match call {
            Some(c) => {
                out.push(c);
                assert(calls_view(out@) =~= calls_view(before).push(c@));
            },
            None => {},
        }
        i = i + 1;
    }
    assert(js.subrange(0, js.len() as int) =~= js);
    out
}

fn read_message(m: &serde_json::Value) -> (r: Message)
    ensures
        r@ == message_of(json_of(*m)),
{
    let content = match json::member_text(m, "content") {
        Some(s) => s.to_owned(),
        None => "".to_owned(),
    };
    let tool_calls = match json::member_items(m, "tool_calls") {
        Some(a) => read_tool_calls(a),
        None => Vec::new(),
    };
    let r = Message {
        role: read_role(m),
        content,
        name: owned(json::member_text(m, "name")),
        tool_calls,
        tool_call_id: owned(json::member_text(m, "tool_call_id")),
    };
    assert(r@ =~= message_of(json_of(*m)));
    r
}

/// Reads a request's messages: every entry of the array is a message. A list
/// without a user's message is refused.
pub fn read_messages(messages: &serde_json::Value) -> (r: Result<Vec<Message>, MessagesError>)
    ensures
        match json_of(*messages).items() {
            None => r == Err::<Vec<Message>, MessagesError>(MessagesError::Missing),
            Some(items) => if has_user(messages_of(items)) {
                r is Ok && messages_view(r->Ok_0@) == messages_of(items)
            } else {
                r == Err::<Vec<Message>, MessagesError>(MessagesError::NoUser)
            },
        },
{
    let items = match json::as_array(messages) {
        Some(a) => a,
        None => {
            return Err(MessagesError::Missing);
        },
    };
    let ghost all = messages_of(json_seq(items@));
    let mut out: Vec<Message> = Vec::new();
    let mut user = false;
    let mut i: usize = 0;
    while i < items.len()
        invariant
            i <= items.len(),
            all == messages_of(json_seq(items@)),
            out@.len() == i,
            forall|j: int| 0 <= j < i ==> (#[trigger] out@[j])@ == all[j],
            user == exists|j: int| 0 <= j < i && (#[trigger] all[j]).role == Role::User,
        decreases items.len() - i,
    {
        let m = read_message(&items[i]);
        assert(m@ == all[i as int]);
        if m.role == Role::User {
            user = true;
        }
        out.push(m);
        i = i + 1;
    }
    if !user {
        return Err(MessagesError::NoUser);
    }
    assert(messages_view(out@) =~= all);
    Ok(out)
}

/// The role of a message is the one that it names, and the user's where it
/// names none or an unknown one.
pub proof fn roles_are_read_by_name(m: JsonV, named: Seq<char>)
    requires
        m.member_text("role"@) == Some(named),
    ensures
        role_of(m) == Role::System <==> named == "system"@,
        role_of(m) == Role::Assistant <==> named == "assistant"@,
        role_of(m) == Role::Tool <==> named == "tool"@,
        role_of(m) == Role::User <==> named != "system"@ && named != "assistant"@ && named
            != "tool"@,
{
    reveal_strlit("system");
    reveal_strlit("assistant");
    reveal_strlit("tool");
    assert("system"@.len() == 6 && "assistant"@.len() == 9 && "tool"@.len() == 4);
}

/// The calls of entries taken in two parts are the first part's and then the
/// second's; one entry that names a function makes one call, under its own id
/// and with that function's name and arguments, and any other makes none.
pub proof fn calls_add_up(a: Seq<JsonV>, b: Seq<JsonV>)
    ensures
        tool_calls_of(a + b) == tool_calls_of(a) + tool_calls_of(b),
        b.len() == 1 ==> match b[0].member("function"@) {
            Some(f) => match f.member_text("name"@) {
                Some(name) => {
                    &&& tool_calls_of(b).len() == 1
                    &&& tool_calls_of(b)[0].name == name
                    &&& tool_calls_of(b)[0].id == b[0].member_text("id"@)
                    &&& tool_calls_of(b)[0].arguments == arguments_of(f)
                },
                None => tool_calls_of(b).len() == 0,
            },
            None => tool_calls_of(b).len() == 0,
        },
    decreases b.len(),
{
    if b.len() == 0 {
        assert(a + b =~= a);
        assert(tool_calls_of(a) + tool_calls_of(b) =~= tool_calls_of(a));
    } else {
        calls_add_up(a, b.drop_last());
        assert((a + b).drop_last() =~= a + b.drop_last());
        assert((a + b).last() == b.last());
        assert(tool_calls_of(a + b) =~= tool_calls_of(a) + tool_calls_of(b));
        if b.len() == 1 {
            assert(b.drop_last() =~= Seq::empty());
        }
    }
}

/// Arguments that are a text are the document that the text writes, and the text
/// itself where it writes none; other arguments are taken as they stand.
pub proof fn arguments_are_read_once(function: JsonV, s: Seq<char>)
    ensures
        function.member("arguments"@) is None ==> arguments_of(function) == JsonV::Object(
            Map::empty(),
        ),
        function.member("arguments"@) == Some(JsonV::Str(s)) && json_of_text(s) is None
            ==> arguments_of(function) == JsonV::Str(s),
        function.member("arguments"@) == Some(JsonV::Str(s)) && json_of_text(s) is Some
            ==> arguments_of(function) == json_of_text(s)->Some_0,
        function.member("arguments"@) is Some && function.member("arguments"@)->Some_0 !is Str
            ==> arguments_of(function) == function.member("arguments"@)->Some_0,
{
}

/// Every entry of a list is one message, in its place, with each part read from
/// the member of that name.
pub proof fn messages_are_read_in_place(items: Seq<JsonV>, i: int)
    requires
        0 <= i < items.len(),
    ensures
        messages_of(items).len() == items.len(),
        items[i].member_text("content"@) matches Some(s) ==> messages_of(items)[i].content == s,
        items[i].member_text("content"@) is None ==> messages_of(items)[i].content.len() == 0,
        messages_of(items)[i].name == items[i].member_text("name"@),
        messages_of(items)[i].tool_call_id == items[i].member_text("tool_call_id"@),
        messages_of(items)[i].role == role_of(items[i]),
        items[i].member_items("tool_calls"@) matches Some(a) ==> messages_of(items)[i].tool_calls
            == tool_calls_of(a),
        items[i].member_items("tool_calls"@) is None ==> messages_of(items)[i].tool_calls.len()
            == 0,
{
    reveal_strlit("");
}

/// Messages are the user's wherever the user's message stands among them.
pub proof fn a_user_is_found_anywhere(
    before: Seq<MessageV>,
    message: MessageV,
    behind: Seq<MessageV>,
)
    ensures
        message.role == Role::User ==> has_user(before.push(message) + behind),
        message.role != Role::User ==> (has_user(before.push(message) + behind) <==> has_user(
            before,
        ) || has_user(behind)),
        !has_user(Seq::empty()),
{
    let all = before.push(message) + behind;
    let n = before.len() as int;
    assert(all[n] == message);
    if has_user(before) {
        let i = choose|i: int| 0 <= i < before.len() && (#[trigger] before[i]).role == Role::User;
        assert(all[i] == before[i]);
    }
    if has_user(behind) {
        let i = choose|i: int| 0 <= i < behind.len() && (#[trigger] behind[i]).role == Role::User;
        assert(all[n + 1 + i] == behind[i]);
    }
    if has_user(all) && message.role != Role::User {
        let i = choose|i: int| 0 <= i < all.len() && (#[trigger] all[i]).role == Role::User;
        if i < n {
            assert(before[i] == all[i]);
        } else {
            assert(behind[i - n - 1] == all[i]);
        }
    }
}

} // verus!

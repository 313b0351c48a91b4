//! What the chat and completion agents decide: which messages a request
//! carries, how model options merge into a request, how streamed answers
//! accumulate, how roles map to those of the services, and where a service
//! is reached.

use crate::data::AgentData;
use crate::error::{AgentError, ErrorModel};
use crate::json::{duplicate_json_entries, JsonModel, JsonValue};
use crate::keymap::{pairs_to_map, KeyMap};
use crate::message::{message_models, message_of_model, message_result, Message, MessageModel};
use crate::text::{concat, str_eq, to_string};
use crate::value::{models, AgentValue, ValueModel};
use vstd::prelude::*;

verus! {

broadcast use vstd::string::group_string_axioms;

/// The messages that values stand for, or the refusal of the first that
/// stands for none.
pub open spec fn messages_of_models(vs: Seq<ValueModel>) -> Result<Seq<MessageModel>, ErrorModel>
    decreases vs.len(),
{
    if vs.len() == 0 {
        Ok(Seq::empty())
    } else {
        match messages_of_models(vs.drop_last()) {
            Err(e) => Err(e),
            Ok(ms) => match message_of_model(vs.last()) {
                Err(e) => Err(e),
                Ok(m) => Ok(ms.push(m)),
            },
        }
    }
}

/// The model of a result that carries messages.
pub open spec fn messages_result(r: Result<Vec<Message>, AgentError>) -> Result<Seq<MessageModel>, ErrorModel> {
    match r {
        Ok(v) => Ok(message_models(v@)),
        Err(e) => Err(e@),
    }
}

/// A failure of a prefix is the failure of every longer prefix.
proof fn lemma_messages_error_extends(vs: Seq<ValueModel>, k: int, n: int, e: ErrorModel)
    requires
        0 < k <= n <= vs.len(),
        messages_of_models(vs.take(k)) == Err::<Seq<MessageModel>, ErrorModel>(e),
    ensures
        messages_of_models(vs.take(n)) == Err::<Seq<MessageModel>, ErrorModel>(e),
    decreases n - k,
{
    if n > k {
        lemma_messages_error_extends(vs, k, n - 1, e);
        assert(vs.take(n).drop_last() =~= vs.take(n - 1));
    }
}

/// The messages that the values of `items` stand for, after `out`.
pub fn messages_from_values(items: &Vec<AgentValue>) -> (r: Result<Vec<Message>, AgentError>)
    ensures
        messages_result(r) == messages_of_models(models(items@)),
{
    let ghost vs = models(items@);
    let mut out: Vec<Message> = Vec::new();
    let mut i: usize = 0;
    assert(vs.take(0) =~= Seq::<ValueModel>::empty());
    assert(message_models(out@) =~= Seq::<MessageModel>::empty());
    while i < items.len()
        invariant
            i <= items@.len(),
            vs == models(items@),
            messages_of_models(vs.take(i as int)) == Ok::<Seq<MessageModel>, ErrorModel>(message_models(out@)),
        decreases items.len() - i,
    {
        assert(vs.take(i + 1).drop_last() =~= vs.take(i as int));
        assert(vs.take(i + 1).last() == items@[i as int]@);
        match Message::try_from_value(items[i].duplicate()) {
            Ok(m) => {
                let ghost before = message_models(out@);
                let ghost mm = m@;
                out.push(m);
                assert(message_models(out@) =~= before.push(mm));
            },
            Err(e) => {
                proof {
                    if i + 1 < items@.len() {
                        lemma_messages_error_extends(vs, i + 1, vs.len() as int, e@);
                    }
                    assert(vs.take(vs.len() as int) =~= vs);
                }
                return Err(e);
            },
        }
        i = i + 1;
    }
    assert(vs.take(vs.len() as int) =~= vs);
    Ok(out)
}

/// The messages of a chat request for what came in: a non-empty string is
/// what the user says; a message object is that message; another object
/// gives the messages of its "history" array, and then its "message"; an
/// empty string and anything else give none.
pub open spec fn chat_input_spec(d: AgentData) -> Result<Seq<MessageModel>, ErrorModel> {
    if d.kind@ == "string"@ {
        match d.value {
            AgentValue::String(s) => if s@.len() > 0 {
                Ok(seq![MessageModel { role: "user"@, content: s@, id: None }])
            } else {
                Ok(Seq::empty())
            },
            _ => Ok(Seq::empty()),
        }
    } else if d.value is Object {
        if d.value.field("role"@) is Some && d.value.field("content"@) is Some {
            match message_of_model(d.value@) {
                Ok(m) => Ok(seq![m]),
                Err(e) => Err(e),
            }
        } else {
            let history = match d.value.field("history"@) {
                Some(AgentValue::Array(a)) => messages_of_models(models(a@)),
                _ => Ok(Seq::empty()),
            };
            match history {
                Err(e) => Err(e),
                Ok(hs) => match d.value.field("message"@) {
                    Some(v) => match message_of_model(v@) {
                        Ok(m) => Ok(hs.push(m)),
                        Err(e) => Err(e),
                    },
                    None => Ok(hs),
                },
            }
        }
    } else {
        Ok(Seq::empty())
    }
}

/// The messages of a chat request for `data`; none means no request.
pub fn chat_input_messages(data: &AgentData) -> (r: Result<Vec<Message>, AgentError>)
    ensures
        messages_result(r) == chat_input_spec(*data),
{
    let mut messages: Vec<Message> = Vec::new();
    if data.is_string() {
        match data.as_str() {
            Some(s) => {
                if !s.is_empty() {
                    messages.push(Message::user(to_string(s)));
                    assert(message_models(messages@) =~= seq![MessageModel { role: "user"@, content: s@, id: None }]);
                    return Ok(messages);
                }
            },
            None => {},
        }
        assert(message_models(messages@) =~= Seq::<MessageModel>::empty());
        return Ok(messages);
    }
    if data.is_object() {
        if data.get("role").is_some() && data.get("content").is_some() {
            match Message::try_from_value(data.value.duplicate()) {
                Ok(m) => {
                    let ghost mm = m@;
                    messages.push(m);
                    assert(message_models(messages@) =~= seq![mm]);
                    return Ok(messages);
                },
                Err(e) => {
                    return Err(e);
                },
            }
        }
        match data.get("history") {
            Some(AgentValue::Array(a)) => {
                match messages_from_values(a) {
                    Ok(ms) => {
                        messages = ms;
                    },
                    Err(e) => {
                        return Err(e);
                    },
                }
            },
            _ => {
                assert(message_models(messages@) =~= Seq::<MessageModel>::empty());
            },
        }
        match data.get("message") {
            Some(v) => match Message::try_from_value(v.duplicate()) {
                Ok(m) => {
                    let ghost before = message_models(messages@);
                    let ghost mm = m@;
                    messages.push(m);
                    assert(message_models(messages@) =~= before.push(mm));
                },
                Err(e) => {
                    return Err(e);
                },
            },
            None => {},
        }
        return Ok(messages);
    }
    assert(message_models(messages@) =~= Seq::<MessageModel>::empty());
    Ok(messages)
}

/// The prompts of a completion request for what came in: an array gives
/// the messages its values stand for, and no request where the last of them
/// is not the user's; a non-empty string is what the user says; anything
/// else gives no request.
pub open spec fn completion_input_spec(d: AgentData) -> Result<Option<Seq<MessageModel>>, ErrorModel> {
    match d.value {
        AgentValue::Array(a) => match messages_of_models(models(a@)) {
            Err(e) => Err(e),
            Ok(ms) => if ms.len() > 0 && ms.last().role != "user"@ {
                Ok(None)
            } else {
                Ok(Some(ms))
            },
        },
        AgentValue::String(s) => if s@.len() > 0 {
            Ok(Some(seq![MessageModel { role: "user"@, content: s@, id: None }]))
        } else {
            Ok(None)
        },
        _ => Ok(None),
    }
}

/// The prompts of a completion request for `data`; `None` means no request.
pub fn completion_input_messages(data: &AgentData) -> (r: Result<Option<Vec<Message>>, AgentError>)
    ensures
        completion_input_spec(*data) == (match r {
            Ok(Some(v)) => Ok(Some(message_models(v@))),
            Ok(None) => Ok(None),
            Err(e) => Err(e@),
        }),
{
    match &data.value {
        AgentValue::Array(a) => match messages_from_values(a) {
            Err(e) => Err(e),
            Ok(ms) => {
                let n = ms.len();
                if n > 0 && !str_eq(ms[n - 1].role.as_str(), "user") {
                    Ok(None)
                } else {
                    Ok(Some(ms))
                }
            },
        },
        AgentValue::String(s) => {
            if s.as_str().is_empty() {
                Ok(None)
            } else {
                let mut v: Vec<Message> = Vec::new();
                v.push(Message::user(s.clone()));
                assert(message_models(v@) =~= seq![MessageModel { role: "user"@, content: s@, id: None }]);
                Ok(Some(v))
            }
        },
        _ => Ok(None),
    }
}

/// The text that a completion or embedding request is made for: the string
/// value, where it is not empty.
pub fn text_input(data: &AgentData) -> (r: Option<String>)
    ensures
        match data.value {
            AgentValue::String(s) => if s@.len() > 0 {
                r matches Some(t) && t@ == s@
            } else {
                r is None
            },
            _ => r is None,
        },
{
    match data.as_str() {
        Some(s) => if s.is_empty() {
            None
        } else {
            Some(to_string(s))
        },
        None => None,
    }
}

/// Whether the configured options change a request: they are neither empty
/// nor the empty object "{}".
pub fn uses_options(options: &str) -> (r: bool)
    ensures
        r == (options@.len() > 0 && options@ != "{}"@),
{
    !options.is_empty() && !str_eq(options, "{}")
}

/// The members of a JSON object by their models.
pub open spec fn json_members(m: KeyMap<JsonValue>) -> Map<Seq<char>, JsonModel> {
    pairs_to_map(crate::json::json_pair_models(m.pairs()))
}

/// A request with the options merged in: where both are objects, each
/// member of the options replaces or joins the request's member of that
/// name; otherwise the request as it is.
pub fn merge_options(request: JsonValue, options: &JsonValue) -> (r: JsonValue)
    ensures
        match (request, *options) {
            (JsonValue::Object(rm), JsonValue::Object(om)) => r matches JsonValue::Object(out) && json_members(out)
                == json_members(rm).union_prefer_right(json_members(om)),
            _ => r == request,
        },
{
    match (request, options) {
        (JsonValue::Object(rm), JsonValue::Object(om)) => {
            let ghost rmm = json_members(rm);
            let ghost ops = crate::json::json_pair_models(om.pairs());
            let mut out = rm;
            let n = om.len();
            let mut i: usize = 0;
            assert(pairs_to_map(ops.take(0)) =~= Map::<Seq<char>, JsonModel>::empty()) by {
                assert(ops.take(0) =~= Seq::<(Seq<char>, JsonModel)>::empty());
            }
            assert(rmm.union_prefer_right(pairs_to_map(ops.take(0))) =~= rmm);
            while i < n
                invariant
                    i <= n == om.pairs().len(),
                    ops == crate::json::json_pair_models(om.pairs()),
                    json_members(out) == rmm.union_prefer_right(pairs_to_map(ops.take(i as int))),
                decreases n - i,
            {
                let key = om.key_at(i).clone();
                let value = om.value_at(i).duplicate();
                let ghost before = json_members(out);
                let ghost ob = out;
                let ghost k = key@;
                let ghost vm = value@;
                out.insert(key, value);
                proof {
                    crate::json::lemma_json_pair_models_map(ob);
                    crate::json::lemma_json_pair_models_map(out);
                    assert(json_members(out) =~= before.insert(k, vm));
                    assert(ops[i as int] == (k, vm));
                    assert(ops.take(i + 1).drop_last() =~= ops.take(i as int));
                    assert(rmm.union_prefer_right(pairs_to_map(ops.take(i + 1))) =~= rmm.union_prefer_right(
                        pairs_to_map(ops.take(i as int)),
                    ).insert(k, vm));
                }
                i = i + 1;
            }
            assert(ops.take(n as int) =~= ops);
            JsonValue::Object(out)
        },
        (request, _) => request,
    }
}

/// The concatenation of the texts that are there.
pub open spec fn concat_texts(ts: Seq<Option<Seq<char>>>) -> Seq<char>
    decreases ts.len(),
{
    if ts.len() == 0 {
        Seq::empty()
    } else {
        concat_texts(ts.drop_last()) + match ts.last() {
            Some(t) => t,
            None => Seq::empty(),
        }
    }
}

pub open spec fn opt_texts(ts: Seq<Option<String>>) -> Seq<Option<Seq<char>>> {
    ts.map_values(|t: Option<String>| crate::message::opt_view(t))
}

/// The texts that are there, one after the other: the content of an answer
/// with several choices.
pub fn joined_contents(contents: &Vec<Option<String>>) -> (r: String)
    ensures
        r@ == concat_texts(opt_texts(contents@)),
{
    let ghost ts = opt_texts(contents@);
    let mut out = String::new();
    let mut i: usize = 0;
    assert(ts.take(0) =~= Seq::<Option<Seq<char>>>::empty());
    while i < contents.len()
        invariant
            i <= contents@.len(),
            ts == opt_texts(contents@),
            out@ == concat_texts(ts.take(i as int)),
        decreases contents.len() - i,
    {
        assert(ts.take(i + 1).drop_last() =~= ts.take(i as int));
        match &contents[i] {
            Some(t) => {
                out = concat(out.as_str(), t.as_str());
            },
            None => {
                assert(out@ + Seq::<char>::empty() =~= out@);
            },
        }
        i = i + 1;
    }
    assert(ts.take(ts.len() as int) =~= ts);
    out
}

/// A streamed answer as it accumulates.
#[derive(Debug)]
pub struct ChatStream {
    content: String,
    id: Option<String>,
}

pub struct StreamModel {
    pub content: Seq<char>,
    pub id: Option<Seq<char>>,
}

impl View for ChatStream {
    type V = StreamModel;

    closed spec fn view(&self) -> StreamModel {
        StreamModel { content: self.content@, id: crate::message::opt_view(self.id) }
    }
}

/// The message that a stream has produced so far.
pub open spec fn stream_message(s: StreamModel) -> MessageModel {
    MessageModel { role: "assistant"@, content: s.content, id: s.id }
}

impl ChatStream {
    /// A stream with no content yet whose messages carry `id`.
    pub fn new(id: Option<String>) -> (r: Self)
        ensures
            r@ == (StreamModel { content: Seq::empty(), id: crate::message::opt_view(id) }),
    {
        ChatStream { content: String::new(), id }
    }

    /// Adds a part of the answer, and returns the answer so far.
    pub fn push_delta(&mut self, delta: &str) -> (r: Message)
        ensures
            final(self)@ == (StreamModel { content: old(self)@.content + delta@, ..old(self)@ }),
            r@ == stream_message(final(self)@),
    {
        self.content = concat(self.content.as_str(), delta);
        Message { role: to_string("assistant"), content: self.content.clone(), id: self.id.clone() }
    }

    /// Adds the parts of one chunk of an answer with several choices, which
    /// names the answer `id`, and returns the answer so far under that name.
    pub fn push_chunk(&mut self, deltas: &Vec<Option<String>>, id: String) -> (r: Message)
        ensures
            final(self)@ == (StreamModel { content: old(self)@.content + concat_texts(opt_texts(deltas@)), id: Some(id@) }),
            r@ == stream_message(final(self)@),
    {
        let part = joined_contents(deltas);
        self.content = concat(self.content.as_str(), part.as_str());
        self.id = Some(id);
        Message { role: to_string("assistant"), content: self.content.clone(), id: self.id.clone() }
    }
}

/// An event of a streamed answer of the responses service, as far as the
/// responses agent tells them apart.
#[derive(Debug)]
pub enum ResponseEvent {
    /// More text for the output item `item_id`.
    OutputTextDelta { item_id: String, delta: String },
    /// The answer is complete.
    Completed,
    /// Any other event.
    Other,
}

/// What to do after an event of a streamed answer.
#[derive(Debug)]
pub enum StreamStep {
    /// Send out the answer so far, and the event.
    Emit(Message),
    /// Send out the event and stop.
    Finish,
}

impl ChatStream {
    /// Takes in an event of a streamed answer of the responses service.
    pub fn response_event(&mut self, event: &ResponseEvent) -> (r: StreamStep)
        ensures
            match *event {
                ResponseEvent::OutputTextDelta { item_id, delta } => {
                    &&& final(self)@ == (StreamModel { content: old(self)@.content + delta@, id: Some(item_id@) })
                    &&& r matches StreamStep::Emit(m) && m@ == stream_message(final(self)@)
                },
                ResponseEvent::Completed => final(self)@ == old(self)@ && r is Finish,
                ResponseEvent::Other => final(self)@ == old(self)@ && (r matches StreamStep::Emit(m) && m@
                    == stream_message(old(self)@)),
            },
    {
        match event {
            ResponseEvent::OutputTextDelta { item_id, delta } => {
                self.id = Some(item_id.clone());
                self.content = concat(self.content.as_str(), delta.as_str());
                StreamStep::Emit(
                    Message { role: to_string("assistant"), content: self.content.clone(), id: self.id.clone() },
                )
            },
            ResponseEvent::Completed => StreamStep::Finish,
            ResponseEvent::Other => StreamStep::Emit(
                Message { role: to_string("assistant"), content: self.content.clone(), id: self.id.clone() },
            ),
        }
    }
}

/// A part of an output message of the responses service.
#[derive(Debug)]
pub enum OutputPart {
    Text(String),
    Refusal(String),
}

/// An output item of the responses service.
#[derive(Debug)]
pub enum OutputItem {
    Message(Vec<OutputPart>),
    Other,
}

pub open spec fn part_text(p: OutputPart) -> Option<Seq<char>> {
    match p {
        OutputPart::Text(t) => Some(t@),
        OutputPart::Refusal(_) => None,
    }
}

/// The texts of the message items, one after the other.
pub open spec fn output_texts(items: Seq<OutputItem>) -> Seq<char>
    decreases items.len(),
{
    if items.len() == 0 {
        Seq::empty()
    } else {
        output_texts(items.drop_last()) + match items.last() {
            OutputItem::Message(parts) => concat_texts(parts@.map_values(|p: OutputPart| part_text(p))),
            OutputItem::Other => Seq::empty(),
        }
    }
}

/// The text of an answer of the responses service: the text parts of its
/// message items, one after the other.
pub fn output_text(items: &Vec<OutputItem>) -> (r: String)
    ensures
        r@ == output_texts(items@),
{
    let mut out = String::new();
    let mut i: usize = 0;
    assert(items@.take(0) =~= Seq::<OutputItem>::empty());
    while i < items.len()
        invariant
            i <= items@.len(),
            out@ == output_texts(items@.take(i as int)),
        decreases items.len() - i,
    {
        assert(items@.take(i + 1).drop_last() =~= items@.take(i as int));
        match &items[i] {
            OutputItem::Message(parts) => {
                let ghost ps = parts@.map_values(|p: OutputPart| part_text(p));
                let before = out.clone();
                let mut j: usize = 0;
                assert(ps.take(0) =~= Seq::<Option<Seq<char>>>::empty());
                assert(out@ =~= before@ + concat_texts(ps.take(0)));
                while j < parts.len()
                    invariant
                        j <= parts@.len(),
                        ps == parts@.map_values(|p: OutputPart| part_text(p)),
                        out@ == before@ + concat_texts(ps.take(j as int)),
                    decreases parts.len() - j,
                {
                    assert(ps.take(j + 1).drop_last() =~= ps.take(j as int));
                    match &parts[j] {
                        OutputPart::Text(t) => {
                            out = concat(out.as_str(), t.as_str());
                        },
                        OutputPart::Refusal(_) => {},
                    }
                    assert(out@ =~= before@ + concat_texts(ps.take(j + 1)));
                    j = j + 1;
                }
                assert(ps.take(parts@.len() as int) =~= ps);
            },
            OutputItem::Other => {
                assert(out@ =~= out@ + Seq::<char>::empty());
            },
        }
        i = i + 1;
    }
    assert(items@.take(items@.len() as int) =~= items@);
    out
}

/// The text of an output part in a message: its text, or "Refusal: " and
/// the refusal.
pub open spec fn part_message_text(p: OutputPart) -> Seq<char> {
    match p {
        OutputPart::Text(t) => t@,
        OutputPart::Refusal(r) => "Refusal: "@ + r@,
    }
}

/// The texts joined with single spaces between them.
pub open spec fn joined_with_spaces(ts: Seq<Seq<char>>) -> Seq<char>
    decreases ts.len(),
{
    if ts.len() == 0 {
        Seq::empty()
    } else if ts.len() == 1 {
        ts[0]
    } else {
        joined_with_spaces(ts.drop_last()) + " "@ + ts.last()
    }
}

/// The roles of the responses service.
#[derive(Debug, Clone, Copy, PartialEq, Eq, Structural)]
pub enum ResponseRole {
    System,
    User,
    Assistant,
    Developer,
}

pub open spec fn response_role_name(r: ResponseRole) -> Seq<char> {
    match r {
        ResponseRole::System => "system"@,
        ResponseRole::User => "user"@,
        ResponseRole::Assistant => "assistant"@,
        ResponseRole::Developer => "developer"@,
    }
}

/// The message of an output message of the responses service: its role, its
/// parts' texts joined with spaces, and its identifier.
pub fn output_message(role: ResponseRole, parts: &Vec<OutputPart>, id: String) -> (r: Message)
    ensures
        r@ == (MessageModel {
            role: response_role_name(role),
            content: joined_with_spaces(parts@.map_values(|p: OutputPart| part_message_text(p))),
            id: Some(id@),
        }),
{
    let ghost ts = parts@.map_values(|p: OutputPart| part_message_text(p));
    let mut content = String::new();
    let mut i: usize = 0;
    assert(ts.take(0) =~= Seq::<Seq<char>>::empty());
    while i < parts.len()
        invariant
            i <= parts@.len(),
            ts == parts@.map_values(|p: OutputPart| part_message_text(p)),
            content@ == joined_with_spaces(ts.take(i as int)),
        decreases parts.len() - i,
    {
        assert(ts.take(i + 1).drop_last() =~= ts.take(i as int));
        let text = match &parts[i] {
            OutputPart::Text(t) => t.clone(),
            OutputPart::Refusal(r) => concat("Refusal: ", r.as_str()),
        };
        if i == 0 {
            content = text;
            assert(ts.take(1)[0] == ts[0]);
        } else {
            content = concat(concat(content.as_str(), " ").as_str(), text.as_str());
        }
        i = i + 1;
    }
    assert(ts.take(ts.len() as int) =~= ts);
    let name = match role {
        ResponseRole::System => to_string("system"),
        ResponseRole::User => to_string("user"),
        ResponseRole::Assistant => to_string("assistant"),
        ResponseRole::Developer => to_string("developer"),
    };
    Message { role: name, content, id: Some(id) }
}

/// The role of the responses service that a message role maps to; an
/// unknown role maps to the developer.
pub fn response_role_of(role: &str) -> (r: ResponseRole)
    ensures
        r == (if role@ == "system"@ {
            ResponseRole::System
        } else if role@ == "user"@ {
            ResponseRole::User
        } else if role@ == "assistant"@ {
            ResponseRole::Assistant
        } else {
            ResponseRole::Developer
        }),
{
    if str_eq(role, "system") {
        ResponseRole::System
    } else if str_eq(role, "user") {
        ResponseRole::User
    } else if str_eq(role, "assistant") {
        ResponseRole::Assistant
    } else {
        ResponseRole::Developer
    }
}

/// The roles of chat services.
#[derive(Debug, Clone, Copy, PartialEq, Eq, Structural)]
pub enum ChatRole {
    System,
    User,
    Assistant,
    Tool,
    Function,
}

pub open spec fn chat_role_name(r: ChatRole) -> Seq<char> {
    match r {
        ChatRole::System => "system"@,
        ChatRole::User => "user"@,
        ChatRole::Assistant => "assistant"@,
        ChatRole::Tool => "tool"@,
        ChatRole::Function => "function"@,
    }
}

/// The role of a chat request that a message role maps to; an unknown role
/// maps to the user.
pub fn chat_role_of(role: &str) -> (r: ChatRole)
    ensures
        r == (if role@ == "system"@ {
            ChatRole::System
        } else if role@ == "assistant"@ {
            ChatRole::Assistant
        } else if role@ == "tool"@ {
            ChatRole::Tool
        } else {
            ChatRole::User
        }),
{
    if str_eq(role, "system") {
        ChatRole::System
    } else if str_eq(role, "assistant") {
        ChatRole::Assistant
    } else if str_eq(role, "tool") {
        ChatRole::Tool
    } else {
        ChatRole::User
    }
}

/// The message of a chat answer: its role's name and its content, empty
/// where there is none.
pub fn chat_answer_message(role: ChatRole, content: Option<String>) -> (r: Message)
    ensures
        r@ == (MessageModel {
            role: chat_role_name(role),
            content: match content {
                Some(c) => c@,
                None => Seq::empty(),
            },
            id: None,
        }),
{
    let name = match role {
        ChatRole::System => to_string("system"),
        ChatRole::User => to_string("user"),
        ChatRole::Assistant => to_string("assistant"),
        ChatRole::Tool => to_string("tool"),
        ChatRole::Function => to_string("function"),
    };
    let text = match content {
        Some(c) => c,
        None => String::new(),
    };
    Message::new(name, text)
}

/// Where an Ollama server is reached: the configured URL where it is set and
/// not empty; else the base URL that the environment gives; else the host
/// that the environment gives, on the default port; else the local server.
pub open spec fn ollama_url_spec(configured: Option<Seq<char>>, base_url: Option<Seq<char>>, host: Option<Seq<char>>) -> Seq<char> {
    match configured {
        Some(u) if u.len() > 0 => u,
        _ => match base_url {
            Some(b) => b,
            None => match host {
                Some(h) => "http://"@ + h + ":11434"@,
                None => "http://localhost:11434"@,
            },
        },
    }
}

pub fn ollama_url(configured: Option<String>, base_url: Option<String>, host: Option<String>) -> (r: String)
    ensures
        r@ == ollama_url_spec(
            crate::message::opt_view(configured),
            crate::message::opt_view(base_url),
            crate::message::opt_view(host),
        ),
{
    match configured {
        Some(u) => {
            if !u.as_str().is_empty() {
                return u;
            }
        },
        None => {},
    }
    match base_url {
        Some(b) => b,
        None => match host {
            Some(h) => concat(concat("http://", h.as_str()).as_str(), ":11434"),
            None => to_string("http://localhost:11434"),
        },
    }
}

/// The API key to use: the configured one where it is set and not empty.
pub fn api_key(configured: Option<String>) -> (r: Option<String>)
    ensures
        match configured {
            Some(k) => if k@.len() > 0 {
                r matches Some(t) && t@ == k@
            } else {
                r is None
            },
            None => r is None,
        },
{
    match configured {
        Some(k) => if k.as_str().is_empty() {
            None
        } else {
            Some(k)
        },
        None => None,
    }
}

} // verus!

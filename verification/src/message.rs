//! Chat messages as agent data, and the message history that chat agents
//! keep.

use crate::data::AgentData;
use crate::entries::{entries_model, lemma_entries_model};
use crate::keymap::pairs_to_map;
use crate::error::{AgentError, ErrorModel};
use crate::json::{JsonModel, JsonValue};
use crate::keymap::KeyMap;
use crate::text::{str_eq, to_string};
use crate::value::{models, AgentValue, ValueModel};
use vstd::prelude::*;

verus! {

broadcast use vstd::string::group_string_axioms;

/// A chat message: who speaks, what is said, and an identifier that the
/// parts of one streamed answer share.
#[derive(Debug)]
pub struct Message {
    pub role: String,
    pub content: String,
    pub id: Option<String>,
}

pub struct MessageModel {
    pub role: Seq<char>,
    pub content: Seq<char>,
    pub id: Option<Seq<char>>,
}

pub open spec fn opt_view(o: Option<String>) -> Option<Seq<char>> {
    match o {
        Some(s) => Some(s@),
        None => None,
    }
}

impl View for Message {
    type V = MessageModel;

    open spec fn view(&self) -> MessageModel {
        MessageModel { role: self.role@, content: self.content@, id: opt_view(self.id) }
    }
}

/// The text under `key` among the fields of an object model, where it is a
/// string.
pub open spec fn str_entry(fields: Map<Seq<char>, ValueModel>, key: Seq<char>) -> Option<Seq<char>> {
    if fields.contains_key(key) {
        match fields[key] {
            ValueModel::Str(s) => Some(s),
            _ => None,
        }
    } else {
        None
    }
}

/// The message that a value stands for: a string is what the user says; an
/// object gives the content, and the role (the user where it has none) and
/// the identifier; anything else is no message.
pub open spec fn message_of_model(v: ValueModel) -> Result<MessageModel, ErrorModel> {
    match v {
        ValueModel::Str(s) => Ok(MessageModel { role: "user"@, content: s, id: None }),
        ValueModel::Object(ps) => {
            let f = pairs_to_map(ps);
            match str_entry(f, "content"@) {
                None => Err(ErrorModel::InvalidValue("Message object missing 'content' field"@)),
                Some(c) => Ok(
                    MessageModel {
                        role: match str_entry(f, "role"@) {
                            Some(r) => r,
                            None => "user"@,
                        },
                        content: c,
                        id: str_entry(f, "id"@),
                    },
                ),
            }
        },
        _ => Err(ErrorModel::InvalidValue("Cannot convert AgentValue to Message"@)),
    }
}

/// The fields of an object value by their models.
pub proof fn lemma_field_models(v: AgentValue, key: Seq<char>)
    requires
        v is Object,
    ensures
        v@ == ValueModel::Object(crate::value::pair_models(v->Object_0.pairs())),
        pairs_to_map(v@->Object_0).contains_key(key) == (v.field(key) is Some),
        v.field(key) is Some ==> pairs_to_map(v@->Object_0)[key] == v.field(key)->Some_0@,
        str_entry(pairs_to_map(v@->Object_0), key) == (match v.field(key) {
            Some(AgentValue::String(s)) => Some(s@),
            _ => None::<Seq<char>>,
        }),
{
    let km = v->Object_0;
    crate::value::lemma_object_model(km);
    lemma_entries_model(km);
    assert(entries_model(km) == pairs_to_map(v@->Object_0));
    if v.field(key) is Some {
        let x = v.field(key)->Some_0;
        assert(pairs_to_map(v@->Object_0)[key] == x@);
        match x {
            AgentValue::String(s) => {},
            AgentValue::Unit => {},
            AgentValue::Boolean(_) => {},
            AgentValue::Integer(_) => {},
            AgentValue::Number(_) => {},
            AgentValue::Array(a) => {
                crate::value::lemma_array_model(a);
            },
            AgentValue::Object(o) => {
                crate::value::lemma_object_model(o);
            },
        }
    }
}

/// The fields of the object that stands for a message.
pub open spec fn message_fields(m: MessageModel) -> Map<Seq<char>, ValueModel> {
    let base = Map::<Seq<char>, ValueModel>::empty().insert("role"@, ValueModel::Str(m.role)).insert(
        "content"@,
        ValueModel::Str(m.content),
    );
    match m.id {
        Some(id) => base.insert("id"@, ValueModel::Str(id)),
        None => base,
    }
}

/// Whether a value is the object that stands for the message `m`.
pub open spec fn is_message_value(v: AgentValue, m: MessageModel) -> bool {
    is_message_model(v@, m)
}

/// Whether a value model is the object that stands for the message `m`.
pub open spec fn is_message_model(v: ValueModel, m: MessageModel) -> bool {
    v matches ValueModel::Object(ps) && pairs_to_map(ps) == message_fields(m)
}

/// The model of a result that carries a message.
pub open spec fn message_result(r: Result<Message, AgentError>) -> Result<MessageModel, ErrorModel> {
    match r {
        Ok(m) => Ok(m@),
        Err(e) => Err(e@),
    }
}

impl Message {
    pub fn new(role: String, content: String) -> (r: Self)
        ensures
            r@ == (MessageModel { role: role@, content: content@, id: None }),
    {
        Message { role, content, id: None }
    }

    pub fn assistant(content: String) -> (r: Self)
        ensures
            r@ == (MessageModel { role: "assistant"@, content: content@, id: None }),
    {
        Message::new(to_string("assistant"), content)
    }

    pub fn system(content: String) -> (r: Self)
        ensures
            r@ == (MessageModel { role: "system"@, content: content@, id: None }),
    {
        Message::new(to_string("system"), content)
    }

    pub fn user(content: String) -> (r: Self)
        ensures
            r@ == (MessageModel { role: "user"@, content: content@, id: None }),
    {
        Message::new(to_string("user"), content)
    }

    /// A copy of the message.
    pub fn duplicate(&self) -> (r: Self)
        ensures
            r@ == self@,
    {
        Message { role: self.role.clone(), content: self.content.clone(), id: self.id.clone() }
    }

    /// The message that `value` stands for.
    pub fn try_from_value(value: AgentValue) -> (r: Result<Self, AgentError>)
        ensures
            message_result(r) == message_of_model(value@),
    {
        proof {
            if value is Object {
                lemma_field_models(value, "content"@);
                lemma_field_models(value, "role"@);
                lemma_field_models(value, "id"@);
            }
        }
        match &value {
            AgentValue::String(s) => Ok(Message::user(s.clone())),
            AgentValue::Object(_) => {
                let role = match value.get_str("role") {
                    Some(r) => to_string(r),
                    None => to_string("user"),
                };
                let content = match value.get_str("content") {
                    Some(c) => to_string(c),
                    None => {
                        return Err(AgentError::InvalidValue(to_string("Message object missing 'content' field")));
                    },
                };
                let id = match value.get_str("id") {
                    Some(i) => Some(to_string(i)),
                    None => None,
                };
                Ok(Message { role, content, id })
            },
            _ => Err(AgentError::InvalidValue(to_string("Cannot convert AgentValue to Message"))),
        }
    }

    /// The message that the value of `data` stands for.
    pub fn try_from_data(data: AgentData) -> (r: Result<Self, AgentError>)
        ensures
            message_result(r) == message_of_model(data.value@),
    {
        Message::try_from_value(data.value)
    }

    /// The object that stands for the message: its role, content and, where
    /// it has one, identifier.
    pub fn to_value(self) -> (r: AgentValue)
        ensures
            is_message_value(r, self@),
    {
        let ghost mm = self@;
        let mut fields: KeyMap<AgentValue> = KeyMap::new();
        let ghost f0 = fields;
        proof {
            lemma_entries_model(f0);
            assert(entries_model(f0) =~= Map::<Seq<char>, ValueModel>::empty());
        }
        fields.insert(to_string("role"), AgentValue::String(self.role));
        let ghost f1 = fields;
        proof {
            lemma_entries_model(f1);
            assert(entries_model(f1) =~= Map::<Seq<char>, ValueModel>::empty().insert("role"@, ValueModel::Str(mm.role)));
        }
        fields.insert(to_string("content"), AgentValue::String(self.content));
        let ghost f2 = fields;
        proof {
            lemma_entries_model(f2);
            assert(entries_model(f2) =~= entries_model(f1).insert("content"@, ValueModel::Str(mm.content)));
        }
        match self.id {
            Some(id) => {
                fields.insert(to_string("id"), AgentValue::String(id));
                proof {
                    lemma_entries_model(fields);
                    assert(entries_model(fields) =~= entries_model(f2).insert("id"@, ValueModel::Str(mm.id->Some_0)));
                }
            },
            None => {},
        }
        proof {
            crate::value::lemma_object_model(fields);
        }
        AgentValue::Object(fields)
    }

    /// The message as data of kind "message".
    pub fn to_data(self) -> (r: AgentData)
        ensures
            r.kind@ == "message"@,
            is_message_value(r.value, self@),
    {
        let v = self.to_value();
        AgentData { kind: to_string("message"), value: v }
    }
}

impl Clone for Message {
    fn clone(&self) -> (r: Self)
        ensures
            r@ == self@,
    {
        self.duplicate()
    }
}

/// A message turned into a value and back is the same message.
pub proof fn lemma_message_value_round_trip(v: ValueModel, m: MessageModel)
    requires
        is_message_model(v, m),
    ensures
        message_of_model(v) == Ok::<MessageModel, ErrorModel>(m),
{
    reveal_strlit("id");
    reveal_strlit("role");
    reveal_strlit("content");
    assert("id"@[0] == 'i');
    assert("content"@[0] == 'c');
    assert("role"@[0] == 'r');
    let f = message_fields(m);
    assert(f["content"@] == ValueModel::Str(m.content));
    assert(f["role"@] == ValueModel::Str(m.role));
    match m.id {
        Some(id) => {
            assert(f["id"@] == ValueModel::Str(id));
        },
        None => {
            assert(!f.contains_key("id"@));
        },
    }
}

/// The first message whose role is "system", if any.
pub open spec fn first_system(ms: Seq<MessageModel>) -> Option<MessageModel>
    decreases ms.len(),
{
    if ms.len() == 0 {
        None
    } else {
        match first_system(ms.drop_last()) {
            Some(m) => Some(m),
            None => if ms.last().role == "system"@ {
                Some(ms.last())
            } else {
                None
            },
        }
    }
}

/// The model of a message history.
pub struct HistoryModel {
    pub messages: Seq<MessageModel>,
    /// The most messages kept; zero or less keeps all.
    pub max_size: i64,
    /// The first system message among those that a size limit dropped.
    pub system_message: Option<MessageModel>,
    /// Whether the kept system message comes first in `messages()`.
    pub include_system: bool,
}

/// The models of messages.
pub open spec fn message_models(ms: Seq<Message>) -> Seq<MessageModel> {
    ms.map_values(|m: Message| m@)
}

/// The history of `ms` with at most `max_size` messages: where there are
/// more, the last `max_size` are kept, and the first system message among
/// those dropped is kept aside.
pub open spec fn history_new(ms: Seq<MessageModel>, max_size: i64) -> HistoryModel {
    if max_size > 0 && ms.len() > max_size {
        HistoryModel {
            messages: ms.subrange(ms.len() - max_size, ms.len() as int),
            max_size,
            system_message: first_system(ms.take(ms.len() - max_size)),
            include_system: false,
        }
    } else {
        HistoryModel { messages: ms, max_size, system_message: None, include_system: false }
    }
}

/// Adding a message: one that carries the identifier of the last message
/// (both have one, and they are equal) replaces that message's content;
/// else it is appended, the oldest message giving way where the history is
/// full.
pub open spec fn history_push(h: HistoryModel, m: MessageModel) -> HistoryModel {
    if h.messages.len() > 0 && h.messages.last().id is Some && h.messages.last().id == m.id {
        HistoryModel {
            messages: h.messages.update(
                h.messages.len() - 1,
                MessageModel { content: m.content, ..h.messages.last() },
            ),
            ..h
        }
    } else if h.max_size > 0 && h.messages.len() >= h.max_size {
        HistoryModel { messages: h.messages.skip(1).push(m), ..h }
    } else {
        HistoryModel { messages: h.messages.push(m), ..h }
    }
}

/// Changing the size limit: where more messages are kept than the new limit,
/// the last ones are kept and the first system message among those dropped
/// is kept aside, if there is one.
pub open spec fn history_set_size(h: HistoryModel, size: i64) -> HistoryModel {
    if size > 0 && h.messages.len() > size {
        HistoryModel {
            messages: h.messages.subrange(h.messages.len() - size, h.messages.len() as int),
            max_size: size,
            system_message: match first_system(h.messages.take(h.messages.len() - size)) {
                Some(s) => Some(s),
                None => h.system_message,
            },
            ..h
        }
    } else {
        HistoryModel { max_size: size, ..h }
    }
}

/// The messages that a history hands out.
pub open spec fn history_messages(h: HistoryModel) -> Seq<MessageModel> {
    if h.include_system {
        match h.system_message {
            Some(s) => seq![s] + h.messages,
            None => h.messages,
        }
    } else {
        h.messages
    }
}

/// The messages of a chat, with an optional size limit.
#[derive(Debug)]
pub struct MessageHistory {
    messages: Vec<Message>,
    max_size: i64,
    system_message: Option<Message>,
    include_system: bool,
}

pub open spec fn opt_message(o: Option<Message>) -> Option<MessageModel> {
    match o {
        Some(m) => Some(m@),
        None => None,
    }
}

impl View for MessageHistory {
    type V = HistoryModel;

    closed spec fn view(&self) -> HistoryModel {
        HistoryModel {
            messages: message_models(self.messages@),
            max_size: self.max_size,
            system_message: opt_message(self.system_message),
            include_system: self.include_system,
        }
    }
}

/// Copies of the messages from position `from` up to `to`.
fn copy_messages(ms: &Vec<Message>, from: usize, to: usize) -> (r: Vec<Message>)
    requires
        from <= to <= ms@.len(),
    ensures
        message_models(r@) == message_models(ms@).subrange(from as int, to as int),
{
    let mut out: Vec<Message> = Vec::new();
    let mut i: usize = from;
    while i < to
        invariant
            from <= i <= to <= ms@.len(),
            out@.len() == i - from,
            forall|t: int| 0 <= t < i - from ==> #[trigger] out@[t]@ == ms@[from + t]@,
        decreases to - i,
    {
        out.push(ms[i].duplicate());
        i = i + 1;
    }
    assert(message_models(out@) =~= message_models(ms@).subrange(from as int, to as int));
    out
}

/// A copy of the first system message among the first `n`.
fn find_system(ms: &Vec<Message>, n: usize) -> (r: Option<Message>)
    requires
        n <= ms@.len(),
    ensures
        opt_message(r) == first_system(message_models(ms@).take(n as int)),
{
    let ghost mm = message_models(ms@);
    let mut i: usize = 0;
    assert(mm.take(0) =~= Seq::<MessageModel>::empty());
    while i < n
        invariant
            i <= n <= ms@.len(),
            mm == message_models(ms@),
            first_system(mm.take(i as int)) is None,
        decreases n - i,
    {
        assert(mm.take(i + 1).drop_last() =~= mm.take(i as int));
        if str_eq(ms[i].role.as_str(), "system") {
            assert(first_system(mm.take(i + 1)) == Some(mm[i as int]));
            let m = ms[i].duplicate();
            proof {
                lemma_first_system_extends(mm, i as int, n as int);
            }
            return Some(m);
        }
        i = i + 1;
    }
    None
}

/// A first system message in a prefix stays the first in a longer prefix.
proof fn lemma_first_system_extends(ms: Seq<MessageModel>, i: int, n: int)
    requires
        0 <= i < n <= ms.len(),
        first_system(ms.take(i + 1)) is Some,
    ensures
        first_system(ms.take(n)) == first_system(ms.take(i + 1)),
    decreases n - i,
{
    if n > i + 1 {
        lemma_first_system_extends(ms, i, n - 1);
        assert(ms.take(n).drop_last() =~= ms.take(n - 1));
    }
}

impl MessageHistory {
    /// A history of `messages` with at most `max_size` of them (all where
    /// `max_size` is zero or less).
    pub fn new(messages: Vec<Message>, max_size: i64) -> (r: Self)
        ensures
            r@ == history_new(message_models(messages@), max_size),
    {
        let n = messages.len();
        if max_size > 0 && (n as u128) > (max_size as u128) {
            let keep = max_size as usize;
            let system_message = find_system(&messages, n - keep);
            let kept = copy_messages(&messages, n - keep, n);
            MessageHistory { messages: kept, max_size, system_message, include_system: false }
        } else {
            MessageHistory { messages, max_size, system_message: None, include_system: false }
        }
    }

    /// Whether the kept system message comes first in `messages()`.
    pub fn include_system(&mut self, enabled: bool)
        ensures
            final(self)@ == (HistoryModel { include_system: enabled, ..old(self)@ }),
    {
        self.include_system = enabled;
    }

    /// Adds a message as `history_push` says.
    pub fn push(&mut self, message: Message)
        ensures
            final(self)@ == history_push(old(self)@, message@),
    {
        let n = self.messages.len();
        if n > 0 {
            let same_id = match (&self.messages[n - 1].id, &message.id) {
                (Some(a), Some(b)) => str_eq(a.as_str(), b.as_str()),
                _ => false,
            };
            if same_id {
                let last = &self.messages[n - 1];
                let updated = Message { role: last.role.clone(), content: message.content, id: last.id.clone() };
                let ghost um = updated@;
                self.messages.set(n - 1, updated);
                assert(message_models(self.messages@) =~= message_models(old(self).messages@).update(n - 1, um));
                return;
            }
        }
        let ghost mm = message@;
        if self.max_size > 0 && (n as u128) >= (self.max_size as u128) {
            let ghost before = message_models(self.messages@);
            self.messages.remove(0);
            assert(message_models(self.messages@) =~= before.skip(1));
        }
        let ghost mid = message_models(self.messages@);
        self.messages.push(message);
        assert(message_models(self.messages@) =~= mid.push(mm));
    }

    /// Forgets all messages.
    pub fn reset(&mut self)
        ensures
            final(self)@ == (HistoryModel { messages: Seq::empty(), ..old(self)@ }),
    {
        self.messages = Vec::new();
        assert(message_models(self.messages@) =~= Seq::<MessageModel>::empty());
    }

    /// Changes the size limit as `history_set_size` says.
    pub fn set_size(&mut self, size: i64)
        ensures
            final(self)@ == history_set_size(old(self)@, size),
    {
        self.max_size = size;
        let n = self.messages.len();
        if size > 0 && (n as u128) > (size as u128) {
            let keep = size as usize;
            match find_system(&self.messages, n - keep) {
                Some(s) => {
                    self.system_message = Some(s);
                },
                None => {},
            }
            let kept = copy_messages(&self.messages, n - keep, n);
            self.messages = kept;
        }
    }

    /// The messages, after the kept system message where it is included.
    pub fn messages(&self) -> (r: Vec<Message>)
        ensures
            message_models(r@) == history_messages(self@),
    {
        let all = copy_messages(&self.messages, 0, self.messages.len());
        assert(message_models(self.messages@).subrange(0, self.messages@.len() as int) =~= message_models(self.messages@));
        if self.include_system {
            match &self.system_message {
                Some(s) => {
                    let mut out: Vec<Message> = Vec::new();
                    out.push(s.duplicate());
                    let mut i: usize = 0;
                    while i < all.len()
                        invariant
                            i <= all@.len(),
                            out@.len() == i + 1,
                            out@[0]@ == s@,
                            forall|t: int| 1 <= t <= i ==> #[trigger] out@[t]@ == all@[t - 1]@,
                        decreases all.len() - i,
                    {
                        out.push(all[i].duplicate());
                        i = i + 1;
                    }
                    assert(message_models(out@) =~= seq![s@] + message_models(all@));
                    out
                },
                None => all,
            }
        } else {
            all
        }
    }

    /// The messages as data: an array of message objects of kind "message".
    pub fn to_data(&self) -> (r: AgentData)
        ensures
            r.kind@ == "message"@,
            r.value matches AgentValue::Array(a) && a@.len() == history_messages(self@).len() && forall|i: int|
                0 <= i < a@.len() ==> is_message_value(#[trigger] a@[i], history_messages(self@)[i]),
            is_messages_model(r.value@, history_messages(self@)),
    {
        let ms = self.messages();
        let mut out: Vec<AgentValue> = Vec::new();
        let mut rest = ms;
        let ghost all = message_models(rest@);
        let mut taken: Vec<Message> = Vec::new();
        while rest.len() > 0
            invariant
                taken@.len() + rest@.len() == all.len(),
                message_models(rest@) == all.take(rest@.len() as int),
                forall|t: int| 0 <= t < taken@.len() ==> #[trigger] taken@[t]@ == all[all.len() - 1 - t],
            decreases rest@.len(),
        {
            let ghost before = rest@;
            let m = rest.pop().unwrap();
            assert(m == before[before.len() - 1]);
            assert(message_models(before)[before.len() - 1] == m@);
            assert(all.take(before.len() as int)[before.len() - 1] == all[before.len() - 1]);
            assert(message_models(rest@) =~= all.take(rest@.len() as int));
            let ghost tb = taken@;
            taken.push(m);
            assert(forall|t: int| 0 <= t < tb.len() ==> #[trigger] taken@[t] == tb[t]);
        }
        while taken.len() > 0
            invariant
                out@.len() + taken@.len() == all.len(),
                forall|t: int| 0 <= t < taken@.len() ==> #[trigger] taken@[t]@ == all[all.len() - 1 - t],
                forall|t: int| 0 <= t < out@.len() ==> is_message_value(#[trigger] out@[t], all[t]),
            decreases taken@.len(),
        {
            let m = taken.pop().unwrap();
            out.push(m.to_value());
        }
        proof {
            crate::value::lemma_array_model(out);
            let a = models(out@);
            assert forall|i: int| 0 <= i < a.len() implies is_message_model(#[trigger] a[i], all[i]) by {
                assert(a[i] == out@[i]@);
            }
        }
        AgentData { kind: to_string("message"), value: AgentValue::Array(out) }
    }
}

impl Default for MessageHistory {
    fn default() -> (r: Self)
        ensures
            r@ == history_new(Seq::empty(), 0),
    {
        let empty: Vec<Message> = Vec::new();
        assert(message_models(empty@) =~= Seq::<MessageModel>::empty());
        MessageHistory::new(empty, 0)
    }
}

/// A history within its size limit stays within it as messages are added.
pub proof fn lemma_push_keeps_size_limit(h: HistoryModel, m: MessageModel)
    requires
        h.max_size > 0,
        h.messages.len() <= h.max_size,
    ensures
        history_push(h, m).messages.len() <= h.max_size,
        history_push(h, m).max_size == h.max_size,
{
}

/// Adding a message with the identifier of the last one (both have one)
/// changes only that message's content.
pub proof fn lemma_push_same_id_updates_last(h: HistoryModel, m: MessageModel)
    requires
        h.messages.len() > 0,
        h.messages.last().id is Some,
        h.messages.last().id == m.id,
    ensures
        history_push(h, m).messages.len() == h.messages.len(),
        history_push(h, m).messages.last().content == m.content,
        history_push(h, m).messages.last().role == h.messages.last().role,
        forall|i: int| 0 <= i < h.messages.len() - 1 ==> #[trigger] history_push(h, m).messages[i] == h.messages[i],
{
}

/// A message without an identifier is always appended: it becomes the last
/// message, after the earlier ones that the size limit leaves.
pub proof fn lemma_push_without_id_appends(h: HistoryModel, m: MessageModel)
    requires
        m.id is None,
    ensures
        history_push(h, m).messages.last() == m,
        history_push(h, m).messages.drop_last() == (if h.max_size > 0 && h.messages.len() >= h.max_size {
            h.messages.skip(1)
        } else {
            h.messages
        }),
{
    let r = history_push(h, m).messages;
    if h.max_size > 0 && h.messages.len() >= h.max_size {
        assert(r.drop_last() =~= h.messages.skip(1));
    } else {
        assert(r.drop_last() =~= h.messages);
    }
}

/// The first system message of a sequence is one of its messages, with the
/// role "system".
proof fn lemma_first_system_member(ms: Seq<MessageModel>)
    requires
        first_system(ms) is Some,
    ensures
        exists|i: int| 0 <= i < ms.len() && ms[i] == first_system(ms)->Some_0,
        first_system(ms)->Some_0.role == "system"@,
    decreases ms.len(),
{
    if first_system(ms.drop_last()) is Some {
        lemma_first_system_member(ms.drop_last());
        let i = choose|i: int| 0 <= i < ms.drop_last().len() && ms.drop_last()[i] == first_system(ms.drop_last())->Some_0;
        assert(ms[i] == ms.drop_last()[i]);
    } else {
        assert(ms[ms.len() - 1] == ms.last());
    }
}

/// The system message that a size limit keeps aside is a system message
/// among those that the limit dropped.
pub proof fn lemma_kept_aside_system_was_dropped(ms: Seq<MessageModel>, max_size: i64)
    requires
        history_new(ms, max_size).system_message is Some,
    ensures
        ({
            let s = history_new(ms, max_size).system_message->Some_0;
            &&& s.role == "system"@
            &&& exists|i: int| 0 <= i < ms.len() - max_size && ms[i] == s
        }),
{
    let d = ms.take(ms.len() - max_size);
    lemma_first_system_member(d);
    let i = choose|i: int| 0 <= i < d.len() && d[i] == first_system(d)->Some_0;
    assert(ms[i] == d[i]);
}

/// After the size limit changes to a positive size, at most that many
/// messages are kept.
pub proof fn lemma_set_size_bounds(h: HistoryModel, size: i64)
    requires
        size > 0,
    ensures
        history_set_size(h, size).messages.len() <= size,
{
}

/// The member `key` of a JSON object.
pub open spec fn json_member(j: JsonValue, key: Seq<char>) -> Option<JsonValue> {
    match j {
        JsonValue::Object(m) => if m.map().contains_key(key) {
            Some(m.map()[key])
        } else {
            None
        },
        _ => None,
    }
}

/// The message that a JSON document describes: an object with the string
/// members "role" and "content", and optionally "id", a string or null;
/// or what is wrong with it.
pub open spec fn message_of_json(j: JsonValue) -> Result<MessageModel, Seq<char>> {
    match j {
        JsonValue::Object(_) => match json_member(j, "role"@) {
            None => Err("missing field `role`"@),
            Some(JsonValue::String(r)) => match json_member(j, "content"@) {
                None => Err("missing field `content`"@),
                Some(JsonValue::String(c)) => match json_member(j, "id"@) {
                    None => Ok(MessageModel { role: r@, content: c@, id: None }),
                    Some(JsonValue::Null) => Ok(MessageModel { role: r@, content: c@, id: None }),
                    Some(JsonValue::String(i)) => Ok(MessageModel { role: r@, content: c@, id: Some(i@) }),
                    Some(_) => Err("invalid type: expected a string"@),
                },
                Some(_) => Err("invalid type: expected a string"@),
            },
            Some(_) => Err("invalid type: expected a string"@),
        },
        _ => Err("invalid type: expected struct Message"@),
    }
}

/// The messages that JSON documents describe, or what is wrong with the
/// first that describes none.
pub open spec fn messages_of_json(js: Seq<JsonValue>) -> Result<Seq<MessageModel>, Seq<char>>
    decreases js.len(),
{
    if js.len() == 0 {
        Ok(Seq::empty())
    } else {
        match messages_of_json(js.drop_last()) {
            Err(e) => Err(e),
            Ok(ms) => match message_of_json(js.last()) {
                Err(e) => Err(e),
                Ok(m) => Ok(ms.push(m)),
            },
        }
    }
}

/// The message that a JSON document describes.
pub fn message_from_json(j: &JsonValue) -> (r: Result<Message, String>)
    ensures
        match r {
            Ok(m) => message_of_json(*j) == Ok::<MessageModel, Seq<char>>(m@),
            Err(e) => message_of_json(*j) == Err::<MessageModel, Seq<char>>(e@),
        },
{
    match j {
        JsonValue::Object(m) => {
            let role = match m.get("role") {
                None => {
                    return Err(to_string("missing field `role`"));
                },
                Some(JsonValue::String(r)) => r.clone(),
                Some(_) => {
                    return Err(to_string("invalid type: expected a string"));
                },
            };
            let content = match m.get("content") {
                None => {
                    return Err(to_string("missing field `content`"));
                },
                Some(JsonValue::String(c)) => c.clone(),
                Some(_) => {
                    return Err(to_string("invalid type: expected a string"));
                },
            };
            let id = match m.get("id") {
                None => None,
                Some(JsonValue::Null) => None,
                Some(JsonValue::String(i)) => Some(i.clone()),
                Some(_) => {
                    return Err(to_string("invalid type: expected a string"));
                },
            };
            Ok(Message { role, content, id })
        },
        _ => Err(to_string("invalid type: expected struct Message")),
    }
}

impl MessageHistory {
    /// The history of the messages that a JSON array describes, without a
    /// size limit.
    pub fn from_json(value: JsonValue) -> (r: Result<Self, AgentError>)
        ensures
            match value {
                JsonValue::Array(a) => match messages_of_json(a@) {
                    Ok(ms) => r matches Ok(h) && h@ == history_new(ms, 0),
                    Err(d) => r matches Err(e) && e@ == ErrorModel::InvalidValue("Invalid message format: "@ + d),
                },
                _ => r matches Err(e) && e@ == ErrorModel::InvalidValue("Expected JSON array for MessageHistory"@),
            },
    {
        match &value {
            JsonValue::Array(a) => {
                let mut messages: Vec<Message> = Vec::new();
                let mut i: usize = 0;
                assert(a@.take(0) =~= Seq::<JsonValue>::empty());
                assert(message_models(messages@) =~= Seq::<MessageModel>::empty());
                while i < a.len()
                    invariant
                        i <= a@.len(),
                        value == JsonValue::Array(*a),
                        messages_of_json(a@.take(i as int)) == Ok::<Seq<MessageModel>, Seq<char>>(message_models(messages@)),
                    decreases a.len() - i,
                {
                    assert(a@.take(i + 1).drop_last() =~= a@.take(i as int));
                    assert(a@.take(i + 1).last() == a@[i as int]);
                    match message_from_json(&a[i]) {
                        Ok(m) => {
                            let ghost before = message_models(messages@);
                            let ghost mm = m@;
                            messages.push(m);
                            assert(message_models(messages@) =~= before.push(mm));
                        },
                        Err(d) => {
                            proof {
                                lemma_messages_of_json_error(a@, i as int);
                            }
                            let text = crate::text::concat("Invalid message format: ", d.as_str());
                            return Err(AgentError::InvalidValue(text));
                        },
                    }
                    i = i + 1;
                }
                assert(a@.take(a@.len() as int) =~= a@);
                Ok(MessageHistory::new(messages, 0))
            },
            _ => Err(AgentError::InvalidValue(to_string("Expected JSON array for MessageHistory"))),
        }
    }
}

/// Where a prefix describes messages and the next document does not, the
/// whole sequence fails with what is wrong with that document.
proof fn lemma_messages_of_json_error(js: Seq<JsonValue>, i: int)
    requires
        0 <= i < js.len(),
        messages_of_json(js.take(i)) is Ok,
        message_of_json(js[i]) is Err,
    ensures
        messages_of_json(js) == Err::<Seq<MessageModel>, Seq<char>>(message_of_json(js[i])->Err_0),
    decreases js.len() - i,
{
    assert(js.take(i + 1).drop_last() =~= js.take(i));
    if i + 1 < js.len() {
        lemma_messages_of_json_error_extends(js, i + 1, js.len() as int, message_of_json(js[i])->Err_0);
        assert(js.take(js.len() as int) =~= js);
    } else {
        assert(js.take(i + 1) =~= js);
    }
}

/// A failure of a prefix is the failure of every longer prefix.
proof fn lemma_messages_of_json_error_extends(js: Seq<JsonValue>, k: int, n: int, d: Seq<char>)
    requires
        0 < k <= n <= js.len(),
        messages_of_json(js.take(k)) == Err::<Seq<MessageModel>, Seq<char>>(d),
    ensures
        messages_of_json(js.take(n)) == Err::<Seq<MessageModel>, Seq<char>>(d),
    decreases n - k,
{
    if n > k {
        lemma_messages_of_json_error_extends(js, k, n - 1, d);
        assert(js.take(n).drop_last() =~= js.take(n - 1));
    }
}

/// Whether data is a message: an object with members "role" and "content".
pub open spec fn is_message_data(d: AgentData) -> bool {
    d.value.field("role"@) is Some && d.value.field("content"@) is Some
}

pub fn is_message(data: &AgentData) -> (r: bool)
    ensures
        r == is_message_data(*data),
{
    data.get("role").is_some() && data.get("content").is_some()
}

/// Whether data is a message with its history: an object with members
/// "message" and "history".
pub open spec fn is_message_history_data(d: AgentData) -> bool {
    d.value.field("message"@) is Some && d.value.field("history"@) is Some
}

pub fn is_message_history(data: &AgentData) -> (r: bool)
    ensures
        r == is_message_history_data(*data),
{
    data.get("message").is_some() && data.get("history").is_some()
}

/// Whether data is a list of messages.
pub open spec fn message_list_input(d: AgentData) -> bool {
    d.value is Array && d.kind@ == "message"@
}

/// The text of string data, where it is not empty.
pub open spec fn text_input(d: AgentData) -> Option<Seq<char>> {
    if d.kind@ == "string"@ {
        match d.value {
            AgentValue::String(s) => if s@.len() > 0 {
                Some(s@)
            } else {
                None
            },
            _ => None,
        }
    } else {
        None
    }
}

/// Adds `message` to what came in: an array of messages gets it at its
/// end; a non-empty string becomes a user message after it; anything else
/// gives way to the message alone.
pub fn add_message(data: AgentData, message: Message) -> (r: AgentData)
    ensures
        r.kind@ == "message"@,
        message_list_input(data) ==> (r.value matches AgentValue::Array(a) && a@.len() == data.value->Array_0@.len() + 1
            && models(a@.drop_last()) == models(data.value->Array_0@) && is_message_value(a@.last(), message@)),
        !message_list_input(data) && text_input(data) is Some ==> (r.value matches AgentValue::Array(a) && a@.len() == 2
            && is_message_value(a@[0], message@) && is_message_value(
            a@[1],
            MessageModel { role: "user"@, content: text_input(data)->Some_0, id: None },
        )),
        !message_list_input(data) && text_input(data) is None ==> is_message_value(r.value, message@),
{
    if data.is_array() && str_eq(data.kind.as_str(), "message") {
        match data.value {
            AgentValue::Array(arr) => {
                let mut arr = arr;
                let ghost before = arr@;
                arr.push(message.to_value());
                assert(arr@.drop_last() =~= before);
                return AgentData { kind: to_string("message"), value: AgentValue::Array(arr) };
            },
            _ => {
                assert(false);
                return message.to_data();
            },
        }
    }
    if data.is_string() {
        let value = match data.as_str() {
            Some(s) => to_string(s),
            None => String::new(),
        };
        if !value.as_str().is_empty() {
            let in_message = Message::user(value);
            let mut out: Vec<AgentValue> = Vec::new();
            out.push(message.to_value());
            out.push(in_message.to_value());
            return AgentData { kind: to_string("message"), value: AgentValue::Array(out) };
        }
    }
    message.to_data()
}

/// Whether `v` is the array of the values that stand for the messages `ms`.
pub open spec fn is_messages_model(v: ValueModel, ms: Seq<MessageModel>) -> bool {
    v matches ValueModel::Array(vs) && vs.len() == ms.len() && forall|i: int| 0 <= i < vs.len() ==> is_message_model(#[trigger] vs[i], ms[i])
}

/// The values that stand for messages.
fn messages_to_values(ms: Vec<Message>) -> (r: Vec<AgentValue>)
    ensures
        r@.len() == ms@.len(),
        forall|i: int| 0 <= i < r@.len() ==> is_message_value(#[trigger] r@[i], ms@[i]@),
{
    let mut out: Vec<AgentValue> = Vec::new();
    let mut i: usize = 0;
    while i < ms.len()
        invariant
            i <= ms@.len(),
            out@.len() == i,
            forall|t: int| 0 <= t < i ==> is_message_value(#[trigger] out@[t], ms@[t]@),
        decreases ms.len() - i,
    {
        out.push(ms[i].duplicate().to_value());
        i = i + 1;
    }
    out
}

/// The state of the message history agent: its history, and whether the
/// next message is its first since it started or was reset.
#[derive(Debug)]
pub struct HistoryAgentState {
    history: MessageHistory,
    first_run: bool,
}

pub struct HistoryAgentModel {
    pub history: HistoryModel,
    pub first_run: bool,
}

impl View for HistoryAgentState {
    type V = HistoryAgentModel;

    closed spec fn view(&self) -> HistoryAgentModel {
        HistoryAgentModel { history: self.history@, first_run: self.first_run }
    }
}

impl HistoryAgentState {
    pub fn new() -> (r: Self)
        ensures
            r@ == (HistoryAgentModel { history: history_new(Seq::empty(), 0), first_run: true }),
    {
        let empty: Vec<Message> = Vec::new();
        assert(message_models(empty@) =~= Seq::<MessageModel>::empty());
        HistoryAgentState { history: MessageHistory::new(empty, 0), first_run: true }
    }

    /// Forgets the messages; the next message is a first one again.
    pub fn reset(&mut self)
        ensures
            final(self)@ == (HistoryAgentModel {
                history: HistoryModel { messages: Seq::empty(), ..old(self)@.history },
                first_run: true,
            }),
    {
        self.first_run = true;
        self.history.reset();
    }

    /// Whether the next message is a first one, which a configured preamble
    /// replaces the history for.
    pub fn is_first_run(&self) -> (r: bool)
        ensures
            r == self@.first_run,
    {
        self.first_run
    }

    /// Takes in data: the history gets the size limit `history_size`; on a
    /// first message it becomes `preamble`, where there is one; then the
    /// message that the data stands for is added. Returns the history as
    /// data and, where the message is the user's, the message together with
    /// the history.
    pub fn process(&mut self, history_size: i64, preamble: Option<MessageHistory>, data: AgentData) -> (r: Result<(AgentData, Option<AgentData>), AgentError>)
        ensures
            ({
                let h1 = history_set_size(old(self)@.history, history_size);
                let h2 = if old(self)@.first_run {
                    match preamble {
                        Some(p) => p@,
                        None => h1,
                    }
                } else {
                    h1
                };
                &&& final(self)@.first_run == false
                &&& match message_of_model(data.value@) {
                    Err(e) => final(self)@.history == h2 && (r matches Err(x) && x@ == ErrorModel::InvalidValue(
                        "Failed to convert data to Message: "@ + crate::error::error_text(e),
                    )),
                    Ok(m) => {
                        let h3 = history_push(h2, m);
                        &&& final(self)@.history == h3
                        &&& r matches Ok((hd, out))
                        &&& hd.kind@ == "message"@ && is_messages_model(hd.value@, history_messages(h3))
                        &&& if m.role == "user"@ {
                            &&& out matches Some(d)
                            &&& d.kind@ == "object"@
                            &&& d.value@ is Object
                            &&& pairs_to_map(d.value@->Object_0).dom() =~= set!["message"@, "history"@]
                            &&& is_message_model(pairs_to_map(d.value@->Object_0)["message"@], m)
                            &&& is_messages_model(pairs_to_map(d.value@->Object_0)["history"@], history_messages(h3))
                        } else {
                            out is None
                        }
                    },
                }
            }),
    {
        self.history.set_size(history_size);
        if self.first_run {
            self.first_run = false;
            match preamble {
                Some(p) => {
                    self.history = p;
                },
                None => {},
            }
        }
        let message = match Message::try_from_data(data) {
            Ok(m) => m,
            Err(e) => {
                let text = crate::text::concat("Failed to convert data to Message: ", e.message().as_str());
                return Err(AgentError::InvalidValue(text));
            },
        };
        let ghost mm = message@;
        self.history.push(message.duplicate());
        let history_data = self.history.to_data();
        if !str_eq(message.role.as_str(), "user") {
            return Ok((history_data, None));
        }
        let msgs = self.history.messages();
        let ghost msgs_model = message_models(msgs@);
        let values = messages_to_values(msgs);
        proof {
            crate::value::lemma_array_model(values);
        }
        let mut fields: KeyMap<AgentValue> = KeyMap::new();
        let ghost f0 = fields;
        let mv = message.to_value();
        let ghost mvm = mv@;
        let ghost vs = AgentValue::Array(values)@;
        fields.insert(to_string("message"), mv);
        fields.insert(to_string("history"), AgentValue::Array(values));
        proof {
            reveal_strlit("message");
            reveal_strlit("history");
            assert("message"@[0] != "history"@[0]);
            lemma_entries_model(fields);
            crate::value::lemma_object_model(fields);
            assert(f0.map() =~= Map::<Seq<char>, AgentValue>::empty());
            assert(entries_model(fields).dom() =~= set!["message"@, "history"@]);
            assert(entries_model(fields)["message"@] == mvm);
            assert(entries_model(fields)["history"@] == vs);
            assert(is_messages_model(vs, msgs_model)) by {
                let a = vs->Array_0;
                assert forall|i: int| 0 <= i < a.len() implies is_message_model(#[trigger] a[i], msgs_model[i]) by {
                    assert(a[i] == values@[i]@);
                }
            }
        }
        Ok((history_data, Some(AgentData { kind: to_string("object"), value: AgentValue::Object(fields) })))
    }
}

} // verus!

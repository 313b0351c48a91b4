//! How the prompt agents read messages out of data: the user's message and
//! the history before it, the prompts of a completion request, preambles,
//! and the memory of recent messages.

use crate::data::AgentData;
use crate::entries::{duplicate_entries, entries_model, lemma_entries_model};
use crate::error::{AgentError, ErrorModel};
use crate::json::{JsonModel, JsonValue};
use crate::keymap::{increasing, lemma_increasing_canonical, pairs_to_map, KeyMap};
use crate::message::{lemma_field_models, str_entry};
use crate::text::{chars_less, str_eq, to_string};
use crate::value::{lemma_array_model, lemma_object_model, models, pair_models, AgentValue, ValueModel};
use vstd::prelude::*;

verus! {

broadcast use vstd::string::group_string_axioms;

/// The fields of an object model; none for other values.
pub open spec fn obj_fields(v: ValueModel) -> Map<Seq<char>, ValueModel> {
    match v {
        ValueModel::Object(ps) => pairs_to_map(ps),
        _ => Map::empty(),
    }
}

/// The role of a value: its "role" text, or nothing.
pub open spec fn role_of(v: ValueModel) -> Seq<char> {
    match str_entry(obj_fields(v), "role"@) {
        Some(r) => r,
        None => Seq::empty(),
    }
}

/// The user message that a plain string stands for here: empty content.
pub open spec fn user_stub() -> ValueModel {
    ValueModel::Object(seq![("content"@, ValueModel::Str(Seq::empty())), ("role"@, ValueModel::Str("user"@))])
}

/// The user's message and the history before it, in what came in: an
/// object with the role "user" is the user's message; an object with
/// another role is history; a string stands for an empty user message; an
/// array gives the history of its items one after the other, each followed
/// by its user message, and its last entry, where it is the user's, becomes
/// the user's message.
pub open spec fn message_history_of(v: ValueModel) -> Result<(Option<ValueModel>, Seq<ValueModel>), ErrorModel>
    decreases v,
{
    match v {
        ValueModel::Array(items) => match history_of_items(items) {
            Err(e) => Err(e),
            Ok(out) => if out.len() > 0 && role_of(out.last()) == "user"@ {
                Ok((Some(out.last()), out.drop_last()))
            } else {
                Ok((None, out))
            },
        },
        ValueModel::Str(_) => Ok((Some(user_stub()), Seq::empty())),
        ValueModel::Object(ps) => {
            let f = pairs_to_map(ps);
            if !f.contains_key("role"@) {
                Err(ErrorModel::InvalidValue("data has no role"@))
            } else {
                match f["role"@] {
                    ValueModel::Str(r) => if r == "user"@ {
                        Ok((Some(v), Seq::empty()))
                    } else {
                        Ok((None, seq![v]))
                    },
                    _ => Err(ErrorModel::InvalidValue("role is not a string"@)),
                }
            }
        },
        _ => Err(ErrorModel::InvalidValue("Unsupported data type"@)),
    }
}

/// The history of the items of an array, each followed by its user message.
pub open spec fn history_of_items(items: Seq<ValueModel>) -> Result<Seq<ValueModel>, ErrorModel>
    decreases items,
{
    if items.len() == 0 {
        Ok(Seq::empty())
    } else {
        proof {
            assert(decreases_to!(items => items.subrange(0, items.len() - 1)));
            assert(decreases_to!(items => items[items.len() - 1]));
        }
        match history_of_items(items.subrange(0, items.len() - 1)) {
            Err(e) => Err(e),
            Ok(out) => match message_history_of(items[items.len() - 1]) {
                Err(e) => Err(e),
                Ok((m, h)) => Ok(
                    out + h + match m {
                        Some(x) => seq![x],
                        None => Seq::empty(),
                    },
                ),
            },
        }
    }
}

/// The value that stands for an empty user message.
fn user_stub_value() -> (r: AgentValue)
    ensures
        r@ == user_stub(),
        r is Object,
{
    let mut m: KeyMap<AgentValue> = KeyMap::new();
    let ghost m0 = m.map();
    assert(m0 =~= Map::<Seq<char>, AgentValue>::empty());
    let c = String::new();
    assert(c@ =~= Seq::<char>::empty());
    m.insert(to_string("content"), AgentValue::String(c));
    m.insert(to_string("role"), AgentValue::String(to_string("user")));
    let _ = m.len();
    proof {
        reveal_strlit("content");
        reveal_strlit("role");
        reveal_strlit("user");
        let lit = seq![("content"@, ValueModel::Str(Seq::empty())), ("role"@, ValueModel::Str("user"@))];
        assert(chars_less("content"@, "role"@)) by {
            assert("content"@[0] == 'c');
            assert("role"@[0] == 'r');
        }
        assert(increasing(lit));
        lemma_entries_model(m);
        assert("content"@ != "role"@) by {
            assert("content"@[0] != "role"@[0]);
        }
        let pm = pair_models(m.pairs());
        assert(increasing(pm)) by {
            assert(increasing(m.pairs()));
            assert forall|i: int, j: int| 0 <= i < j < pm.len() implies chars_less(#[trigger] pm[i].0, #[trigger] pm[j].0) by {
                assert(chars_less(m.pairs()[i].0, m.pairs()[j].0));
            }
        }
        let mm = m.map();
        assert(mm.contains_key("content"@));
        assert(mm.contains_key("role"@));
        assert(mm["content"@]@ == ValueModel::Str(Seq::empty()));
        assert(mm["role"@]@ == ValueModel::Str("user"@));
        let em = entries_model(m);
        assert(em.contains_key("content"@));
        assert(em.contains_key("role"@));
        assert(em["content"@] == ValueModel::Str(Seq::empty()));
        assert(em["role"@] == ValueModel::Str("user"@));
        assert forall|k: Seq<char>| #[trigger] em.contains_key(k) implies k == "content"@ || k == "role"@ by {
            assert(mm.contains_key(k));
        }
        reveal_with_fuel(pairs_to_map, 3);
        let lm = pairs_to_map(lit);
        assert(lm.contains_key("content"@));
        assert(lm.contains_key("role"@));
        assert(lm["content"@] == ValueModel::Str(Seq::empty()));
        assert(lm["role"@] == ValueModel::Str("user"@));
        assert(lm =~= em);
        lemma_increasing_canonical(lit, pm);
        lemma_object_model(m);
    }
    AgentValue::Object(m)
}

/// The role text of a value, or nothing.
fn role_text(v: &AgentValue) -> (r: String)
    ensures
        r@ == role_of(v@),
{
    proof {
        if v is Object {
            lemma_field_models(*v, "role"@);
        } else {
            if v is Array {
                lemma_array_model(v->Array_0);
            }
        }
    }
    match v.get_str("role") {
        Some(r) => to_string(r),
        None => String::new(),
    }
}

/// The user's message and the history before it, as `message_history_of`
/// says; the message as data of kind "message".
pub fn value_to_message_history(value: &AgentValue) -> (r: Result<(Option<AgentData>, Vec<AgentValue>), AgentError>)
    ensures
        message_history_of(value@) == (match r {
            Ok((m, h)) => Ok(
                (
                    match m {
                        Some(d) => Some(d.value@),
                        None => None::<ValueModel>,
                    },
                    models(h@),
                ),
            ),
            Err(e) => Err(e@),
        }),
        r matches Ok((Some(d), _)) ==> d.kind@ == "message"@,
    decreases value,
{
    match value {
        AgentValue::Array(a) => {
            proof {
                lemma_array_model(*a);
            }
            let ghost items = models(a@);
            let mut out: Vec<AgentValue> = Vec::new();
            let mut i: usize = 0;
            assert(items.take(0) =~= Seq::<ValueModel>::empty());
            assert(models(out@) =~= Seq::<ValueModel>::empty());
            while i < a.len()
                invariant
                    i <= a@.len(),
                    *value == AgentValue::Array(*a),
                    value@ == ValueModel::Array(items),
                    items == models(a@),
                    history_of_items(items.take(i as int)) == Ok::<Seq<ValueModel>, ErrorModel>(models(out@)),
                decreases a.len() - i,
            {
                proof {
                    assert(decreases_to!(value => value->Array_0));
                    assert(decreases_to!(a => a@[i as int]));
                    assert(items.take(i + 1).subrange(0, i as int) =~= items.take(i as int));
                    assert(items.take(i + 1)[i as int] == a@[i as int]@);
                }
                match value_to_message_history(&a[i]) {
                    Err(e) => {
                        proof {
                            lemma_history_error_extends(items, i + 1, items.len() as int, e@);
                            assert(items.take(items.len() as int) =~= items);
                        }
                        return Err(e);
                    },
                    Ok((m, h)) => {
                        let ghost before = models(out@);
                        let ghost hm = models(h@);
                        let mut h = h;
                        let mut k: usize = 0;
                        while k < h.len()
                            invariant
                                k <= h@.len(),
                                hm == models(h@),
                                models(out@) == before + hm.take(k as int),
                            decreases h.len() - k,
                        {
                            let ghost prev = models(out@);
                            let x = h[k].duplicate();
                            let ghost xm = x@;
                            out.push(x);
                            assert(models(out@) =~= prev.push(xm));
                            assert(xm == hm[k as int]);
                            assert(hm.take(k + 1) =~= hm.take(k as int).push(hm[k as int]));
                            assert(models(out@) =~= before + hm.take(k + 1));
                            k = k + 1;
                        }
                        assert(hm.take(h@.len() as int) =~= hm);
                        match m {
                            Some(d) => {
                                let ghost mid = models(out@);
                                let ghost dm = d.value@;
                                out.push(d.value);
                                assert(models(out@) =~= mid + seq![dm]);
                            },
                            None => {
                                assert(models(out@) =~= models(out@) + Seq::<ValueModel>::empty());
                            },
                        }
                    },
                }
                i = i + 1;
            }
            assert(items.take(a@.len() as int) =~= items);
            let n = out.len();
            if n > 0 {
                let role = role_text(&out[n - 1]);
                if str_eq(role.as_str(), "user") {
                    let ghost all = models(out@);
                    let ghost lastv = out@[n - 1];
                    let last = out.pop().unwrap();
                    assert(last == lastv);
                    assert(models(out@) =~= all.drop_last());
                    match &last {
                        AgentValue::Object(m) => {
                            let copy = duplicate_entries(m);
                            proof {
                                lemma_object_model(*m);
                                lemma_object_model(copy);
                            }
                            let d = AgentData { kind: to_string("message"), value: AgentValue::Object(copy) };
                            return Ok((Some(d), out));
                        },
                        _ => {
                            proof {
                                if last is Array {
                                    lemma_array_model(last->Array_0);
                                }
                                reveal_strlit("user");
                                assert(role@ == role_of(lastv@));
                                assert(!(lastv@ is Object));
                                assert(obj_fields(lastv@) =~= Map::<Seq<char>, ValueModel>::empty());
                                assert(str_entry(obj_fields(lastv@), "role"@) is None);
                                assert(role@.len() == 0);
                                assert("user"@.len() == 4);
                                assert(false);
                            }
                            return Err(AgentError::InvalidValue(to_string("last message is not an object")));
                        },
                    }
                }
            }
            Ok((None, out))
        },
        AgentValue::String(_) => {
            let v = user_stub_value();
            let empty: Vec<AgentValue> = Vec::new();
            assert(models(empty@) =~= Seq::<ValueModel>::empty());
            Ok((Some(AgentData { kind: to_string("message"), value: v }), empty))
        },
        AgentValue::Object(m) => {
            proof {
                lemma_object_model(*m);
                lemma_entries_model(*m);
                lemma_field_models(*value, "role"@);
            }
            match m.get("role") {
                None => Err(AgentError::InvalidValue(to_string("data has no role"))),
                Some(role) => match role {
                    AgentValue::String(r) => {
                        if str_eq(r.as_str(), "user") {
                            let copy = duplicate_entries(m);
                            proof {
                                lemma_object_model(copy);
                            }
                            let empty: Vec<AgentValue> = Vec::new();
                            assert(models(empty@) =~= Seq::<ValueModel>::empty());
                            Ok((Some(AgentData { kind: to_string("message"), value: AgentValue::Object(copy) }), empty))
                        } else {
                            let mut h: Vec<AgentValue> = Vec::new();
                            h.push(value.duplicate());
                            assert(models(h@) =~= seq![value@]);
                            Ok((None, h))
                        }
                    },
                    _ => {
                        proof {
                            if role is Array {
                                lemma_array_model(role->Array_0);
                            }
                            if role is Object {
                                lemma_object_model(role->Object_0);
                            }
                        }
                        Err(AgentError::InvalidValue(to_string("role is not a string")))
                    },
                },
            }
        },
        _ => {
            proof {
                if value is Array {
                    lemma_array_model(value->Array_0);
                }
            }
            Err(AgentError::InvalidValue(to_string("Unsupported data type")))
        },
    }
}

/// A failure of a prefix of items is the failure of every longer prefix.
proof fn lemma_history_error_extends(items: Seq<ValueModel>, k: int, n: int, e: ErrorModel)
    requires
        0 < k <= n <= items.len(),
        history_of_items(items.take(k - 1)) is Ok,
        message_history_of(items[k - 1]) == Err::<(Option<ValueModel>, Seq<ValueModel>), ErrorModel>(e),
    ensures
        history_of_items(items.take(n)) == Err::<Seq<ValueModel>, ErrorModel>(e),
    decreases n - k,
{
    if n > k {
        lemma_history_error_extends(items, k, n - 1, e);
        assert(items.take(n).subrange(0, n - 1) =~= items.take(n - 1));
    } else {
        assert(items.take(k).subrange(0, k - 1) =~= items.take(k - 1));
        assert(items.take(k)[k - 1] == items[k - 1]);
    }
}

/// A message of a completion request: what the user says, in parts, or
/// what the assistant said.
#[derive(Debug)]
pub enum PromptMessage {
    User(Vec<String>),
    Assistant(String),
}

pub enum PromptModel {
    User(Seq<Seq<char>>),
    Assistant(Seq<char>),
}

impl View for PromptMessage {
    type V = PromptModel;

    open spec fn view(&self) -> PromptModel {
        match self {
            PromptMessage::User(ts) => PromptModel::User(ts@.map_values(|t: String| t@)),
            PromptMessage::Assistant(t) => PromptModel::Assistant(t@),
        }
    }
}

/// The text of a message value: its "content", else its "text".
pub open spec fn content_text(v: ValueModel) -> Option<Seq<char>> {
    match str_entry(obj_fields(v), "content"@) {
        Some(c) => Some(c),
        None => str_entry(obj_fields(v), "text"@),
    }
}

/// The refusal of a user message with no text.
pub open spec fn empty_parts_error() -> ErrorModel {
    ErrorModel::InvalidValue("OneOrMany error: Cannot create OneOrMany with an empty vector."@)
}

/// The user message of a prompt: a string, or an object whose role is the
/// user's or unset, with its text.
pub open spec fn user_prompt_of(v: ValueModel) -> Result<PromptModel, ErrorModel> {
    match v {
        ValueModel::Str(s) => Ok(PromptModel::User(seq![s])),
        ValueModel::Object(_) => {
            let role = role_of(v);
            if !(role.len() == 0 || role == "user"@) {
                Err(ErrorModel::InvalidValue("role is not user"@))
            } else {
                match content_text(v) {
                    Some(c) => Ok(PromptModel::User(seq![c])),
                    None => Err(empty_parts_error()),
                }
            }
        },
        _ => Err(ErrorModel::InvalidValue("Unsupported data type"@)),
    }
}

/// Whether a history value can be a message of a request: a string, or an
/// object of the user, the system or the assistant that has a text.
pub open spec fn history_item_ok(v: ValueModel) -> bool {
    ||| v is Str
    ||| (v is Object && (role_of(v) == "user"@ || role_of(v) == "system"@ || role_of(v) == "assistant"@) && content_text(v) is Some)
}

/// The message of a request that a history value stands for.
pub open spec fn history_message_of(v: ValueModel) -> PromptModel {
    match v {
        ValueModel::Str(s) => PromptModel::User(seq![s]),
        _ => if role_of(v) == "assistant"@ {
            PromptModel::Assistant(content_text(v)->Some_0)
        } else {
            PromptModel::User(seq![content_text(v)->Some_0])
        },
    }
}

/// The preamble that a value carries: an object's "preamble" text.
pub open spec fn preamble_of(v: ValueModel) -> Option<Seq<char>> {
    match v {
        ValueModel::Object(_) => str_entry(obj_fields(v), "preamble"@),
        _ => None,
    }
}

/// The history items of a value: the items of an object's "history" array.
pub open spec fn history_items(v: ValueModel) -> Seq<ValueModel> {
    if v is Object && obj_fields(v).contains_key("history"@) && obj_fields(v)["history"@] is Array {
        obj_fields(v)["history"@]->Array_0
    } else {
        Seq::empty()
    }
}

/// Whether every history item of a value can be a message of a request.
pub open spec fn history_ok(v: ValueModel) -> bool {
    forall|i: int| 0 <= i < history_items(v).len() ==> history_item_ok(#[trigger] history_items(v)[i])
}

/// A prompt: the user's message, a preamble and the history before it.
#[derive(Debug)]
pub struct Prompt {
    pub message: PromptMessage,
    pub preamble: Option<String>,
    pub history: Vec<PromptMessage>,
}

pub struct PromptSpec {
    pub message: PromptModel,
    pub preamble: Option<Seq<char>>,
    pub history: Seq<PromptModel>,
}

impl View for Prompt {
    type V = PromptSpec;

    open spec fn view(&self) -> PromptSpec {
        PromptSpec {
            message: self.message@,
            preamble: crate::message::opt_view(self.preamble),
            history: self.history@.map_values(|m: PromptMessage| m@),
        }
    }
}

/// The prompt that a value stands for.
pub open spec fn prompt_of(v: ValueModel) -> Result<PromptSpec, ErrorModel> {
    match user_prompt_of(v) {
        Err(e) => Err(e),
        Ok(m) => Ok(
            PromptSpec {
                message: m,
                preamble: preamble_of(v),
                history: history_items(v).map_values(|h: ValueModel| history_message_of(h)),
            },
        ),
    }
}

/// The prompts that values stand for, or the refusal of the first that
/// stands for none.
pub open spec fn prompts_of_items(vs: Seq<ValueModel>) -> Result<Seq<PromptSpec>, ErrorModel>
    decreases vs.len(),
{
    if vs.len() == 0 {
        Ok(Seq::empty())
    } else {
        match prompts_of_items(vs.drop_last()) {
            Err(e) => Err(e),
            Ok(ps) => match prompt_of(vs.last()) {
                Err(e) => Err(e),
                Ok(p) => Ok(ps.push(p)),
            },
        }
    }
}

/// The prompts of what came in: one per item of an array, else one.
pub open spec fn prompts_of(v: ValueModel) -> Result<Seq<PromptSpec>, ErrorModel> {
    match v {
        ValueModel::Array(items) => prompts_of_items(items),
        _ => match prompt_of(v) {
            Err(e) => Err(e),
            Ok(p) => Ok(seq![p]),
        },
    }
}

/// Whether the history of every prompt can be made into messages.
pub open spec fn prompts_ok(v: ValueModel) -> bool {
    match v {
        ValueModel::Array(items) => forall|i: int| 0 <= i < items.len() ==> history_ok(#[trigger] items[i]),
        _ => history_ok(v),
    }
}

/// The text of a value: its "content", else its "text".
fn content_text_of(v: &AgentValue) -> (r: Option<String>)
    requires
        v is Object,
    ensures
        crate::message::opt_view(r) == content_text(v@),
{
    proof {
        lemma_field_models(*v, "content"@);
        lemma_field_models(*v, "text"@);
    }
    match v.get_str("content") {
        Some(c) => Some(to_string(c)),
        None => match v.get_str("text") {
            Some(t) => Some(to_string(t)),
            None => None,
        },
    }
}

/// The user message of a prompt, as `user_prompt_of` says.
pub fn value_to_user_message(value: &AgentValue) -> (r: Result<PromptMessage, AgentError>)
    ensures
        user_prompt_of(value@) == (match r {
            Ok(m) => Ok(m@),
            Err(e) => Err(e@),
        }),
{
    match value {
        AgentValue::String(s) => {
            let mut parts: Vec<String> = Vec::new();
            parts.push(s.clone());
            assert(parts@.map_values(|t: String| t@) =~= seq![s@]);
            Ok(PromptMessage::User(parts))
        },
        AgentValue::Object(_) => {
            let role = role_text(value);
            if !(role.as_str().is_empty() || str_eq(role.as_str(), "user")) {
                return Err(AgentError::InvalidValue(to_string("role is not user")));
            }
            match content_text_of(value) {
                Some(c) => {
                    let ghost cm = c@;
                    let mut parts: Vec<String> = Vec::new();
                    parts.push(c);
                    assert(parts@.map_values(|t: String| t@) =~= seq![cm]);
                    Ok(PromptMessage::User(parts))
                },
                None => Err(AgentError::InvalidValue(to_string("OneOrMany error: Cannot create OneOrMany with an empty vector."))),
            }
        },
        _ => {
            proof {
                if value is Array {
                    lemma_array_model(value->Array_0);
                }
            }
            Err(AgentError::InvalidValue(to_string("Unsupported data type")))
        },
    }
}

/// The message of a request that a history value stands for.
pub fn value_to_message(value: &AgentValue) -> (r: PromptMessage)
    requires
        history_item_ok(value@),
    ensures
        r@ == history_message_of(value@),
{
    proof {
        if value is Array {
            lemma_array_model(value->Array_0);
        }
    }
    match value {
        AgentValue::String(s) => {
            let mut parts: Vec<String> = Vec::new();
            parts.push(s.clone());
            assert(parts@.map_values(|t: String| t@) =~= seq![s@]);
            PromptMessage::User(parts)
        },
        _ => {
            let role = role_text(value);
            let text = match content_text_of(value) {
                Some(c) => c,
                None => {
                    assert(false);
                    String::new()
                },
            };
            if str_eq(role.as_str(), "assistant") {
                PromptMessage::Assistant(text)
            } else {
                let ghost tm = text@;
                let mut parts: Vec<String> = Vec::new();
                parts.push(text);
                assert(parts@.map_values(|t: String| t@) =~= seq![tm]);
                PromptMessage::User(parts)
            }
        },
    }
}

/// The preamble that a value carries.
pub fn preamble_from_value(value: &AgentValue) -> (r: Option<String>)
    ensures
        crate::message::opt_view(r) == preamble_of(value@),
{
    match value {
        AgentValue::Object(_) => {
            proof {
                lemma_field_models(*value, "preamble"@);
            }
            match value.get_str("preamble") {
                Some(p) => Some(to_string(p)),
                None => None,
            }
        },
        _ => {
            proof {
                if value is Array {
                    lemma_array_model(value->Array_0);
                }
            }
            None
        },
    }
}

/// The messages of the history that a value carries.
pub fn history_from_value(value: &AgentValue) -> (r: Vec<PromptMessage>)
    requires
        history_ok(value@),
    ensures
        r@.map_values(|m: PromptMessage| m@) == history_items(value@).map_values(|h: ValueModel| history_message_of(h)),
{
    let mut out: Vec<PromptMessage> = Vec::new();
    proof {
        if value is Array {
            lemma_array_model(value->Array_0);
        }
    }
    if let AgentValue::Object(_) = value {
        proof {
            lemma_field_models(*value, "history"@);
        }
        match value.get("history") {
            Some(AgentValue::Array(items)) => {
                proof {
                    lemma_array_model(*items);
                }
                let ghost hs = models(items@);
                assert(hs == history_items(value@));
                let mut i: usize = 0;
                while i < items.len()
                    invariant
                        i <= items@.len(),
                        hs == models(items@),
                        hs == history_items(value@),
                        history_ok(value@),
                        out@.len() == i,
                        forall|t: int| 0 <= t < i ==> #[trigger] out@[t]@ == history_message_of(hs[t]),
                    decreases items.len() - i,
                {
                    assert(history_item_ok(hs[i as int]));
                    out.push(value_to_message(&items[i]));
                    i = i + 1;
                }
                assert(out@.map_values(|m: PromptMessage| m@) =~= hs.map_values(|h: ValueModel| history_message_of(h)));
                return out;
            },
            Some(other) => {
                proof {
                    if other is Object {
                        lemma_object_model(other->Object_0);
                    }
                }
            },
            None => {},
        }
    }
    assert(out@.map_values(|m: PromptMessage| m@) =~= history_items(value@).map_values(|h: ValueModel| history_message_of(h)));
    out
}

/// The prompt that a value stands for.
fn prompt_from_value(value: &AgentValue) -> (r: Result<Prompt, AgentError>)
    requires
        history_ok(value@),
    ensures
        prompt_of(value@) == (match r {
            Ok(p) => Ok(p@),
            Err(e) => Err(e@),
        }),
{
    let preamble = preamble_from_value(value);
    let history = history_from_value(value);
    match value_to_user_message(value) {
        Ok(message) => Ok(Prompt { message, preamble, history }),
        Err(e) => Err(e),
    }
}

/// The prompts of `data`: one per item of an array, else one.
pub fn data_to_prompts(data: &AgentData) -> (r: Result<Vec<Prompt>, AgentError>)
    requires
        prompts_ok(data.value@),
    ensures
        prompts_of(data.value@) == (match r {
            Ok(ps) => Ok(ps@.map_values(|p: Prompt| p@)),
            Err(e) => Err(e@),
        }),
{
    let mut prompts: Vec<Prompt> = Vec::new();
    match &data.value {
        AgentValue::Array(items) => {
            proof {
                lemma_array_model(*items);
            }
            let ghost vs = models(items@);
            let mut i: usize = 0;
            assert(vs.take(0) =~= Seq::<ValueModel>::empty());
            assert(prompts@.map_values(|p: Prompt| p@) =~= Seq::<PromptSpec>::empty());
            while i < items.len()
                invariant
                    i <= items@.len(),
                    vs == models(items@),
                    data.value@ == ValueModel::Array(vs),
                    prompts_ok(data.value@),
                    prompts_of_items(vs.take(i as int)) == Ok::<Seq<PromptSpec>, ErrorModel>(prompts@.map_values(|p: Prompt| p@)),
                decreases items.len() - i,
            {
                assert(vs.take(i + 1).drop_last() =~= vs.take(i as int));
                assert(vs[i as int] == items@[i as int]@);
                assert(history_ok(vs[i as int]));
                match prompt_from_value(&items[i]) {
                    Ok(p) => {
                        let ghost before = prompts@.map_values(|p: Prompt| p@);
                        let ghost pm = p@;
                        prompts.push(p);
                        assert(prompts@.map_values(|p: Prompt| p@) =~= before.push(pm));
                    },
                    Err(e) => {
                        proof {
                            lemma_prompts_error_extends(vs, i + 1, vs.len() as int, e@);
                            assert(vs.take(vs.len() as int) =~= vs);
                        }
                        return Err(e);
                    },
                }
                i = i + 1;
            }
            assert(vs.take(vs.len() as int) =~= vs);
            Ok(prompts)
        },
        _ => {
            proof {
                if data.value is Object {
                    lemma_object_model(data.value->Object_0);
                }
            }
            match prompt_from_value(&data.value) {
                Ok(p) => {
                    let ghost pm = p@;
                    prompts.push(p);
                    assert(prompts@.map_values(|p: Prompt| p@) =~= seq![pm]);
                    Ok(prompts)
                },
                Err(e) => Err(e),
            }
        },
    }
}

/// A failure of a prefix of items is the failure of every longer prefix.
proof fn lemma_prompts_error_extends(vs: Seq<ValueModel>, k: int, n: int, e: ErrorModel)
    requires
        0 < k <= n <= vs.len(),
        prompts_of_items(vs.take(k - 1)) is Ok,
        prompt_of(vs[k - 1]) == Err::<PromptSpec, ErrorModel>(e),
    ensures
        prompts_of_items(vs.take(n)) == Err::<Seq<PromptSpec>, ErrorModel>(e),
    decreases n - k,
{
    if n > k {
        lemma_prompts_error_extends(vs, k, n - 1, e);
        assert(vs.take(n).drop_last() =~= vs.take(n - 1));
    } else {
        assert(vs.take(k).drop_last() =~= vs.take(k - 1));
    }
}

/// Whether a preamble can be added to a value: a string, an object, or an
/// array of such values.
pub open spec fn preamble_ok(v: ValueModel) -> bool
    decreases v,
{
    match v {
        ValueModel::Str(_) => true,
        ValueModel::Object(_) => true,
        ValueModel::Array(items) => all_preamble_ok(items),
        _ => false,
    }
}

pub open spec fn all_preamble_ok(items: Seq<ValueModel>) -> bool
    decreases items,
{
    if items.len() == 0 {
        true
    } else {
        proof {
            assert(decreases_to!(items => items.subrange(0, items.len() - 1)));
            assert(decreases_to!(items => items[items.len() - 1]));
        }
        all_preamble_ok(items.subrange(0, items.len() - 1)) && preamble_ok(items[items.len() - 1])
    }
}

/// Whether `r` is `v` with the preamble `p`: a string becomes a user message
/// with the preamble; an object gets the preamble; an array gets it in each
/// item.
pub open spec fn preamble_added(v: ValueModel, p: Seq<char>, r: ValueModel) -> bool
    decreases v,
{
    match v {
        ValueModel::Str(s) => r matches ValueModel::Object(qs) && pairs_to_map(qs) == Map::<Seq<char>, ValueModel>::empty().insert(
            "content"@,
            ValueModel::Str(s),
        ).insert("role"@, ValueModel::Str("user"@)).insert("preamble"@, ValueModel::Str(p)),
        ValueModel::Object(ps) => r matches ValueModel::Object(qs) && pairs_to_map(qs) == pairs_to_map(ps).insert(
            "preamble"@,
            ValueModel::Str(p),
        ),
        ValueModel::Array(items) => r matches ValueModel::Array(rs) && all_preamble_added(items, p, rs),
        _ => false,
    }
}

pub open spec fn all_preamble_added(items: Seq<ValueModel>, p: Seq<char>, rs: Seq<ValueModel>) -> bool
    decreases items,
{
    if items.len() == 0 {
        rs.len() == 0
    } else {
        proof {
            assert(decreases_to!(items => items.subrange(0, items.len() - 1)));
            assert(decreases_to!(items => items[items.len() - 1]));
        }
        rs.len() == items.len() && all_preamble_added(items.subrange(0, items.len() - 1), p, rs.subrange(0, rs.len() - 1))
            && preamble_added(items[items.len() - 1], p, rs[rs.len() - 1])
    }
}

/// An object value with the given text fields.
fn text_object(fields: Vec<(&str, String)>) -> (r: KeyMap<AgentValue>)
    ensures
        entries_model(r) == text_fields(fields@),
{
    let mut m: KeyMap<AgentValue> = KeyMap::new();
    proof {
        lemma_entries_model(m);
        assert(entries_model(m) =~= Map::<Seq<char>, ValueModel>::empty());
        assert(fields@.take(0) =~= Seq::<(&str, String)>::empty());
    }
    let mut fields = fields;
    let ghost all = fields@;
    let n = fields.len();
    let mut rev: Vec<(&str, String)> = Vec::new();
    while fields.len() > 0
        invariant
            fields@.len() + rev@.len() == all.len(),
            n == all.len(),
            fields@ == all.take(fields@.len() as int),
            forall|t: int| 0 <= t < rev@.len() ==> #[trigger] rev@[t] == all[all.len() - 1 - t],
        decreases fields@.len(),
    {
        let ghost before = fields@;
        let f = fields.pop().unwrap();
        assert(f == all[before.len() - 1]);
        assert(fields@ =~= all.take(fields@.len() as int));
        let ghost rb = rev@;
        rev.push(f);
        assert(forall|t: int| 0 <= t < rb.len() ==> #[trigger] rev@[t] == rb[t]);
    }
    let mut i: usize = 0;
    while rev.len() > 0
        invariant
            i + rev@.len() == all.len(),
            n == all.len(),
            forall|t: int| 0 <= t < rev@.len() ==> #[trigger] rev@[t] == all[all.len() - 1 - t],
            entries_model(m) == text_fields(all.take(i as int)),
        decreases rev@.len(),
    {
        let ghost rb = rev@;
        let (k, v) = rev.pop().unwrap();
        assert((k, v) == all[i as int]);
        let ghost before = m;
        let ghost km = k@;
        let ghost vm = v@;
        m.insert(to_string(k), AgentValue::String(v));
        proof {
            lemma_entries_model(before);
            lemma_entries_model(m);
            assert(entries_model(m) =~= entries_model(before).insert(km, ValueModel::Str(vm)));
            assert(all.take(i + 1).drop_last() =~= all.take(i as int));
            assert(forall|t: int| 0 <= t < rev@.len() ==> #[trigger] rev@[t] == rb[t]);
        }
        i = i + 1;
    }
    assert(all.take(all.len() as int) =~= all);
    m
}

/// The text fields of an object, later ones winning.
pub open spec fn text_fields(fields: Seq<(&str, String)>) -> Map<Seq<char>, ValueModel>
    decreases fields.len(),
{
    if fields.len() == 0 {
        Map::empty()
    } else {
        text_fields(fields.drop_last()).insert(fields.last().0@, ValueModel::Str(fields.last().1@))
    }
}

/// The value with the preamble `preamble`, as `preamble_added` says; refused
/// where a value is neither a string, an object nor an array of such.
pub fn add_preamble_to_value(preamble: &str, value: &AgentValue) -> (r: Result<AgentValue, AgentError>)
    ensures
        preamble_ok(value@) <==> r is Ok,
        r matches Ok(v) ==> preamble_added(value@, preamble@, v@),
        r matches Err(e) ==> e@ == ErrorModel::InvalidValue("Unsupported value type"@),
    decreases value,
{
    match value {
        AgentValue::String(s) => {
            let mut fields: Vec<(&str, String)> = Vec::new();
            fields.push(("content", s.clone()));
            fields.push(("role", to_string("user")));
            fields.push(("preamble", to_string(preamble)));
            let m = text_object(fields);
            proof {
                reveal_with_fuel(text_fields, 4);
                lemma_object_model(m);
                lemma_entries_model(m);
            }
            Ok(AgentValue::Object(m))
        },
        AgentValue::Object(m) => {
            let mut out = duplicate_entries(m);
            let ghost before = out;
            out.insert(to_string("preamble"), AgentValue::String(to_string(preamble)));
            proof {
                lemma_object_model(*m);
                lemma_object_model(out);
                lemma_entries_model(before);
                lemma_entries_model(out);
                assert(entries_model(out) =~= entries_model(*m).insert("preamble"@, ValueModel::Str(preamble@)));
            }
            Ok(AgentValue::Object(out))
        },
        AgentValue::Array(items) => {
            proof {
                lemma_array_model(*items);
            }
            let ghost vs = models(items@);
            let mut out: Vec<AgentValue> = Vec::new();
            let mut i: usize = 0;
            assert(vs.take(0) =~= Seq::<ValueModel>::empty());
            assert(models(out@) =~= Seq::<ValueModel>::empty());
            while i < items.len()
                invariant
                    i <= items@.len(),
                    *value == AgentValue::Array(*items),
                    value@ == ValueModel::Array(vs),
                    vs == models(items@),
                    all_preamble_ok(vs.take(i as int)),
                    all_preamble_added(vs.take(i as int), preamble@, models(out@)),
                decreases items.len() - i,
            {
                proof {
                    assert(decreases_to!(value => value->Array_0));
                    assert(decreases_to!(items => items@[i as int]));
                    assert(vs.take(i + 1).subrange(0, i as int) =~= vs.take(i as int));
                    assert(vs.take(i + 1)[i as int] == items@[i as int]@);
                }
                match add_preamble_to_value(preamble, &items[i]) {
                    Ok(v) => {
                        let ghost before = models(out@);
                        let ghost vm = v@;
                        out.push(v);
                        assert(models(out@) =~= before.push(vm));
                        assert(models(out@).subrange(0, i as int) =~= before);
                    },
                    Err(e) => {
                        proof {
                            lemma_not_all_preamble_ok(vs, i as int);
                        }
                        return Err(e);
                    },
                }
                i = i + 1;
            }
            assert(vs.take(vs.len() as int) =~= vs);
            proof {
                lemma_array_model(out);
            }
            Ok(AgentValue::Array(out))
        },
        _ => Err(AgentError::InvalidValue(to_string("Unsupported value type"))),
    }
}

/// An item to which no preamble can be added spoils the whole array.
proof fn lemma_not_all_preamble_ok(vs: Seq<ValueModel>, i: int)
    requires
        0 <= i < vs.len(),
        !preamble_ok(vs[i]),
    ensures
        !all_preamble_ok(vs),
    decreases vs.len(),
{
    if i < vs.len() - 1 {
        lemma_not_all_preamble_ok(vs.subrange(0, vs.len() - 1), i);
    }
}

/// Data with the preamble `preamble`: a message object, or an array of
/// messages.
pub fn add_preamble_to_data(preamble: &str, data: &AgentData) -> (r: Result<AgentData, AgentError>)
    ensures
        preamble_ok(data.value@) <==> r is Ok,
        r matches Ok(d) ==> d.kind@ == "message"@ && preamble_added(data.value@, preamble@, d.value@),
        r matches Err(e) ==> e@ == ErrorModel::InvalidValue("Unsupported value type"@),
{
    match add_preamble_to_value(preamble, &data.value) {
        Ok(v) => Ok(AgentData { kind: to_string("message"), value: v }),
        Err(e) => Err(e),
    }
}

/// Whether a text can be combined with a value: a string (the image), or an
/// array of such values.
pub open spec fn image_ok(v: ValueModel) -> bool
    decreases v,
{
    match v {
        ValueModel::Str(_) => true,
        ValueModel::Array(items) => all_image_ok(items),
        _ => false,
    }
}

pub open spec fn all_image_ok(items: Seq<ValueModel>) -> bool
    decreases items,
{
    if items.len() == 0 {
        true
    } else {
        proof {
            assert(decreases_to!(items => items.subrange(0, items.len() - 1)));
            assert(decreases_to!(items => items[items.len() - 1]));
        }
        all_image_ok(items.subrange(0, items.len() - 1)) && image_ok(items[items.len() - 1])
    }
}

/// Whether `r` is the user message with the text `t` and the image `v`, or,
/// for an array, such a message for each item.
pub open spec fn image_combined(v: ValueModel, t: Seq<char>, r: ValueModel) -> bool
    decreases v,
{
    match v {
        ValueModel::Str(_) => r matches ValueModel::Object(qs) && pairs_to_map(qs) == Map::<Seq<char>, ValueModel>::empty().insert(
            "content"@,
            ValueModel::Str(t),
        ).insert("role"@, ValueModel::Str("user"@)).insert("images"@, ValueModel::Array(seq![v])),
        ValueModel::Array(items) => r matches ValueModel::Array(rs) && all_image_combined(items, t, rs),
        _ => false,
    }
}

pub open spec fn all_image_combined(items: Seq<ValueModel>, t: Seq<char>, rs: Seq<ValueModel>) -> bool
    decreases items,
{
    if items.len() == 0 {
        rs.len() == 0
    } else {
        proof {
            assert(decreases_to!(items => items.subrange(0, items.len() - 1)));
            assert(decreases_to!(items => items[items.len() - 1]));
        }
        rs.len() == items.len() && all_image_combined(items.subrange(0, items.len() - 1), t, rs.subrange(0, rs.len() - 1))
            && image_combined(items[items.len() - 1], t, rs[rs.len() - 1])
    }
}

/// Combines the text `text` with an image value, as `image_combined` says;
/// refused where a value is neither a string nor an array of such.
pub fn combine_text_and_image_value(text: &str, value: &AgentValue) -> (r: Result<AgentValue, AgentError>)
    ensures
        image_ok(value@) <==> r is Ok,
        r matches Ok(v) ==> image_combined(value@, text@, v@),
        r matches Err(e) ==> e@ == ErrorModel::InvalidValue("Unsupported value type"@),
    decreases value,
{
    match value {
        AgentValue::String(_) => {
            let mut fields: Vec<(&str, String)> = Vec::new();
            fields.push(("content", to_string(text)));
            fields.push(("role", to_string("user")));
            let mut m = text_object(fields);
            let mut images: Vec<AgentValue> = Vec::new();
            images.push(value.duplicate());
            let ghost before = m;
            let ghost im = models(images@);
            m.insert(to_string("images"), AgentValue::Array(images));
            proof {
                reveal_with_fuel(text_fields, 3);
                lemma_array_model(images);
                assert(im =~= seq![value@]);
                lemma_entries_model(before);
                lemma_entries_model(m);
                assert(entries_model(m) =~= entries_model(before).insert("images"@, ValueModel::Array(seq![value@])));
                lemma_object_model(m);
            }
            Ok(AgentValue::Object(m))
        },
        AgentValue::Array(items) => {
            proof {
                lemma_array_model(*items);
            }
            let ghost vs = models(items@);
            let mut out: Vec<AgentValue> = Vec::new();
            let mut i: usize = 0;
            assert(vs.take(0) =~= Seq::<ValueModel>::empty());
            assert(models(out@) =~= Seq::<ValueModel>::empty());
            while i < items.len()
                invariant
                    i <= items@.len(),
                    *value == AgentValue::Array(*items),
                    value@ == ValueModel::Array(vs),
                    vs == models(items@),
                    all_image_ok(vs.take(i as int)),
                    all_image_combined(vs.take(i as int), text@, models(out@)),
                decreases items.len() - i,
            {
                proof {
                    assert(decreases_to!(value => value->Array_0));
                    assert(decreases_to!(items => items@[i as int]));
                    assert(vs.take(i + 1).subrange(0, i as int) =~= vs.take(i as int));
                    assert(vs.take(i + 1)[i as int] == items@[i as int]@);
                }
                match combine_text_and_image_value(text, &items[i]) {
                    Ok(v) => {
                        let ghost before = models(out@);
                        let ghost vm = v@;
                        out.push(v);
                        assert(models(out@) =~= before.push(vm));
                        assert(models(out@).subrange(0, i as int) =~= before);
                    },
                    Err(e) => {
                        proof {
                            lemma_not_all_image_ok(vs, i as int);
                        }
                        return Err(e);
                    },
                }
                i = i + 1;
            }
            assert(vs.take(vs.len() as int) =~= vs);
            proof {
                lemma_array_model(out);
            }
            Ok(AgentValue::Array(out))
        },
        _ => {
            proof {
                if value is Object {
                    lemma_object_model(value->Object_0);
                }
            }
            Err(AgentError::InvalidValue(to_string("Unsupported value type")))
        },
    }
}

/// An item that cannot take an image spoils the whole array.
proof fn lemma_not_all_image_ok(vs: Seq<ValueModel>, i: int)
    requires
        0 <= i < vs.len(),
        !image_ok(vs[i]),
    ensures
        !all_image_ok(vs),
    decreases vs.len(),
{
    if i < vs.len() - 1 {
        lemma_not_all_image_ok(vs.subrange(0, vs.len() - 1), i);
    }
}

/// Data that combines the text `text` with the image data: a message object,
/// or an array of messages.
pub fn combine_text_and_image_data(text: &str, data: &AgentData) -> (r: Result<AgentData, AgentError>)
    ensures
        image_ok(data.value@) <==> r is Ok,
        r matches Ok(d) ==> d.kind@ == "message"@ && image_combined(data.value@, text@, d.value@),
        r matches Err(e) ==> e@ == ErrorModel::InvalidValue("Unsupported value type"@),
{
    match combine_text_and_image_value(text, &data.value) {
        Ok(v) => Ok(AgentData { kind: to_string("message"), value: v }),
        Err(e) => Err(e),
    }
}

/// The memory of recent messages that the memory agent keeps.
#[derive(Debug)]
pub struct RigMemory {
    memory: Vec<AgentValue>,
}

impl View for RigMemory {
    type V = Seq<ValueModel>;

    closed spec fn view(&self) -> Seq<ValueModel> {
        models(self.memory@)
    }
}

/// The memory after history joined it, trimmed to the last `n` entries
/// where `n` is positive.
pub open spec fn memory_trimmed(mem: Seq<ValueModel>, n: i64) -> Seq<ValueModel> {
    if n > 0 && n < mem.len() {
        mem.skip(mem.len() - n)
    } else {
        mem
    }
}

/// Trimming keeps the newest entries: with `n` positive, the memory keeps
/// `n` entries where it holds more, else all of them; the kept entries are
/// the last ones, in their order, and the oldest are the ones dropped.
pub proof fn lemma_memory_keeps_newest(mem: Seq<ValueModel>, n: i64)
    ensures
        n > 0 && n < mem.len() ==> memory_trimmed(mem, n).len() == n,
        n <= 0 || n >= mem.len() ==> memory_trimmed(mem, n) == mem,
        memory_trimmed(mem, n).len() <= mem.len(),
        forall|i: int|
            0 <= i < memory_trimmed(mem, n).len() ==> #[trigger] memory_trimmed(mem, n)[memory_trimmed(mem, n).len() - 1 - i]
                == mem[mem.len() - 1 - i],
{
}

/// A copy of values as an array of messages.
fn memory_data(memory: &Vec<AgentValue>) -> (r: AgentData)
    ensures
        r.kind@ == "message"@,
        r.value@ == ValueModel::Array(models(memory@)),
{
    let copy = crate::value::duplicate_values(memory);
    proof {
        lemma_array_model(copy);
    }
    AgentData { kind: to_string("message"), value: AgentValue::Array(copy) }
}

impl RigMemory {
    pub fn new() -> (r: Self)
        ensures
            r@ == Seq::<ValueModel>::empty(),
    {
        let r = RigMemory { memory: Vec::new() };
        assert(models(r.memory@) =~= Seq::<ValueModel>::empty());
        r
    }

    /// Forgets everything, and returns the empty memory as data.
    pub fn reset(&mut self) -> (r: AgentData)
        ensures
            final(self)@ == Seq::<ValueModel>::empty(),
            r.kind@ == "message"@,
            r.value@ == ValueModel::Array(Seq::empty()),
    {
        self.memory = Vec::new();
        assert(models(self.memory@) =~= Seq::<ValueModel>::empty());
        memory_data(&self.memory)
    }

    /// Takes in data: its history joins the memory, which is then trimmed
    /// to the last `n` entries where `n` is positive; its user message, if
    /// any, goes out with the memory as its "history" and then joins the
    /// memory. Returns that message and the memory as data.
    pub fn memorize(&mut self, n: i64, data: &AgentData) -> (r: Result<(Option<AgentData>, AgentData), AgentError>)
        ensures
            match message_history_of(data.value@) {
                Err(e) => r matches Err(x) && x@ == e && final(self)@ == old(self)@,
                Ok((m, h)) => {
                    let mem = memory_trimmed(old(self)@ + h, n);
                    &&& r matches Ok((om, md))
                    &&& md.kind@ == "message"@ && md.value@ == ValueModel::Array(final(self)@)
                    &&& match m {
                        None => final(self)@ == mem && om is None,
                        Some(mv) => {
                            &&& final(self)@ == mem.push(mv)
                            &&& om matches Some(d)
                            &&& om->Some_0.kind@ == "message"@
                            &&& om->Some_0.value@ is Object
                            &&& pairs_to_map(om->Some_0.value@->Object_0) == obj_fields(mv).insert("history"@, ValueModel::Array(mem))
                        },
                    }
                },
            },
    {
        let (user_message, history) = match value_to_message_history(&data.value) {
            Ok(x) => x,
            Err(e) => {
                return Err(e);
            },
        };
        let ghost before = models(self.memory@);
        let ghost hm = models(history@);
        let mut k: usize = 0;
        while k < history.len()
            invariant
                k <= history@.len(),
                hm == models(history@),
                models(self.memory@) == before + hm.take(k as int),
            decreases history.len() - k,
        {
            let ghost prev = models(self.memory@);
            let x = history[k].duplicate();
            let ghost xm = x@;
            self.memory.push(x);
            assert(models(self.memory@) =~= prev.push(xm));
            assert(hm.take(k + 1) =~= hm.take(k as int).push(hm[k as int]));
            k = k + 1;
        }
        assert(hm.take(history@.len() as int) =~= hm);
        let len = self.memory.len();
        if n > 0 && (n as u128) < (len as u128) {
            let keep = n as usize;
            let ghost all = models(self.memory@);
            let mut kept: Vec<AgentValue> = Vec::new();
            let mut i: usize = len - keep;
            while i < len
                invariant
                    len - keep <= i <= len == self.memory@.len(),
                    0 < keep < len,
                    keep == n,
                    all == models(self.memory@),
                    all.len() == len,
                    models(kept@) == all.subrange(len - keep, i as int),
                decreases len - i,
            {
                let ghost prev = models(kept@);
                let x = self.memory[i].duplicate();
                let ghost xm = x@;
                kept.push(x);
                assert(models(kept@) =~= prev.push(xm));
                assert(all.subrange(len - keep, i + 1) =~= all.subrange(len - keep, i as int).push(all[i as int]));
                i = i + 1;
            }
            assert(all.subrange(len - keep, len as int) =~= all.skip(len - keep));
            self.memory = kept;
        }
        let out_message = match user_message {
            Some(d) => {
                let ghost mv = d.value@;
                match d.value {
                    AgentValue::Object(m) => {
                        let mut fields = duplicate_entries(&m);
                        let ghost f0 = fields;
                        let hist = memory_data(&self.memory);
                        fields.insert(to_string("history"), hist.value);
                        proof {
                            lemma_object_model(m);
                            lemma_entries_model(f0);
                            lemma_entries_model(fields);
                            assert(entries_model(fields) =~= entries_model(m).insert("history"@, ValueModel::Array(models(self.memory@))));
                            lemma_object_model(fields);
                        }
                        let ghost mem = models(self.memory@);
                        let value = AgentValue::Object(m);
                        self.memory.push(value);
                        assert(models(self.memory@) =~= mem.push(mv));
                        Some(AgentData { kind: to_string("message"), value: AgentValue::Object(fields) })
                    },
                    other => {
                        proof {
                            lemma_message_is_object(data.value@);
                            assert(mv is Object);
                            assert(other@ == mv);
                            if other is Array {
                                lemma_array_model(other->Array_0);
                            }
                            assert(false);
                        }
                        return Err(AgentError::InvalidValue(to_string("user message is not an object")));
                    },
                }
            },
            None => None,
        };
        let md = memory_data(&self.memory);
        Ok((out_message, md))
    }
}

/// The user message that `message_history_of` finds is an object.
proof fn lemma_message_is_object(v: ValueModel)
    requires
        message_history_of(v) matches Ok((Some(_), _)),
    ensures
        message_history_of(v)->Ok_0.0->Some_0 is Object,
{
    match v {
        ValueModel::Array(items) => {
            let out = history_of_items(items)->Ok_0;
            let last = out.last();
            if !(last is Object) {
                reveal_strlit("user");
                assert(obj_fields(last) =~= Map::<Seq<char>, ValueModel>::empty());
                assert("user"@.len() == 4);
            }
        },
        _ => {},
    }
}

/// The data of the answers of a request: none where there is none; the one
/// answer as an object of the kind `kind`; several as an array of that kind.
pub fn collect_outputs(values: Vec<AgentValue>, kind: &str) -> (r: Result<Option<AgentData>, AgentError>)
    ensures
        values@.len() == 0 ==> r matches Ok(None),
        values@.len() == 1 ==> (if values@[0] is Object {
            r matches Ok(Some(d)) && d.kind@ == kind@ && d.value@ == values@[0]@
        } else {
            r matches Err(e) && e@ == ErrorModel::InvalidValue("wrong object"@)
        }),
        values@.len() > 1 ==> (r matches Ok(Some(d)) && d.kind@ == kind@ && d.value@ == ValueModel::Array(models(values@))),
{
    let n = values.len();
    if n == 0 {
        return Ok(None);
    }
    if n == 1 {
        let mut values = values;
        let v = values.pop().unwrap();
        return match v {
            AgentValue::Object(m) => Ok(Some(AgentData { kind: to_string(kind), value: AgentValue::Object(m) })),
            _ => Err(AgentError::InvalidValue(to_string("wrong object"))),
        };
    }
    proof {
        lemma_array_model(values);
    }
    Ok(Some(AgentData { kind: to_string(kind), value: AgentValue::Array(values) }))
}

/// The message that an output item of an answer of the responses service
/// carries: none where its "type" is missing or not "message"; else its
/// "role" and the "text" of the first of its "content" parts, which must be
/// strings.
pub open spec fn output_item_message(item: JsonValue) -> Result<Option<(Seq<char>, Seq<char>)>, ErrorModel> {
    match crate::message::json_member(item, "type"@) {
        None => Ok(None),
        Some(t) => if !(t matches JsonValue::String(s) && s@ == "message"@) {
            Ok(None)
        } else {
            match crate::message::json_member(item, "role"@) {
                Some(JsonValue::String(role)) => match crate::message::json_member(item, "content"@) {
                    Some(JsonValue::Array(parts)) => if parts@.len() > 0 {
                        match crate::message::json_member(parts@[0], "text"@) {
                            Some(JsonValue::String(text)) => Ok(Some((role@, text@))),
                            _ => Err(ErrorModel::InvalidValue("missing content text in a response"@)),
                        }
                    } else {
                        Err(ErrorModel::InvalidValue("missing content text in a response"@))
                    },
                    _ => Err(ErrorModel::InvalidValue("missing content text in a response"@)),
                },
                _ => Err(ErrorModel::InvalidValue("missing role in a response"@)),
            }
        },
    }
}

/// The message object that an output item carries, as
/// `output_item_message` says: its "role" and "content".
pub fn output_item_to_message(item: &JsonValue) -> (r: Result<Option<AgentValue>, AgentError>)
    ensures
        match output_item_message(*item) {
            Ok(None) => r matches Ok(None),
            Ok(Some((role, text))) => r matches Ok(Some(v)) && v@ is Object && pairs_to_map(v@->Object_0)
                == Map::<Seq<char>, ValueModel>::empty().insert("role"@, ValueModel::Str(role)).insert(
                "content"@,
                ValueModel::Str(text),
            ),
            Err(e) => r matches Err(x) && x@ == e,
        },
{
    let fields = match item {
        JsonValue::Object(m) => m,
        _ => {
            return Ok(None);
        },
    };
    match fields.get("type") {
        None => {
            return Ok(None);
        },
        Some(JsonValue::String(s)) => {
            if !str_eq(s.as_str(), "message") {
                return Ok(None);
            }
        },
        Some(_) => {
            return Ok(None);
        },
    }
    let role = match fields.get("role") {
        Some(JsonValue::String(r)) => r.clone(),
        _ => {
            return Err(AgentError::InvalidValue(to_string("missing role in a response")));
        },
    };
    let text = match fields.get("content") {
        Some(JsonValue::Array(parts)) => {
            if parts.len() == 0 {
                return Err(AgentError::InvalidValue(to_string("missing content text in a response")));
            }
            match &parts[0] {
                JsonValue::Object(p) => match p.get("text") {
                    Some(JsonValue::String(t)) => t.clone(),
                    _ => {
                        return Err(AgentError::InvalidValue(to_string("missing content text in a response")));
                    },
                },
                _ => {
                    return Err(AgentError::InvalidValue(to_string("missing content text in a response")));
                },
            }
        },
        _ => {
            return Err(AgentError::InvalidValue(to_string("missing content text in a response")));
        },
    };
    let mut fs: Vec<(&str, String)> = Vec::new();
    fs.push(("role", role));
    fs.push(("content", text));
    let m = text_object(fs);
    proof {
        reveal_with_fuel(text_fields, 3);
        lemma_object_model(m);
        lemma_entries_model(m);
    }
    Ok(Some(AgentValue::Object(m)))
}

} // verus!

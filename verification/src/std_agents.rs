//! What the standard agents compute: joining strings, reading a property
//! along a path, and zipping the inputs of several ports into one object.

use crate::config::AgentConfig;
use crate::data::AgentData;
use crate::entries::{entries_model, lemma_entries_model};
use crate::error::{AgentError, ErrorModel};
use crate::ids::{decimal, decimal_string};
use crate::keymap::{pairs_to_map, KeyMap};
use crate::message::lemma_field_models;
use crate::text::{chars_of, concat, str_eq, string_from_chars, to_string};
use crate::value::{kind_name, lemma_array_model, lemma_object_model, models, AgentValue, ValueModel};
use vstd::prelude::*;

verus! {

broadcast use vstd::string::group_string_axioms;

/// The texts joined with `sep` between them.
pub open spec fn joined(ts: Seq<Seq<char>>, sep: Seq<char>) -> Seq<char>
    decreases ts.len(),
{
    if ts.len() == 0 {
        Seq::empty()
    } else if ts.len() == 1 {
        ts[0]
    } else {
        joined(ts.drop_last(), sep) + sep + ts.last()
    }
}

/// `s` with each occurrence of the two characters `a` `b`, found from the
/// left without overlap, replaced by `r`.
pub open spec fn replaced(s: Seq<char>, a: char, b: char, r: char) -> Seq<char>
    decreases s.len(),
{
    if s.len() == 0 {
        s
    } else if s.len() >= 2 && s[0] == a && s[1] == b {
        seq![r] + replaced(s.skip(2), a, b, r)
    } else {
        seq![s[0]] + replaced(s.skip(1), a, b, r)
    }
}

/// The escapes \n, \t, \r and \\ turned into the characters they stand for,
/// one kind after the other.
pub open spec fn unescaped(s: Seq<char>) -> Seq<char> {
    replaced(replaced(replaced(replaced(s, '\\', 'n', '\n'), '\\', 't', '\t'), '\\', 'r', '\r'), '\\', '\\', '\\')
}

/// The character that the escape of `c` names: \n a line feed, \t a tab,
/// \r a carriage return, \\ a backslash.
pub open spec fn escaped_char(c: char) -> char {
    if c == 'n' {
        '\n'
    } else if c == 't' {
        '\t'
    } else if c == 'r' {
        '\r'
    } else {
        c
    }
}

/// Replacing leaves a text without the pair `a` `b` as it is.
proof fn lemma_replaced_none(s: Seq<char>, a: char, b: char, r: char)
    requires
        forall|i: int| 0 <= i < s.len() - 1 ==> !(#[trigger] s[i] == a && s[i + 1] == b),
    ensures
        replaced(s, a, b, r) == s,
    decreases s.len(),
{
    if s.len() > 0 {
        let t = s.skip(1);
        assert forall|i: int| 0 <= i < t.len() - 1 implies !(#[trigger] t[i] == a && t[i + 1] == b) by {
            assert(t[i] == s[i + 1] && t[i + 1] == s[i + 2]);
        }
        lemma_replaced_none(t, a, b, r);
        if s.len() >= 2 {
            assert(!(s[0] == a && s[1] == b));
        }
        assert(seq![s[0]] + t =~= s);
    }
}

/// Replacing in the empty text gives the empty text.
proof fn lemma_replaced_empty(s: Seq<char>, a: char, b: char, r: char)
    requires
        s.len() == 0,
    ensures
        replaced(s, a, b, r) == Seq::<char>::empty(),
{
    assert(s =~= Seq::<char>::empty());
}

/// Replacing in a text of one character leaves it as it is.
proof fn lemma_replaced_single(s: Seq<char>, a: char, b: char, r: char)
    requires
        s.len() == 1,
    ensures
        replaced(s, a, b, r) == seq![s[0]],
{
    lemma_replaced_empty(s.skip(1), a, b, r);
    assert(seq![s[0]] + Seq::<char>::empty() =~= seq![s[0]]);
}

/// Replacing works piece by piece where the first piece does not end in `a`.
proof fn lemma_replaced_concat(u: Seq<char>, v: Seq<char>, a: char, b: char, r: char)
    requires
        u.len() == 0 || u.last() != a,
    ensures
        replaced(u + v, a, b, r) == replaced(u, a, b, r) + replaced(v, a, b, r),
    decreases u.len(),
{
    let w = u + v;
    if u.len() == 0 {
        assert(w =~= v);
        assert(replaced(u, a, b, r) + replaced(v, a, b, r) =~= replaced(v, a, b, r));
    } else if u.len() == 1 {
        assert(w[0] == u[0]);
        assert(w.skip(1) =~= v);
        lemma_replaced_single(u, a, b, r);
    } else if u[0] == a && u[1] == b {
        assert(w[0] == u[0] && w[1] == u[1]);
        assert(w.skip(2) =~= u.skip(2) + v);
        if u.skip(2).len() > 0 {
            assert(u.skip(2).last() == u.last());
        }
        lemma_replaced_concat(u.skip(2), v, a, b, r);
        assert(seq![r] + (replaced(u.skip(2), a, b, r) + replaced(v, a, b, r)) =~= (seq![r] + replaced(u.skip(2), a, b, r))
            + replaced(v, a, b, r));
    } else {
        assert(w[0] == u[0] && w[1] == u[1]);
        assert(w.skip(1) =~= u.skip(1) + v);
        assert(u.skip(1).last() == u.last());
        lemma_replaced_concat(u.skip(1), v, a, b, r);
        assert(seq![u[0]] + (replaced(u.skip(1), a, b, r) + replaced(v, a, b, r)) =~= (seq![u[0]] + replaced(
            u.skip(1),
            a,
            b,
            r,
        )) + replaced(v, a, b, r));
    }
}

/// A text that does not end in `a` still does not end in `a` after replacing
/// by a character other than `a`.
proof fn lemma_replaced_last(u: Seq<char>, a: char, b: char, r: char)
    requires
        u.len() > 0,
        u.last() != a,
        r != a,
    ensures
        replaced(u, a, b, r).len() > 0,
        replaced(u, a, b, r).last() != a,
    decreases u.len(),
{
    if u.len() == 1 {
        lemma_replaced_single(u, a, b, r);
    } else if u[0] == a && u[1] == b {
        if u.skip(2).len() == 0 {
            lemma_replaced_empty(u.skip(2), a, b, r);
            assert(seq![r] + Seq::<char>::empty() =~= seq![r]);
        } else {
            assert(u.skip(2).last() == u.last());
            lemma_replaced_last(u.skip(2), a, b, r);
        }
    } else {
        assert(u.skip(1).last() == u.last());
        lemma_replaced_last(u.skip(1), a, b, r);
    }
}

/// Unescaping leaves a text without a backslash as it is.
pub proof fn lemma_unescape_plain(s: Seq<char>)
    requires
        !s.contains('\\'),
    ensures
        unescaped(s) == s,
{
    assert forall|i: int| 0 <= i < s.len() implies #[trigger] s[i] != '\\' by {
        if s[i] == '\\' {
            assert(s.contains('\\'));
        }
    }
    lemma_replaced_none(s, '\\', 'n', '\n');
    lemma_replaced_none(s, '\\', 't', '\t');
    lemma_replaced_none(s, '\\', 'r', '\r');
    lemma_replaced_none(s, '\\', '\\', '\\');
}

/// Each escape \n, \t, \r and \\ alone unescapes to the character it names.
pub proof fn lemma_unescape_escape(c: char)
    requires
        c == 'n' || c == 't' || c == 'r' || c == '\\',
    ensures
        unescaped(seq!['\\', c]) == seq![escaped_char(c)],
{
    let s = seq!['\\', c];
    let e = seq![escaped_char(c)];
    assert(s[0] == '\\' && s[1] == c);
    lemma_replaced_empty(s.skip(2), '\\', c, escaped_char(c));
    assert(seq![escaped_char(c)] + Seq::<char>::empty() =~= e);
    assert(replaced(s, '\\', c, escaped_char(c)) == e);
    if c == 'n' {
        lemma_replaced_none(e, '\\', 't', '\t');
        lemma_replaced_none(e, '\\', 'r', '\r');
        lemma_replaced_none(e, '\\', '\\', '\\');
    } else if c == 't' {
        lemma_replaced_none(s, '\\', 'n', '\n');
        lemma_replaced_none(e, '\\', 'r', '\r');
        lemma_replaced_none(e, '\\', '\\', '\\');
    } else if c == 'r' {
        lemma_replaced_none(s, '\\', 'n', '\n');
        lemma_replaced_none(s, '\\', 't', '\t');
        lemma_replaced_none(e, '\\', '\\', '\\');
    } else {
        lemma_replaced_none(s, '\\', 'n', '\n');
        lemma_replaced_none(s, '\\', 't', '\t');
        lemma_replaced_none(s, '\\', 'r', '\r');
    }
}

/// Unescaping works piece by piece where the first piece does not end in a
/// backslash: no escape spans the two pieces.
pub proof fn lemma_unescape_concat(u: Seq<char>, v: Seq<char>)
    requires
        u.len() == 0 || u.last() != '\\',
    ensures
        unescaped(u + v) == unescaped(u) + unescaped(v),
{
    let u1 = replaced(u, '\\', 'n', '\n');
    let v1 = replaced(v, '\\', 'n', '\n');
    let u2 = replaced(u1, '\\', 't', '\t');
    let v2 = replaced(v1, '\\', 't', '\t');
    let u3 = replaced(u2, '\\', 'r', '\r');
    let v3 = replaced(v2, '\\', 'r', '\r');
    lemma_replaced_concat(u, v, '\\', 'n', '\n');
    if u.len() > 0 {
        lemma_replaced_last(u, '\\', 'n', '\n');
        lemma_replaced_last(u1, '\\', 't', '\t');
        lemma_replaced_last(u2, '\\', 'r', '\r');
    } else {
        assert(u1.len() == 0 && u2.len() == 0 && u3.len() == 0);
    }
    lemma_replaced_concat(u1, v1, '\\', 't', '\t');
    lemma_replaced_concat(u2, v2, '\\', 'r', '\r');
    lemma_replaced_concat(u3, v3, '\\', '\\', '\\');
}

/// A text joined from texts without a backslash, with a separator that does
/// not end in one, does not end in a backslash.
proof fn lemma_joined_last(ts: Seq<Seq<char>>, sep: Seq<char>)
    requires
        forall|i: int| 0 <= i < ts.len() ==> !(#[trigger] ts[i]).contains('\\'),
        sep.len() > 0,
        sep.last() != '\\',
    ensures
        joined(ts, sep).len() == 0 || joined(ts, sep).last() != '\\',
    decreases ts.len(),
{
    if ts.len() == 1 {
        if ts[0].len() > 0 {
            assert(ts[0].contains(ts[0].last()));
        }
    } else if ts.len() > 1 {
        let t = ts.last();
        assert(!ts[ts.len() - 1].contains('\\'));
        if t.len() > 0 {
            assert(t.contains(t.last()));
            assert((joined(ts.drop_last(), sep) + sep + t).last() == t.last());
        } else {
            assert(joined(ts.drop_last(), sep) + sep + t =~= joined(ts.drop_last(), sep) + sep);
        }
    }
}

/// Joining texts without a backslash with the escape \n, \t or \r as the
/// separator puts the character it names between each two texts.
pub proof fn lemma_join_with_escape(ts: Seq<Seq<char>>, c: char)
    requires
        c == 'n' || c == 't' || c == 'r',
        forall|i: int| 0 <= i < ts.len() ==> !(#[trigger] ts[i]).contains('\\'),
    ensures
        unescaped(joined(ts, seq!['\\', c])) == joined(ts, seq![escaped_char(c)]),
    decreases ts.len(),
{
    let sep = seq!['\\', c];
    if ts.len() == 0 {
        lemma_unescape_plain(Seq::<char>::empty());
    } else if ts.len() == 1 {
        lemma_unescape_plain(ts[0]);
    } else {
        let front = ts.drop_last();
        let j = joined(front, sep);
        let t = ts.last();
        assert(!ts[ts.len() - 1].contains('\\'));
        assert forall|i: int| 0 <= i < front.len() implies !(#[trigger] front[i]).contains('\\') by {
            assert(front[i] == ts[i]);
        }
        lemma_join_with_escape(front, c);
        lemma_joined_last(front, sep);
        assert(sep.last() == c);
        lemma_unescape_concat(j, sep);
        assert((j + sep).last() == c);
        lemma_unescape_concat(j + sep, t);
        lemma_unescape_escape(c);
        lemma_unescape_plain(t);
    }
}

/// The text of a string value; nothing for other values.
pub open spec fn text_or_empty(v: ValueModel) -> Seq<char> {
    match v {
        ValueModel::Str(s) => s,
        _ => Seq::empty(),
    }
}

/// Replaces the two characters `a` `b` by `r` as `replaced` says.
fn replace_pair(s: &Vec<char>, a: char, b: char, r: char) -> (out: Vec<char>)
    ensures
        out@ == replaced(s@, a, b, r),
{
    let mut out: Vec<char> = Vec::new();
    let mut i: usize = 0;
    assert(s@.skip(0) =~= s@);
    assert(out@ + replaced(s@.skip(0), a, b, r) =~= replaced(s@, a, b, r));
    while i < s.len()
        invariant
            i <= s@.len(),
            out@ + replaced(s@.skip(i as int), a, b, r) == replaced(s@, a, b, r),
        decreases s.len() - i,
    {
        let ghost rest = s@.skip(i as int);
        let ghost before = out@;
        if i + 1 < s.len() && s[i] == a && s[i + 1] == b {
            assert(rest[0] == a && rest[1] == b);
            assert(rest.skip(2) =~= s@.skip(i + 2));
            out.push(r);
            assert(out@ + replaced(s@.skip(i + 2), a, b, r) =~= before + (seq![r] + replaced(rest.skip(2), a, b, r)));
            i = i + 2;
        } else {
            assert(rest[0] == s@[i as int]);
            assert(rest.skip(1) =~= s@.skip(i + 1));
            out.push(s[i]);
            assert(out@ + replaced(s@.skip(i + 1), a, b, r) =~= before + (seq![s@[i as int]] + replaced(rest.skip(1), a, b, r)));
            i = i + 1;
        }
    }
    assert(s@.skip(i as int) =~= Seq::<char>::empty());
    assert(out@ + Seq::<char>::empty() =~= out@);
    out
}

/// The texts of the items, with non-strings as empty texts, joined with
/// `sep`, and with their escapes turned into characters.
pub fn join_strings(items: &Vec<AgentValue>, sep: &str) -> (r: String)
    ensures
        r@ == unescaped(joined(models(items@).map_values(|v: ValueModel| text_or_empty(v)), sep@)),
{
    let ghost ts = models(items@).map_values(|v: ValueModel| text_or_empty(v));
    let mut out = String::new();
    let mut i: usize = 0;
    assert(ts.take(0) =~= Seq::<Seq<char>>::empty());
    while i < items.len()
        invariant
            i <= items@.len(),
            ts == models(items@).map_values(|v: ValueModel| text_or_empty(v)),
            out@ == joined(ts.take(i as int), sep@),
        decreases items.len() - i,
    {
        assert(ts.take(i + 1).drop_last() =~= ts.take(i as int));
        let text = match items[i].as_str() {
            Some(t) => to_string(t),
            None => {
                proof {
                    if items@[i as int] is Array {
                        lemma_array_model(items@[i as int]->Array_0);
                    }
                    if items@[i as int] is Object {
                        lemma_object_model(items@[i as int]->Object_0);
                    }
                }
                String::new()
            },
        };
        assert(text@ == ts[i as int]);
        if i == 0 {
            out = text;
            assert(ts.take(1)[0] == ts[0]);
        } else {
            out = concat(concat(out.as_str(), sep).as_str(), text.as_str());
        }
        i = i + 1;
    }
    assert(ts.take(ts.len() as int) =~= ts);
    let cs = chars_of(out.as_str());
    let s1 = replace_pair(&cs, '\\', 'n', '\n');
    let s2 = replace_pair(&s1, '\\', 't', '\t');
    let s3 = replace_pair(&s2, '\\', 'r', '\r');
    let s4 = replace_pair(&s3, '\\', '\\', '\\');
    string_from_chars(&s4)
}

/// What the string join agent sends out: for an array, the joined text as
/// a string; anything else as it came.
pub fn string_join(data: AgentData, sep: &str) -> (r: AgentData)
    ensures
        match data.value {
            AgentValue::Array(a) => r.kind@ == "string"@ && r.value@ == ValueModel::Str(
                unescaped(joined(models(a@).map_values(|v: ValueModel| text_or_empty(v)), sep@)),
            ),
            _ => r == data,
        },
{
    match &data.value {
        AgentValue::Array(a) => {
            let out = join_strings(a, sep);
            AgentData::string(out.as_str())
        },
        _ => data,
    }
}

/// The parts of a path between its dots.
pub open spec fn split_dots(s: Seq<char>) -> Seq<Seq<char>>
    decreases s.len(),
{
    if s.len() == 0 {
        seq![Seq::empty()]
    } else {
        let r = split_dots(s.drop_last());
        if s.last() == '.' {
            r.push(Seq::empty())
        } else {
            r.update(r.len() - 1, r.last().push(s.last()))
        }
    }
}

/// Splitting always gives at least one part.
proof fn lemma_split_dots_len(s: Seq<char>)
    ensures
        split_dots(s).len() >= 1,
    decreases s.len(),
{
    if s.len() > 0 {
        lemma_split_dots_len(s.drop_last());
    }
}

/// The parts of `path` between its dots.
pub fn split_path(path: &str) -> (r: Vec<String>)
    ensures
        r@.map_values(|p: String| p@) == split_dots(path@),
{
    let cs = chars_of(path);
    let mut parts: Vec<String> = Vec::new();
    let mut current: Vec<char> = Vec::new();
    let mut i: usize = 0;
    assert(cs@.take(0) =~= Seq::<char>::empty());
    assert(parts@.map_values(|p: String| p@).push(current@) =~= split_dots(cs@.take(0)));
    while i < cs.len()
        invariant
            i <= cs@.len(),
            cs@ == path@,
            parts@.map_values(|p: String| p@).push(current@) == split_dots(cs@.take(i as int)),
        decreases cs.len() - i,
    {
        proof {
            lemma_split_dots_len(cs@.take(i as int));
            assert(cs@.take(i + 1).drop_last() =~= cs@.take(i as int));
            assert(cs@.take(i + 1).last() == cs@[i as int]);
        }
        let ghost before = parts@.map_values(|p: String| p@);
        let ghost cur = current@;
        if cs[i] == '.' {
            let part = string_from_chars(&current);
            parts.push(part);
            current = Vec::new();
            assert(parts@.map_values(|p: String| p@) =~= before.push(cur));
            assert(parts@.map_values(|p: String| p@).push(current@) =~= before.push(cur).push(Seq::<char>::empty()));
        } else {
            current.push(cs[i]);
            assert(parts@.map_values(|p: String| p@).push(current@) =~= before.push(cur).update(
                before.len() as int,
                cur.push(cs@[i as int]),
            ));
        }
        i = i + 1;
    }
    assert(cs@.take(cs@.len() as int) =~= cs@);
    let ghost before = parts@.map_values(|p: String| p@);
    let last = string_from_chars(&current);
    parts.push(last);
    assert(parts@.map_values(|p: String| p@) =~= before.push(current@));
    parts
}

/// The value found along the property path `ps`: each part names a field
/// of the object reached so far; where there is no such field, or no
/// object, the unit value.
pub open spec fn path_value(v: ValueModel, ps: Seq<Seq<char>>) -> ValueModel
    decreases ps.len(),
{
    if ps.len() == 0 {
        v
    } else {
        match v {
            ValueModel::Object(fs) => if pairs_to_map(fs).contains_key(ps[0]) {
                path_value(pairs_to_map(fs)[ps[0]], ps.skip(1))
            } else {
                ValueModel::Unit
            },
            _ => ValueModel::Unit,
        }
    }
}

/// A non-empty path from a value that is not an object finds nothing: the
/// unit value, whatever the rest of the path is.
pub proof fn lemma_path_from_non_object(v: ValueModel, ps: Seq<Seq<char>>)
    requires
        ps.len() > 0,
        !(v is Object),
    ensures
        path_value(v, ps) == ValueModel::Unit,
{
}

/// A path whose first part names no field of the object finds nothing;
/// one whose first part names a field goes on from that field.
pub proof fn lemma_path_first_step(fs: Seq<(Seq<char>, ValueModel)>, ps: Seq<Seq<char>>)
    requires
        ps.len() > 0,
    ensures
        !pairs_to_map(fs).contains_key(ps[0]) ==> path_value(ValueModel::Object(fs), ps) == ValueModel::Unit,
        pairs_to_map(fs).contains_key(ps[0]) ==> path_value(ValueModel::Object(fs), ps) == path_value(
            pairs_to_map(fs)[ps[0]],
            ps.skip(1),
        ),
{
}

/// Following a path in two pieces is following it whole: the second piece
/// goes on from what the first found.
pub proof fn lemma_path_concat(v: ValueModel, ps: Seq<Seq<char>>, qs: Seq<Seq<char>>)
    ensures
        path_value(v, ps + qs) == path_value(path_value(v, ps), qs),
    decreases ps.len(),
{
    if ps.len() == 0 {
        assert(ps + qs =~= qs);
    } else {
        assert((ps + qs)[0] == ps[0]);
        assert((ps + qs).skip(1) =~= ps.skip(1) + qs);
        match v {
            ValueModel::Object(fs) => {
                if pairs_to_map(fs).contains_key(ps[0]) {
                    lemma_path_concat(pairs_to_map(fs)[ps[0]], ps.skip(1), qs);
                }
            },
            _ => {},
        }
    }
}

/// The value found along the property path `props`.
pub fn value_at_path(value: &AgentValue, props: &Vec<String>) -> (r: AgentValue)
    ensures
        r@ == path_value(value@, props@.map_values(|p: String| p@)),
{
    let ghost ps = props@.map_values(|p: String| p@);
    let mut current = value.duplicate();
    let mut i: usize = 0;
    assert(ps.skip(0) =~= ps);
    while i < props.len()
        invariant
            i <= props@.len(),
            ps == props@.map_values(|p: String| p@),
            path_value(current@, ps.skip(i as int)) == path_value(value@, ps),
        decreases props.len() - i,
    {
        let ghost rest = ps.skip(i as int);
        proof {
            assert(rest[0] == props@[i as int]@);
            assert(rest.skip(1) =~= ps.skip(i + 1));
        }
        let next = match &current {
            AgentValue::Object(_) => {
                proof {
                    lemma_field_models(current, props@[i as int]@);
                }
                match current.get(props[i].as_str()) {
                    Some(v) => Some(v.duplicate()),
                    None => None,
                }
            },
            _ => {
                proof {
                    if current is Array {
                        lemma_array_model(current->Array_0);
                    }
                }
                None
            },
        };
        match next {
            Some(v) => {
                current = v;
            },
            None => {
                proof {
                    assert(path_value(value@, ps) == ValueModel::Unit);
                }
                return AgentValue::Unit;
            },
        }
        i = i + 1;
    }
    assert(ps.skip(props@.len() as int) =~= Seq::<Seq<char>>::empty());
    current
}

/// What the property agent sends out for `data` and the dotted path
/// `property`: nothing for an empty path; for an array, the array of the
/// values found in each item, of the kind of the first (unit where there is
/// none); for an object, the value found; nothing for anything else.
pub fn get_property(data: &AgentData, property: &str) -> (r: Option<AgentData>)
    ensures
        property@.len() == 0 ==> r is None,
        property@.len() > 0 ==> match data.value {
            AgentValue::Array(a) => r matches Some(d) && d.value@ == ValueModel::Array(
                models(a@).map_values(|v: ValueModel| path_value(v, split_dots(property@))),
            ) && d.kind@ == (if a@.len() == 0 {
                "unit"@
            } else {
                kind_name(path_value(a@[0]@, split_dots(property@)))
            }),
            AgentValue::Object(_) => r matches Some(d) && d.value@ == path_value(data.value@, split_dots(property@))
                && d.kind@ == kind_name(d.value@),
            _ => r is None,
        },
{
    if property.is_empty() {
        return None;
    }
    let props = split_path(property);
    match &data.value {
        AgentValue::Array(a) => {
            let ghost ps = split_dots(property@);
            let mut out: Vec<AgentValue> = Vec::new();
            let mut i: usize = 0;
            while i < a.len()
                invariant
                    i <= a@.len(),
                    props@.map_values(|p: String| p@) == ps,
                    out@.len() == i,
                    forall|t: int| 0 <= t < i ==> #[trigger] out@[t]@ == path_value(a@[t]@, ps),
                decreases a.len() - i,
            {
                out.push(value_at_path(&a[i], &props));
                i = i + 1;
            }
            let kind = if out.len() == 0 {
                to_string("unit")
            } else {
                out[0].kind()
            };
            proof {
                lemma_array_model(out);
                assert(models(out@) =~= models(a@).map_values(|v: ValueModel| path_value(v, ps)));
            }
            Some(AgentData { kind, value: AgentValue::Array(out) })
        },
        AgentValue::Object(_) => {
            let v = value_at_path(&data.value, &props);
            Some(AgentData::from_value(v))
        },
        _ => None,
    }
}

/// The zip agent: it waits for a value on each of its ports, all within one
/// context, and then sends them out as one object under their keys.
#[derive(Debug)]
pub struct Zip {
    n: usize,
    in_ports: Vec<String>,
    keys: Vec<String>,
    input_value: Vec<Option<AgentValue>>,
    current_id: usize,
}

pub struct ZipModel {
    pub in_ports: Seq<Seq<char>>,
    pub keys: Seq<Seq<char>>,
    pub inputs: Seq<Option<ValueModel>>,
    pub current_id: usize,
}

pub open spec fn opt_value(o: Option<AgentValue>) -> Option<ValueModel> {
    match o {
        Some(v) => Some(v@),
        None => None,
    }
}

impl View for Zip {
    type V = ZipModel;

    closed spec fn view(&self) -> ZipModel {
        ZipModel {
            in_ports: self.in_ports@.map_values(|s: String| s@),
            keys: self.keys@.map_values(|s: String| s@),
            inputs: self.input_value@.map_values(|o: Option<AgentValue>| opt_value(o)),
            current_id: self.current_id,
        }
    }
}

/// The name of the `i`-th port or key, counting from one: `prefix` and `i`.
pub open spec fn numbered(prefix: Seq<char>, i: int) -> Seq<char> {
    prefix + decimal(i as nat)
}

/// The text of a configuration value, empty where it is not a string.
pub open spec fn config_text(c: AgentConfig, key: Seq<char>) -> Seq<char> {
    match c.lookup(key) {
        Some(AgentValue::String(s)) => s@,
        _ => Seq::empty(),
    }
}

impl Zip {
    #[verifier::type_invariant]
    closed spec fn zip_sizes(self) -> bool {
        &&& self.in_ports@.len() == self.n
        &&& self.keys@.len() == self.n
        &&& self.input_value@.len() == self.n
    }

    pub fn new() -> (r: Self)
        ensures
            r@.in_ports.len() == 0 && r@.keys.len() == 0 && r@.inputs.len() == 0 && r@.current_id == 0,
    {
        Zip { n: 0, in_ports: Vec::new(), keys: Vec::new(), input_value: Vec::new(), current_id: 0 }
    }

    /// Takes a new configuration: `n` ports, named "in1" on, and their keys,
    /// the configured "key1" on. Where the number of ports changes, waiting
    /// inputs are dropped and the context is forgotten.
    pub fn configure(&mut self, n: i64, config: &AgentConfig) -> (r: Result<(), AgentError>)
        requires
            n < usize::MAX,
        ensures
            n <= 1 ==> (r matches Err(e) && e@ == ErrorModel::InvalidConfig("n must be greater than 1"@)) && final(self)@
                == old(self)@,
            n > 1 ==> {
                &&& r is Ok
                &&& final(self)@.keys.len() == n
                &&& forall|i: int| 0 <= i < n ==> #[trigger] final(self)@.keys[i] == config_text(*config, numbered("key"@, i + 1))
                &&& if old(self)@.keys.len() == n {
                    final(self)@.in_ports == old(self)@.in_ports && final(self)@.inputs == old(self)@.inputs
                        && final(self)@.current_id == old(self)@.current_id
                } else {
                    &&& final(self)@.in_ports.len() == n
                    &&& forall|i: int| 0 <= i < n ==> #[trigger] final(self)@.in_ports[i] == numbered("in"@, i + 1)
                    &&& final(self)@.inputs == Seq::new(n as nat, |i: int| None::<ValueModel>)
                    &&& final(self)@.current_id == 0
                }
            },
    {
        proof {
            use_type_invariant(&*self);
        }
        if n <= 1 {
            return Err(AgentError::InvalidConfig(to_string("n must be greater than 1")));
        }
        let count = n as usize;
        let mut keys: Vec<String> = Vec::new();
        let mut i: usize = 0;
        while i < count
            invariant
                i <= count,
                count == n,
                keys@.len() == i,
                forall|t: int| 0 <= t < i ==> #[trigger] keys@[t]@ == config_text(*config, numbered("key"@, t + 1)),
            decreases count - i,
        {
            let name = concat("key", decimal_string((i + 1) as u128).as_str());
            let text = match config.get_string(name.as_str()) {
                Some(t) => t,
                None => String::new(),
            };
            keys.push(text);
            i = i + 1;
        }
        if self.n == count {
            self.keys = keys;
            assert(self@.keys =~= keys@.map_values(|s: String| s@));
            return Ok(());
        }
        let mut ports: Vec<String> = Vec::new();
        let mut inputs: Vec<Option<AgentValue>> = Vec::new();
        let mut j: usize = 0;
        while j < count
            invariant
                j <= count,
                count == n,
                ports@.len() == j,
                inputs@.len() == j,
                forall|t: int| 0 <= t < j ==> #[trigger] ports@[t]@ == numbered("in"@, t + 1),
                forall|t: int| 0 <= t < j ==> #[trigger] inputs@[t] is None,
            decreases count - j,
        {
            ports.push(concat("in", decimal_string((j + 1) as u128).as_str()));
            inputs.push(None);
            j = j + 1;
        }
        *self = Zip { n: count, in_ports: ports, keys, input_value: inputs, current_id: 0 };
        assert(self@.inputs =~= Seq::new(n as nat, |i: int| None::<ValueModel>));
        Ok(())
    }

    /// Takes in a value on the port `pin` within the context `ctx_id`.
    /// Refused where a key is empty. A new context drops the values waiting;
    /// the value waits on each port named `pin`; once every port has a
    /// value, they go out as one object under their keys and none waits.
    pub fn process(&mut self, ctx_id: usize, pin: &str, value: &AgentValue) -> (r: Result<Option<AgentData>, AgentError>)
        ensures
            (exists|i: int| 0 <= i < old(self)@.keys.len() && #[trigger] old(self)@.keys[i].len() == 0) ==> (r matches Err(e)
                && e@ is InvalidConfig && final(self)@ == old(self)@),
            (forall|i: int| 0 <= i < old(self)@.keys.len() ==> #[trigger] old(self)@.keys[i].len() > 0) ==> {
                let waiting = Seq::new(
                    old(self)@.inputs.len(),
                    |i: int|
                        if old(self)@.in_ports[i] == pin@ {
                            Some(value@)
                        } else if ctx_id == old(self)@.current_id {
                            old(self)@.inputs[i]
                        } else {
                            None
                        },
                );
                &&& final(self)@.current_id == ctx_id
                &&& final(self)@.keys == old(self)@.keys && final(self)@.in_ports == old(self)@.in_ports
                &&& if forall|i: int| 0 <= i < waiting.len() ==> #[trigger] waiting[i] is Some {
                    &&& final(self)@.inputs == Seq::new(waiting.len(), |i: int| None::<ValueModel>)
                    &&& r matches Ok(Some(d)) && d.kind@ == "object"@ && d.value@ is Object && pairs_to_map(d.value@->Object_0)
                        == zipped(old(self)@.keys, waiting)
                } else {
                    final(self)@.inputs == waiting && r matches Ok(None)
                }
            },
    {
        proof {
            use_type_invariant(&*self);
        }
        let n = self.n;
        let mut k: usize = 0;
        while k < n
            invariant
                k <= n == self.keys@.len(),
                forall|t: int| 0 <= t < k ==> #[trigger] self.keys@[t]@.len() > 0,
            decreases n - k,
        {
            if self.keys[k].as_str().is_empty() {
                assert(old(self)@.keys[k as int].len() == 0);
                let name = concat(concat("key", decimal_string((k + 1) as u128).as_str()).as_str(), " is not set");
                return Err(AgentError::InvalidConfig(name));
            }
            k = k + 1;
        }
        assert(forall|t: int| 0 <= t < n ==> #[trigger] old(self)@.keys[t].len() > 0) by {
            assert forall|t: int| 0 <= t < n implies #[trigger] old(self)@.keys[t].len() > 0 by {
                assert(self.keys@[t]@.len() > 0);
            }
        }
        let ghost old_inputs = self@.inputs;
        let same_ctx = ctx_id == self.current_id;
        if !same_ctx {
            self.current_id = ctx_id;
        }
        let mut inputs: Vec<Option<AgentValue>> = Vec::new();
        let mut i: usize = 0;
        while i < n
            invariant
                i <= n == self.in_ports@.len() == self.input_value@.len(),
                old_inputs == self.input_value@.map_values(|o: Option<AgentValue>| opt_value(o)),
                inputs@.len() == i,
                forall|t: int| 0 <= t < i ==> #[trigger] opt_value(inputs@[t]) == (if self.in_ports@[t]@ == pin@ {
                    Some(value@)
                } else if same_ctx {
                    old_inputs[t]
                } else {
                    None
                }),
            decreases n - i,
        {
            if str_eq(self.in_ports[i].as_str(), pin) {
                inputs.push(Some(value.duplicate()));
            } else if same_ctx {
                let kept = match &self.input_value[i] {
                    Some(v) => Some(v.duplicate()),
                    None => None,
                };
                inputs.push(kept);
            } else {
                inputs.push(None);
            }
            i = i + 1;
        }
        let ghost waiting = inputs@.map_values(|o: Option<AgentValue>| opt_value(o));
        assert(waiting =~= Seq::new(
            old(self)@.inputs.len(),
            |i: int|
                if old(self)@.in_ports[i] == pin@ {
                    Some(value@)
                } else if ctx_id == old(self)@.current_id {
                    old(self)@.inputs[i]
                } else {
                    None
                },
        ));
        let mut all = true;
        let mut j: usize = 0;
        while j < n
            invariant
                j <= n == inputs@.len(),
                all == (forall|t: int| 0 <= t < j ==> #[trigger] inputs@[t] is Some),
            decreases n - j,
        {
            if inputs[j].is_none() {
                all = false;
            }
            j = j + 1;
        }
        assert(all == (forall|t: int| 0 <= t < waiting.len() ==> #[trigger] waiting[t] is Some)) by {
            assert forall|t: int| 0 <= t < waiting.len() implies (#[trigger] waiting[t] is Some) == (inputs@[t] is Some) by {
                assert(waiting[t] == opt_value(inputs@[t]));
            }
            if all {
                assert forall|t: int| 0 <= t < waiting.len() implies #[trigger] waiting[t] is Some by {
                    assert(inputs@[t] is Some);
                }
            } else {
                let t = choose|t: int| 0 <= t < n && !(#[trigger] inputs@[t] is Some);
                assert(!(waiting[t] is Some));
            }
        }
        if !all {
            self.input_value = inputs;
            return Ok(None);
        }
        let mut fields: KeyMap<AgentValue> = KeyMap::new();
        let mut t: usize = 0;
        proof {
            lemma_entries_model(fields);
            assert(entries_model(fields) =~= Map::<Seq<char>, ValueModel>::empty());
        }
        while t < n
            invariant
                t <= n == inputs@.len() == self.keys@.len(),
                forall|u: int| 0 <= u < n ==> #[trigger] inputs@[u] is Some,
                entries_model(fields) == zipped(self@.keys.take(t as int), waiting.take(t as int)),
                waiting == inputs@.map_values(|o: Option<AgentValue>| opt_value(o)),
            decreases n - t,
        {
            let v = match &inputs[t] {
                Some(v) => v.duplicate(),
                None => AgentValue::Unit,
            };
            let ghost before = fields;
            let ghost km = self.keys@[t as int]@;
            let ghost vm = v@;
            fields.insert(self.keys[t].clone(), v);
            proof {
                lemma_entries_model(before);
                lemma_entries_model(fields);
                assert(entries_model(fields) =~= entries_model(before).insert(km, vm));
                assert(self@.keys.take(t + 1).drop_last() =~= self@.keys.take(t as int));
                assert(waiting.take(t + 1).drop_last() =~= waiting.take(t as int));
            }
            t = t + 1;
        }
        assert(self@.keys.take(n as int) =~= self@.keys);
        assert(waiting.take(n as int) =~= waiting);
        let mut cleared: Vec<Option<AgentValue>> = Vec::new();
        let mut c: usize = 0;
        while c < n
            invariant
                c <= n,
                cleared@.len() == c,
                forall|u: int| 0 <= u < c ==> #[trigger] cleared@[u] is None,
            decreases n - c,
        {
            cleared.push(None);
            c = c + 1;
        }
        self.input_value = cleared;
        assert(self@.inputs =~= Seq::new(waiting.len(), |i: int| None::<ValueModel>));
        proof {
            lemma_object_model(fields);
            lemma_entries_model(fields);
        }
        Ok(Some(AgentData::object(fields)))
    }
}

/// The object of zipped values: each key with the value of its port, later
/// keys winning.
pub open spec fn zipped(keys: Seq<Seq<char>>, values: Seq<Option<ValueModel>>) -> Map<Seq<char>, ValueModel>
    decreases keys.len(),
{
    if keys.len() == 0 || values.len() == 0 {
        Map::empty()
    } else {
        zipped(keys.drop_last(), values.drop_last()).insert(keys.last(), values.last()->Some_0)
    }
}

/// What the object input agent sends out for its configured value: an
/// object as object data, an array as an array of kind "object"; anything
/// else is refused.
pub fn object_input_data(value: &AgentValue) -> (r: Result<AgentData, AgentError>)
    ensures
        match *value {
            AgentValue::Object(_) => r matches Ok(d) && d.kind@ == "object"@ && d.value@ == value@,
            AgentValue::Array(_) => r matches Ok(d) && d.kind@ == "object"@ && d.value@ == value@,
            _ => r matches Err(e) && e@ == ErrorModel::InvalidConfig("Invalid object value for config 'object'"@),
        },
{
    match value {
        AgentValue::Object(_) => Ok(AgentData { kind: to_string("object"), value: value.duplicate() }),
        AgentValue::Array(_) => Ok(AgentData { kind: to_string("object"), value: value.duplicate() }),
        _ => Err(AgentError::InvalidConfig(to_string("Invalid object value for config 'object'"))),
    }
}

} // verus!

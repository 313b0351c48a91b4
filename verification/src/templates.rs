//! What the template agents render and what they send out: the template
//! itself is rendered by a template engine, one rendering per item.

use crate::data::AgentData;
use crate::error::{AgentError, ErrorModel};
use crate::text::{concat, to_string};
use crate::value::{lemma_array_model, models, AgentValue, ValueModel};
use vstd::prelude::*;

verus! {

broadcast use vstd::string::group_string_axioms;

/// A template must be set: an empty one is refused.
pub fn check_template(template: &str) -> (r: Result<(), AgentError>)
    ensures
        r is Err <==> template@.len() == 0,
        r matches Err(e) ==> e@ == ErrorModel::InvalidConfig("template is not set"@),
{
    if template.is_empty() {
        Err(AgentError::InvalidConfig(to_string("template is not set")))
    } else {
        Ok(())
    }
}

/// What the template-string and template-text agents render, one after
/// the other: each item of array data as data of the array's kind; other
/// data as it is.
pub fn template_items(data: &AgentData) -> (r: Vec<AgentData>)
    ensures
        match data.value {
            AgentValue::Array(a) => r@.len() == a@.len() && forall|i: int|
                0 <= i < r@.len() ==> (#[trigger] r@[i]).kind@ == data.kind@ && r@[i].value@ == a@[i]@,
            _ => r@.len() == 1 && r@[0].kind@ == data.kind@ && r@[0].value@ == data.value@,
        },
{
    let mut out: Vec<AgentData> = Vec::new();
    match &data.value {
        AgentValue::Array(a) => {
            let mut i: usize = 0;
            while i < a.len()
                invariant
                    i <= a@.len(),
                    out@.len() == i,
                    forall|t: int| 0 <= t < i ==> (#[trigger] out@[t]).kind@ == data.kind@ && out@[t].value@ == a@[t]@,
                decreases a.len() - i,
            {
                out.push(AgentData { kind: data.kind.clone(), value: a[i].duplicate() });
                i = i + 1;
            }
        },
        _ => {
            out.push(AgentData { kind: data.kind.clone(), value: data.value.duplicate() });
        },
    }
    out
}

/// What the template-array agent renders: array data as it is; other data
/// as an array of its one value, of its kind.
pub fn template_array_input(data: &AgentData) -> (r: AgentData)
    ensures
        r.kind@ == data.kind@,
        match data.value {
            AgentValue::Array(_) => r.value@ == data.value@,
            _ => r.value@ == ValueModel::Array(seq![data.value@]),
        },
{
    match &data.value {
        AgentValue::Array(_) => AgentData { kind: data.kind.clone(), value: data.value.duplicate() },
        _ => {
            let mut items: Vec<AgentValue> = Vec::new();
            items.push(data.value.duplicate());
            proof {
                lemma_array_model(items);
                assert(models(items@) =~= seq![data.value@]);
            }
            AgentData { kind: data.kind.clone(), value: AgentValue::Array(items) }
        },
    }
}

/// The failure that a rendering reports, as the agents word it.
pub open spec fn render_failure(e: Seq<char>) -> ErrorModel {
    ErrorModel::InvalidValue("Failed to render template: "@ + e)
}

/// What a template agent sends out for one rendering: the rendered string,
/// or the failure.
pub fn rendered_string(rendered: Result<String, String>) -> (r: Result<AgentData, AgentError>)
    ensures
        match rendered {
            Ok(s) => r matches Ok(d) && d.kind@ == "string"@ && d.value@ == ValueModel::Str(s@),
            Err(e) => r matches Err(x) && x@ == render_failure(e@),
        },
{
    match rendered {
        Ok(s) => Ok(AgentData::string(s.as_str())),
        Err(e) => Err(AgentError::InvalidValue(concat("Failed to render template: ", e.as_str()))),
    }
}

/// The first failure among renderings, if any.
pub open spec fn first_failure(rs: Seq<Result<String, String>>) -> Option<Seq<char>>
    decreases rs.len(),
{
    if rs.len() == 0 {
        None
    } else {
        match first_failure(rs.drop_last()) {
            Some(e) => Some(e),
            None => match rs.last() {
                Err(e) => Some(e@),
                Ok(_) => None,
            },
        }
    }
}

/// A failure among the first renderings is the first failure of all of them.
proof fn lemma_first_failure_extends(rs: Seq<Result<String, String>>, k: int, n: int)
    requires
        0 <= k <= n <= rs.len(),
        first_failure(rs.take(k)) is Some,
    ensures
        first_failure(rs.take(n)) == first_failure(rs.take(k)),
    decreases n - k,
{
    if n > k {
        lemma_first_failure_extends(rs, k, n - 1);
        assert(rs.take(n).drop_last() =~= rs.take(n - 1));
    }
}

/// What a template agent sends out for the renderings of the items of an
/// array: the first failure, where one failed; else the rendered strings
/// as an array of kind "string".
pub fn rendered_strings(rendered: Vec<Result<String, String>>) -> (r: Result<AgentData, AgentError>)
    ensures
        match first_failure(rendered@) {
            Some(e) => r matches Err(x) && x@ == render_failure(e),
            None => r matches Ok(d) && d.kind@ == "string"@ && d.value@ == ValueModel::Array(
                Seq::new(rendered@.len(), |i: int| ValueModel::Str(rendered@[i]->Ok_0@)),
            ),
        },
{
    let ghost rs = rendered@;
    let mut out: Vec<AgentValue> = Vec::new();
    let mut i: usize = 0;
    assert(rs.take(0) =~= Seq::<Result<String, String>>::empty());
    while i < rendered.len()
        invariant
            rs == rendered@,
            i <= rs.len(),
            first_failure(rs.take(i as int)) is None,
            out@.len() == i,
            forall|t: int| 0 <= t < i ==> rs[t] is Ok && (#[trigger] out@[t])@ == ValueModel::Str(rs[t]->Ok_0@),
        decreases rendered.len() - i,
    {
        assert(rs.take(i + 1).drop_last() =~= rs.take(i as int));
        assert(rs.take(i + 1).last() == rs[i as int]);
        match &rendered[i] {
            Ok(s) => {
                out.push(AgentValue::string(s.as_str()));
            },
            Err(e) => {
                proof {
                    lemma_first_failure_extends(rs, i + 1, rs.len() as int);
                    assert(rs.take(rs.len() as int) =~= rs);
                }
                return Err(AgentError::InvalidValue(concat("Failed to render template: ", e.as_str())));
            },
        }
        i = i + 1;
    }
    assert(rs.take(rs.len() as int) =~= rs);
    proof {
        lemma_array_model(out);
        assert(models(out@) =~= Seq::new(rs.len(), |t: int| ValueModel::Str(rs[t]->Ok_0@)));
    }
    Ok(AgentData { kind: to_string("string"), value: AgentValue::Array(out) })
}

} // verus!

//! Laws of value equality.

use crate::float64::is_nan_bits;
use crate::value::{elements_equal, entries_equal, models_equal, ValueModel};
use vstd::prelude::*;

verus! {

/// Whether no number in a value is NaN.
pub open spec fn nan_free(v: ValueModel) -> bool
    decreases v,
{
    match v {
        ValueModel::Number(bits) => !is_nan_bits(bits),
        ValueModel::Array(a) => nan_free_elements(a),
        ValueModel::Object(ps) => nan_free_entries(ps),
        _ => true,
    }
}

pub open spec fn nan_free_elements(a: Seq<ValueModel>) -> bool
    decreases a,
{
    if a.len() == 0 {
        true
    } else {
        proof {
            assert(decreases_to!(a => a.subrange(1, a.len() as int)));
        }
        nan_free(a[0]) && nan_free_elements(a.subrange(1, a.len() as int))
    }
}

pub open spec fn nan_free_entries(ps: Seq<(Seq<char>, ValueModel)>) -> bool
    decreases ps,
{
    if ps.len() == 0 {
        true
    } else {
        proof {
            assert(decreases_to!(ps => ps.subrange(1, ps.len() as int)));
        }
        nan_free(ps[0].1) && nan_free_entries(ps.subrange(1, ps.len() as int))
    }
}

/// A value with no NaN in it equals itself; in particular, a copy of such a
/// value equals it.
pub proof fn lemma_equals_reflexive(v: ValueModel)
    requires
        nan_free(v),
    ensures
        models_equal(v, v),
    decreases v, 0int,
{
    match v {
        ValueModel::Array(a) => {
            lemma_elements_reflexive(a);
        },
        ValueModel::Object(ps) => {
            lemma_entries_reflexive(ps);
        },
        _ => {},
    }
}

proof fn lemma_elements_reflexive(a: Seq<ValueModel>)
    requires
        nan_free_elements(a),
    ensures
        elements_equal(a, a),
    decreases a, 1int,
{
    if a.len() > 0 {
        assert(decreases_to!(a => a[0]));
        lemma_equals_reflexive(a[0]);
        assert(decreases_to!(a => a.subrange(1, a.len() as int)));
        lemma_elements_reflexive(a.subrange(1, a.len() as int));
    }
}

proof fn lemma_entries_reflexive(ps: Seq<(Seq<char>, ValueModel)>)
    requires
        nan_free_entries(ps),
    ensures
        entries_equal(ps, ps),
    decreases ps, 1int,
{
    if ps.len() > 0 {
        assert(decreases_to!(ps => ps[0]));
        assert(decreases_to!(ps[0] => ps[0].1));
        lemma_equals_reflexive(ps[0].1);
        assert(decreases_to!(ps => ps.subrange(1, ps.len() as int)));
        lemma_entries_reflexive(ps.subrange(1, ps.len() as int));
    }
}

} // verus!

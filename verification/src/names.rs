//! The rules for flow names: which names are valid, trimming white space,
//! and how a taken name is made unique.

use crate::ids::{decimal, decimal_string, lemma_decimal_injective};
use crate::keymap::{has_key, lemma_map_contains, pairs_to_map};
use crate::text::{chars_of, concat, string_from_chars};
use vstd::prelude::*;
use vstd::set_lib::{lemma_int_range, lemma_len_subset, lemma_map_size, set_int_range};

verus! {

broadcast use vstd::string::group_string_axioms;

/// Whether a character has the Unicode White_Space property.
pub open spec fn is_white_space(c: char) -> bool {
    let u = c as u32;
    (9 <= u && u <= 13) || u == 32 || u == 0x85 || u == 0xa0 || u == 0x1680 || (0x2000 <= u && u <= 0x200a)
        || u == 0x2028 || u == 0x2029 || u == 0x202f || u == 0x205f || u == 0x3000
}

pub fn is_white_space_char(c: char) -> (r: bool)
    ensures
        r == is_white_space(c),
{
    let u = c as u32;
    (9 <= u && u <= 13) || u == 32 || u == 0x85 || u == 0xa0 || u == 0x1680 || (0x2000 <= u && u <= 0x200a)
        || u == 0x2028 || u == 0x2029 || u == 0x202f || u == 0x205f || u == 0x3000
}

/// The characters without leading white space.
pub open spec fn trim_start(s: Seq<char>) -> Seq<char>
    decreases s.len(),
{
    if s.len() > 0 && is_white_space(s[0]) {
        trim_start(s.skip(1))
    } else {
        s
    }
}

/// The characters without trailing white space.
pub open spec fn trim_end(s: Seq<char>) -> Seq<char>
    decreases s.len(),
{
    if s.len() > 0 && is_white_space(s.last()) {
        trim_end(s.drop_last())
    } else {
        s
    }
}

/// The characters without leading and trailing white space.
pub open spec fn trim(s: Seq<char>) -> Seq<char> {
    trim_end(trim_start(s))
}

/// The string without leading and trailing white space.
pub fn trim_string(s: &str) -> (r: String)
    ensures
        r@ == trim(s@),
{
    let cs = chars_of(s);
    let n = cs.len();
    let mut a: usize = 0;
    assert(s@.skip(0) =~= s@);
    while a < n && is_white_space_char(cs[a])
        invariant
            a <= n == cs@.len(),
            cs@ == s@,
            trim_start(s@) == trim_start(s@.skip(a as int)),
        decreases n - a,
    {
        assert(s@.skip(a as int).skip(1) =~= s@.skip(a + 1));
        a = a + 1;
    }
    let mut b: usize = n;
    assert(s@.skip(a as int) =~= s@.subrange(a as int, b as int));
    while b > a && is_white_space_char(cs[b - 1])
        invariant
            a <= b <= n == cs@.len(),
            cs@ == s@,
            trim_start(s@) == s@.subrange(a as int, n as int),
            trim(s@) == trim_end(s@.subrange(a as int, b as int)),
        decreases b,
    {
        assert(s@.subrange(a as int, b as int).drop_last() =~= s@.subrange(a as int, b - 1));
        b = b - 1;
    }
    let mut out: Vec<char> = Vec::new();
    let mut i: usize = a;
    while i < b
        invariant
            a <= i <= b <= n == cs@.len(),
            cs@ == s@,
            out@ == s@.subrange(a as int, i as int),
        decreases b - i,
    {
        out.push(cs[i]);
        assert(out@ =~= s@.subrange(a as int, i + 1));
        i = i + 1;
    }
    string_from_chars(&out)
}

/// Whether every character is white space (so that trimming leaves nothing).
pub open spec fn all_white_space(s: Seq<char>) -> bool {
    forall|i: int| 0 <= i < s.len() ==> is_white_space(#[trigger] s[i])
}

/// Characters that a flow name may not hold.
pub open spec fn forbidden_char(c: char) -> bool {
    c == '\\' || c == ':' || c == '*' || c == '?' || c == '"' || c == '<' || c == '>' || c == '|'
}

/// Whether a path segment "." or ".." starts at position `i`: a segment is
/// what stands between two slashes, or a slash and an end.
pub open spec fn dot_segment_at(s: Seq<char>, i: int) -> bool {
    &&& 0 <= i < s.len()
    &&& (i == 0 || s[i - 1] == '/')
    &&& s[i] == '.'
    &&& ((i + 1 == s.len() || s[i + 1] == '/') || (i + 1 < s.len() && s[i + 1] == '.' && (i + 2 == s.len()
        || s[i + 2] == '/')))
}

/// Whether two slashes follow each other at position `i`.
pub open spec fn double_slash_at(s: Seq<char>, i: int) -> bool {
    0 <= i && i + 1 < s.len() && s[i] == '/' && s[i + 1] == '/'
}

/// Whether a name may name a flow: it is not blank; where it is a path, it
/// neither starts nor ends with a slash, has no empty segment and no segment
/// "." or ".."; and it holds none of the characters \ : * ? " < > |.
pub open spec fn valid_flow_name(s: Seq<char>) -> bool {
    &&& !all_white_space(s)
    &&& s.contains('/') ==> {
        &&& s[0] != '/'
        &&& s.last() != '/'
        &&& forall|i: int| !#[trigger] double_slash_at(s, i)
        &&& forall|i: int| !#[trigger] dot_segment_at(s, i)
    }
    &&& forall|i: int| 0 <= i < s.len() ==> !forbidden_char(#[trigger] s[i])
}

pub fn is_forbidden_char(c: char) -> (r: bool)
    ensures
        r == forbidden_char(c),
{
    c == '\\' || c == ':' || c == '*' || c == '?' || c == '"' || c == '<' || c == '>' || c == '|'
}

/// Whether `name` is a valid flow name.
pub fn is_valid_flow_name(name: &str) -> (r: bool)
    ensures
        r == valid_flow_name(name@),
{
    let cs = chars_of(name);
    let n = cs.len();
    let ghost s = name@;
    let mut blank = true;
    let mut slash = false;
    let mut double_slash = false;
    let mut dot_segment = false;
    let mut forbidden = false;
    let mut i: usize = 0;
    while i < n
        invariant
            i <= n == cs@.len(),
            cs@ == s,
            blank == (forall|t: int| 0 <= t < i ==> is_white_space(#[trigger] s[t])),
            slash == (exists|t: int| 0 <= t < i && #[trigger] s[t] == '/'),
            double_slash == (exists|t: int| t < i && #[trigger] double_slash_at(s, t)),
            dot_segment == (exists|t: int| t < i && #[trigger] dot_segment_at(s, t)),
            forbidden == (exists|t: int| 0 <= t < i && forbidden_char(#[trigger] s[t])),
        decreases n - i,
    {
        let c = cs[i];
        let ghost was_dot = dot_segment;
        let ghost was_double = double_slash;
        if !is_white_space_char(c) {
            blank = false;
        }
        if c == '/' {
            slash = true;
        }
        if c == '/' && i + 1 < n && cs[i + 1] == '/' {
            double_slash = true;
        }
        if c == '.' && (i == 0 || cs[i - 1] == '/') {
            if i + 1 == n || cs[i + 1] == '/' {
                dot_segment = true;
            } else if cs[i + 1] == '.' && (i + 2 == n || cs[i + 2] == '/') {
                dot_segment = true;
            }
        }
        if is_forbidden_char(c) {
            forbidden = true;
        }
        proof {
            assert(double_slash_at(s, i as int) == (c == '/' && i + 1 < n && s[i + 1] == '/'));
            if !blank {
                if is_white_space(c) {
                    let t = choose|t: int| 0 <= t < i && !is_white_space(#[trigger] s[t]);
                }
            }
            assert forall|t: int| #[trigger] double_slash_at(s, t) && t < i + 1 implies double_slash || t >= i + 1 by {
                if t == i {
                } else {
                    assert(t < i);
                }
            }
            assert(dot_segment_at(s, i as int) == (c == '.' && (i == 0 || s[i - 1] == '/') && ((i + 1 == n || s[i + 1] == '/') || (i + 1 < n && s[i + 1] == '.' && (i + 2 == n || s[i + 2] == '/')))));
            assert(dot_segment == (was_dot || dot_segment_at(s, i as int)));
            assert(double_slash == (was_double || double_slash_at(s, i as int)));
            if dot_segment && !was_dot {
                assert(dot_segment_at(s, i as int));
            }
            if double_slash && !was_double {
                assert(double_slash_at(s, i as int));
            }
        }
        i = i + 1;
    }
    proof {
        assert(s.contains('/') == slash) by {
            if s.contains('/') {
                let t = choose|t: int| 0 <= t < s.len() && s[t] == '/';
                assert(s[t] == '/');
            }
        }
        assert((forall|t: int| !#[trigger] double_slash_at(s, t)) == !double_slash);
        assert((forall|t: int| !#[trigger] dot_segment_at(s, t)) == !dot_segment);
        assert((forall|t: int| 0 <= t < s.len() ==> !forbidden_char(#[trigger] s[t])) == !forbidden);
    }
    if blank || forbidden {
        return false;
    }
    if slash {
        if cs[0] == '/' || cs[n - 1] == '/' || double_slash || dot_segment {
            return false;
        }
    }
    true
}

/// The `i`-th candidate for a unique name: the name with a number after it.
pub open spec fn numbered_name(name: Seq<char>, i: nat) -> Seq<char> {
    name + decimal(i)
}

/// Whether `r` is the name that a taken `name` becomes: the trimmed name if
/// it is free, else the name followed by the least number from two on that
/// makes it free.
pub open spec fn is_unique_flow_name(taken: Set<Seq<char>>, name: Seq<char>, r: Seq<char>) -> bool {
    if !taken.contains(trim(name)) {
        r == trim(name)
    } else {
        exists|i: nat|
            i >= 2 && r == numbered_name(name, i) && !taken.contains(r) && forall|j: nat|
                2 <= j < i ==> taken.contains(#[trigger] numbered_name(name, j))
    }
}

/// The keys of a map described by `n` entries are at most `n`.
pub proof fn lemma_keys_bounded<V>(ps: Seq<(Seq<char>, V)>)
    ensures
        pairs_to_map(ps).dom().finite(),
        pairs_to_map(ps).dom().len() <= ps.len(),
    decreases ps.len(),
{
    if ps.len() > 0 {
        lemma_keys_bounded(ps.drop_last());
        assert(pairs_to_map(ps).dom() =~= pairs_to_map(ps.drop_last()).dom().insert(ps.last().0));
    } else {
        assert(pairs_to_map(ps).dom() =~= Set::<Seq<char>>::empty());
    }
}

/// If all numbered names from two up to `i` are taken, there are at least
/// `i - 2` taken names.
pub proof fn lemma_numbered_names_taken(taken: Set<Seq<char>>, name: Seq<char>, i: nat)
    requires
        taken.finite(),
        i >= 2,
        forall|j: nat| 2 <= j < i ==> taken.contains(#[trigger] numbered_name(name, j)),
    ensures
        i - 2 <= taken.len(),
{
    let range = set_int_range(2, i as int);
    let f = |j: int| numbered_name(name, j as nat);
    lemma_int_range(2, i as int);
    assert forall|a: int, b: int| range.contains(a) && range.contains(b) && #[trigger] f(a) == #[trigger] f(b) implies a == b by {
        assert(decimal(a as nat) =~= f(a).subrange(name.len() as int, f(a).len() as int));
        assert(decimal(b as nat) =~= f(b).subrange(name.len() as int, f(b).len() as int));
        lemma_decimal_injective(a as nat, b as nat);
    }
    let image = range.map(f);
    lemma_map_size(range, image, f);
    assert forall|s: Seq<char>| image.contains(s) implies taken.contains(s) by {
        let j = choose|j: int| range.contains(j) && f(j) == s;
        assert(taken.contains(numbered_name(name, j as nat)));
    }
    lemma_len_subset(image, taken);
}

} // verus!

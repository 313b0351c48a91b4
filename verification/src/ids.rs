//! Identifier counters and the decimal form of counter values.

use crate::text::string_from_chars;
use vstd::prelude::*;

verus! {

/// The character of a decimal digit.
pub open spec fn digit_char(d: int) -> char {
    if d == 0 {
        '0'
    } else if d == 1 {
        '1'
    } else if d == 2 {
        '2'
    } else if d == 3 {
        '3'
    } else if d == 4 {
        '4'
    } else if d == 5 {
        '5'
    } else if d == 6 {
        '6'
    } else if d == 7 {
        '7'
    } else if d == 8 {
        '8'
    } else {
        '9'
    }
}

/// The decimal digits of `n`, most significant first, without leading zeros.
pub open spec fn decimal(n: nat) -> Seq<char>
    decreases n,
{
    if n < 10 {
        seq![digit_char(n as int)]
    } else {
        decimal(n / 10).push(digit_char((n % 10) as int))
    }
}

/// Numbers from ten on have at least two digits; smaller ones have one.
pub proof fn lemma_decimal_len(n: nat)
    ensures
        decimal(n).len() >= 1,
        n < 10 ==> decimal(n).len() == 1,
        n >= 10 ==> decimal(n).len() >= 2,
    decreases n,
{
    if n >= 10 {
        lemma_decimal_len(n / 10);
    }
}

/// Different numbers have different decimal forms.
pub proof fn lemma_decimal_injective(a: nat, b: nat)
    requires
        decimal(a) == decimal(b),
    ensures
        a == b,
    decreases a,
{
    lemma_decimal_len(a);
    lemma_decimal_len(b);
    if a < 10 && b < 10 {
        assert(decimal(a)[0] == digit_char(a as int));
        assert(decimal(b)[0] == digit_char(b as int));
        assert(digit_char(a as int) == digit_char(b as int));
    } else if a >= 10 && b >= 10 {
        let da = decimal(a);
        let db = decimal(b);
        assert(da.last() == db.last());
        assert(digit_char((a % 10) as int) == digit_char((b % 10) as int));
        assert(a % 10 == b % 10);
        assert(da.drop_last() =~= decimal(a / 10));
        assert(db.drop_last() =~= decimal(b / 10));
        lemma_decimal_injective(a / 10, b / 10);
        assert(a / 10 == b / 10);
        assert(a == (a / 10) * 10 + a % 10);
        assert(b == (b / 10) * 10 + b % 10);
    }
}

/// The character of the digit `d`.
fn digit(d: usize) -> (r: char)
    requires
        d < 10,
    ensures
        r == digit_char(d as int),
{
    match d {
        0 => '0',
        1 => '1',
        2 => '2',
        3 => '3',
        4 => '4',
        5 => '5',
        6 => '6',
        7 => '7',
        8 => '8',
        _ => '9',
    }
}

/// The decimal form of `n`.
pub fn decimal_string(n: u128) -> (r: String)
    ensures
        r@ == decimal(n as nat),
{
    let mut m: u128 = n;
    let mut low: Vec<char> = Vec::new();
    while m >= 10
        invariant
            decimal(n as nat) == decimal(m as nat) + low@.reverse(),
        decreases m,
    {
        let d = digit((m % 10) as usize);
        proof {
            let dm = decimal(m as nat);
            assert(dm == decimal((m / 10) as nat).push(d));
            assert(low@.push(d).reverse() =~= seq![d] + low@.reverse());
            assert(dm + low@.reverse() =~= decimal((m / 10) as nat) + low@.push(d).reverse());
        }
        low.push(d);
        m = m / 10;
    }
    let mut out: Vec<char> = Vec::new();
    out.push(digit(m as usize));
    let mut i: usize = low.len();
    while i > 0
        invariant
            i <= low@.len(),
            out@ == decimal(m as nat) + low@.subrange(i as int, low@.len() as int).reverse(),
        decreases i,
    {
        i = i - 1;
        proof {
            let tail = low@.subrange(i as int, low@.len() as int);
            let rest = low@.subrange(i + 1, low@.len() as int);
            assert(tail =~= seq![low@[i as int]] + rest);
            assert(tail.reverse() =~= rest.reverse().push(low@[i as int]));
        }
        out.push(low[i]);
    }
    assert(low@.subrange(0, low@.len() as int) =~= low@);
    string_from_chars(&out)
}

/// The value that follows `n` in a counter that wraps around to zero.
pub open spec fn successor(n: usize) -> usize {
    if n == usize::MAX {
        0
    } else {
        (n + 1) as usize
    }
}

/// A counter that hands out identifiers, one after the other, from one on.
#[derive(Debug)]
pub struct IdCounter {
    next: usize,
}

impl IdCounter {
    /// The identifier that the next call hands out.
    pub closed spec fn upcoming(self) -> usize {
        self.next
    }

    /// A counter whose first identifier is one.
    pub fn new() -> (r: Self)
        ensures
            r.upcoming() == 1,
    {
        IdCounter { next: 1 }
    }

    /// Hands out the upcoming identifier and moves on to the next one,
    /// wrapping around after the largest `usize`.
    pub fn fetch_next(&mut self) -> (r: usize)
        ensures
            r == old(self).upcoming(),
            final(self).upcoming() == successor(old(self).upcoming()),
    {
        let r = self.next;
        if self.next == usize::MAX {
            self.next = 0;
        } else {
            self.next = self.next + 1;
        }
        r
    }
}

/// The counter's value after `k` identifiers were handed out from `c`.
pub open spec fn advance(c: usize, k: nat) -> usize
    decreases k,
{
    if k == 0 {
        c
    } else {
        successor(advance(c, (k - 1) as nat))
    }
}

/// Handing out `k` identifiers from `c` without reaching the largest `usize`
/// counts up by `k`.
pub proof fn lemma_advance(c: usize, k: nat)
    requires
        c + k <= usize::MAX,
    ensures
        advance(c, k) == c + k,
    decreases k,
{
    if k > 0 {
        lemma_advance(c, (k - 1) as nat);
    }
}

/// Identifiers handed out one after the other from a counter at `c`
/// strictly increase, and so never repeat, as long as the counter does not
/// run past the largest `usize`; where the counter starts at one or more
/// (as a new counter does), none of them is zero.
pub proof fn lemma_ids_strictly_increase(c: usize, i: nat, j: nat)
    requires
        i < j,
        c + j <= usize::MAX,
    ensures
        advance(c, i) < advance(c, j),
        advance(c, i) == c + i,
        c >= 1 ==> advance(c, i) >= 1,
{
    lemma_advance(c, i);
    lemma_advance(c, j);
}

} // verus!

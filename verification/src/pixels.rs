//! Tests on the raw pixel bytes of images: whether an image is blank, and
//! whether two images differ.

use vstd::prelude::*;

verus! {

/// How many of the bytes are at least `t`.
pub open spec fn count_at_least(p: Seq<u8>, t: u8) -> nat
    decreases p.len(),
{
    if p.len() == 0 {
        0
    } else {
        count_at_least(p.drop_last(), t) + if p.last() >= t {
            1nat
        } else {
            0nat
        }
    }
}

/// Whether an image is blank: it has no bytes, or fewer than `limit` of
/// them are at least `t`.
pub open spec fn blank(p: Seq<u8>, t: u8, limit: u32) -> bool {
    p.len() == 0 || count_at_least(p, t) < limit
}

/// A longer prefix has at least as many bytes at or above `t`.
proof fn lemma_count_at_least_grows(p: Seq<u8>, t: u8, i: int, j: int)
    requires
        0 <= i <= j <= p.len(),
    ensures
        count_at_least(p.take(i), t) <= count_at_least(p.take(j), t),
    decreases j - i,
{
    if i < j {
        lemma_count_at_least_grows(p, t, i, j - 1);
        assert(p.take(j).drop_last() =~= p.take(j - 1));
    }
}

/// Whether the pixel bytes of an image are blank, as `blank` says: the
/// bytes are counted from the first, and the image is not blank as soon as
/// `blank_threshold` of them are at least `almost_black_threshold`.
pub fn is_blank(pixels: &Vec<u8>, almost_black_threshold: u8, blank_threshold: u32) -> (r: bool)
    ensures
        r == blank(pixels@, almost_black_threshold, blank_threshold),
{
    let ghost p = pixels@;
    let ghost t = almost_black_threshold;
    let mut count: u32 = 0;
    let mut i: usize = 0;
    assert(p.take(0) =~= Seq::<u8>::empty());
    while i < pixels.len()
        invariant
            p == pixels@,
            t == almost_black_threshold,
            i <= p.len(),
            count == count_at_least(p.take(i as int), t),
            i == 0 ==> count == 0,
            i > 0 ==> count < blank_threshold,
        decreases pixels.len() - i,
    {
        assert(p.take(i + 1).drop_last() =~= p.take(i as int));
        assert(p.take(i + 1).last() == p[i as int]);
        if pixels[i] >= almost_black_threshold {
            count = count + 1;
        }
        if count >= blank_threshold {
            proof {
                lemma_count_at_least_grows(p, t, i + 1, p.len() as int);
                assert(p.take(p.len() as int) =~= p);
            }
            return false;
        }
        i = i + 1;
    }
    assert(p.take(p.len() as int) =~= p);
    true
}

/// How many positions the two byte sequences differ at, up to the length of
/// the first.
pub open spec fn count_diff(a: Seq<u8>, b: Seq<u8>) -> nat
    decreases a.len(),
{
    if a.len() == 0 {
        0
    } else {
        count_diff(a.drop_last(), b.take(a.len() - 1)) + if a.last() != b[a.len() - 1] {
            1nat
        } else {
            0nat
        }
    }
}

/// Whether two images differ: their byte counts differ, or they differ at
/// more than `limit` positions.
pub open spec fn differ(a: Seq<u8>, b: Seq<u8>, limit: usize) -> bool {
    a.len() != b.len() || count_diff(a, b) > limit
}

/// A longer prefix differs at least as often.
proof fn lemma_count_diff_grows(a: Seq<u8>, b: Seq<u8>, i: int, j: int)
    requires
        0 <= i <= j <= a.len(),
        a.len() == b.len(),
    ensures
        count_diff(a.take(i), b.take(i)) <= count_diff(a.take(j), b.take(j)),
    decreases j - i,
{
    if i < j {
        lemma_count_diff_grows(a, b, i, j - 1);
        assert(a.take(j).drop_last() =~= a.take(j - 1));
        assert(b.take(j).take(j - 1) =~= b.take(j - 1));
    }
}

/// Whether the pixel bytes of two images differ, as `differ` says: the
/// positions are compared from the first, and the images differ as soon as
/// more than `diff_threshold` positions differ.
pub fn images_are_different(pixels1: &Vec<u8>, pixels2: &Vec<u8>, diff_threshold: usize) -> (r: bool)
    ensures
        r == differ(pixels1@, pixels2@, diff_threshold),
{
    if pixels1.len() != pixels2.len() {
        return true;
    }
    let ghost a = pixels1@;
    let ghost b = pixels2@;
    let mut diff_count: usize = 0;
    let mut i: usize = 0;
    assert(a.take(0) =~= Seq::<u8>::empty());
    while i < pixels1.len()
        invariant
            a == pixels1@,
            b == pixels2@,
            a.len() == b.len(),
            i <= a.len(),
            diff_count <= i,
            diff_count == count_diff(a.take(i as int), b.take(i as int)),
            diff_count <= diff_threshold,
        decreases pixels1.len() - i,
    {
        assert(a.take(i + 1).drop_last() =~= a.take(i as int));
        assert(b.take(i + 1).take(i as int) =~= b.take(i as int));
        assert(a.take(i + 1).last() == a[i as int]);
        assert(b.take(i + 1)[i as int] == b[i as int]);
        if pixels1[i] != pixels2[i] {
            diff_count = diff_count + 1;
        }
        if diff_count > diff_threshold {
            proof {
                lemma_count_diff_grows(a, b, i + 1, a.len() as int);
                assert(a.take(a.len() as int) =~= a);
                assert(b.take(b.len() as int) =~= b);
            }
            return true;
        }
        i = i + 1;
    }
    assert(a.take(a.len() as int) =~= a);
    assert(b.take(b.len() as int) =~= b);
    false
}

/// An image does not differ from itself.
pub proof fn lemma_same_image_unchanged(p: Seq<u8>, limit: usize)
    ensures
        !differ(p, p, limit),
    decreases p.len(),
{
    if p.len() > 0 {
        lemma_same_image_unchanged(p.drop_last(), limit);
        assert(p.take(p.len() - 1) =~= p.drop_last());
    }
}

} // verus!

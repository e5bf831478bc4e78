use vstd::prelude::*;

use crate::dist::{dist_le, Dist};

verus! {

/// `x` placed into `s` behind every element whose distance is at most the
/// distance of `x`: the stable insertion step of the sort.
pub open spec fn spec_insert(x: (Dist, u8), s: Seq<(Dist, u8)>) -> Seq<(Dist, u8)>
    decreases s.len(),
{
    if s.len() == 0 {
        seq![x]
    } else if dist_le(s[0].0, x.0) {
        seq![s[0]] + spec_insert(x, s.drop_first())
    } else {
        seq![x] + s
    }
}

/// Stable insertion sort of distance/label pairs, ascending by distance.
pub open spec fn spec_sort(s: Seq<(Dist, u8)>) -> Seq<(Dist, u8)>
    decreases s.len(),
{
    if s.len() == 0 {
        Seq::empty()
    } else {
        spec_insert(s.last(), spec_sort(s.drop_last()))
    }
}

/// Every pair of positions is in ascending distance order.
pub open spec fn sorted_by_dist(s: Seq<(Dist, u8)>) -> bool {
    forall|i: int, j: int| 0 <= i < j < s.len() ==> dist_le(s[i].0, s[j].0)
}

/// Every distance in `s` has a positive denominator.
pub open spec fn all_pos_den(s: Seq<(Dist, u8)>) -> bool {
    forall|i: int| 0 <= i < s.len() ==> s[i].0.den > 0
}

proof fn lemma_insert_at(x: (Dist, u8), s: Seq<(Dist, u8)>, j: int)
    requires
        0 <= j <= s.len(),
        forall|t: int| 0 <= t < j ==> dist_le(s[t].0, x.0),
        j < s.len() ==> !dist_le(s[j].0, x.0),
    ensures
        spec_insert(x, s) == s.take(j) + seq![x] + s.skip(j),
    decreases j,
{
    if j == 0 {
        if s.len() == 0 {
            assert(spec_insert(x, s) =~= s.take(0) + seq![x] + s.skip(0));
        } else {
            assert(!dist_le(s[0].0, x.0));
            assert(spec_insert(x, s) =~= s.take(0) + seq![x] + s.skip(0));
        }
    } else {
        assert(dist_le(s[0].0, x.0));
        lemma_insert_at(x, s.drop_first(), j - 1);
        assert(spec_insert(x, s) =~= s.take(j) + seq![x] + s.skip(j));
    }
}

fn find_pos(v: &Vec<(Dist, u8)>, x: &(Dist, u8)) -> (j: usize)
    ensures
        j <= v@.len(),
        forall|t: int| 0 <= t < j ==> dist_le(v@[t].0, x.0),
        j < v@.len() ==> !dist_le(v@[j as int].0, x.0),
{
    let mut j: usize = 0;
    while j < v.len()
        invariant
            j <= v@.len(),
            forall|t: int| 0 <= t < j ==> dist_le(v@[t].0, x.0),
        decreases v@.len() - j,
    {
        if !v[j].0.le(&x.0) {
            return j;
        }
        j += 1;
    }
    j
}

fn insert_pair(v: Vec<(Dist, u8)>, x: (Dist, u8)) -> (r: Vec<(Dist, u8)>)
    ensures
        r@ == spec_insert(x, v@),
{
    let ghost orig = v@;
    let j = find_pos(&v, &x);
    let mut out = v;
    out.insert(j, x);
    proof {
        lemma_insert_at(x, orig, j as int);
        assert(orig.insert(j as int, x) =~= orig.take(j as int) + seq![x] + orig.skip(j as int));
    }
    out
}

/// Sorts the distance/label pairs ascending by distance, stably: the result
/// is exactly the insertion sort of the input.
pub fn sort_pairs(v: Vec<(Dist, u8)>) -> (r: Vec<(Dist, u8)>)
    ensures
        r@ == spec_sort(v@),
{
    let ghost orig = v@;
    let mut out: Vec<(Dist, u8)> = Vec::new();
    let mut i: usize = 0;
    while i < v.len()
        invariant
            i <= orig.len(),
            v@ == orig,
            out@ == spec_sort(orig.take(i as int)),
        decreases orig.len() - i,
    {
        proof {
            assert(orig.take(i + 1).drop_last() =~= orig.take(i as int));
            assert(orig.take(i + 1).last() == orig[i as int]);
        }
        out = insert_pair(out, v[i]);
        i += 1;
    }
    proof {
        assert(orig.take(orig.len() as int) =~= orig);
    }
    out
}

/// Inserting one pair grows the sequence by exactly one element.
pub proof fn lemma_insert_len(x: (Dist, u8), s: Seq<(Dist, u8)>)
    ensures
        spec_insert(x, s).len() == s.len() + 1,
    decreases s.len(),
{
    if s.len() > 0 && dist_le(s[0].0, x.0) {
        lemma_insert_len(x, s.drop_first());
    }
}

proof fn lemma_insert_elems(x: (Dist, u8), s: Seq<(Dist, u8)>)
    ensures
        spec_insert(x, s).len() == s.len() + 1,
        forall|i: int|
            0 <= i < spec_insert(x, s).len() ==> (spec_insert(x, s)[i] == x || s.contains(
                spec_insert(x, s)[i],
            )),
    decreases s.len(),
{
    if s.len() == 0 {
    } else if dist_le(s[0].0, x.0) {
        lemma_insert_elems(x, s.drop_first());
        assert forall|i: int| 0 <= i < spec_insert(x, s).len() implies (spec_insert(x, s)[i] == x
            || s.contains(spec_insert(x, s)[i])) by {
            if i == 0 {
                assert(s.contains(s[0]));
            } else {
                let inner = spec_insert(x, s.drop_first());
                assert(spec_insert(x, s)[i] == inner[i - 1]);
                if inner[i - 1] != x {
                    let t = choose|t: int| 0 <= t < s.drop_first().len() && s.drop_first()[t]
                        == inner[i - 1];
                    assert(s[t + 1] == inner[i - 1]);
                }
            }
        }
    } else {
        assert forall|i: int| 0 <= i < spec_insert(x, s).len() implies (spec_insert(x, s)[i] == x
            || s.contains(spec_insert(x, s)[i])) by {
            if i > 0 {
                assert(spec_insert(x, s)[i] == s[i - 1]);
            }
        }
    }
}

proof fn lemma_insert_keeps_sorted(x: (Dist, u8), s: Seq<(Dist, u8)>)
    requires
        sorted_by_dist(s),
        all_pos_den(s),
        x.0.den > 0,
    ensures
        sorted_by_dist(spec_insert(x, s)),
    decreases s.len(),
{
    if s.len() == 0 {
    } else if dist_le(s[0].0, x.0) {
        lemma_insert_keeps_sorted(x, s.drop_first());
        lemma_insert_elems(x, s.drop_first());
        let r = spec_insert(x, s);
        let inner = spec_insert(x, s.drop_first());
        assert forall|i: int, j: int| 0 <= i < j < r.len() implies dist_le(r[i].0, r[j].0) by {
            if i == 0 {
                assert(r[j] == inner[j - 1]);
                if inner[j - 1] == x {
                } else {
                    let t = choose|t: int| 0 <= t < s.drop_first().len() && s.drop_first()[t]
                        == inner[j - 1];
                    assert(s[t + 1] == inner[j - 1]);
                    assert(dist_le(s[0].0, s[t + 1].0));
                }
            } else {
                assert(r[i] == inner[i - 1] && r[j] == inner[j - 1]);
            }
        }
    } else {
        let r = spec_insert(x, s);
        assert forall|i: int, j: int| 0 <= i < j < r.len() implies dist_le(r[i].0, r[j].0) by {
            if i == 0 {
                assert(r[j] == s[j - 1]);
                if j == 1 {
                    crate::dist::lemma_dist_le_total(x.0, s[0].0);
                } else {
                    crate::dist::lemma_dist_le_total(x.0, s[0].0);
                    crate::dist::lemma_dist_le_trans(x.0, s[0].0, s[j - 1].0);
                }
            } else {
                assert(r[i] == s[i - 1] && r[j] == s[j - 1]);
            }
        }
    }
}

/// The sort really sorts: whenever every distance has a positive
/// denominator, the sorted sequence is ascending by distance at every pair
/// of positions.
pub proof fn lemma_sort_sorted(s: Seq<(Dist, u8)>)
    requires
        all_pos_den(s),
    ensures
        sorted_by_dist(spec_sort(s)),
    decreases s.len(),
{
    if s.len() > 0 {
        assert(all_pos_den(s.drop_last()));
        lemma_sort_sorted(s.drop_last());
        lemma_sort_all_pos_den(s.drop_last());
        lemma_insert_keeps_sorted(s.last(), spec_sort(s.drop_last()));
    }
}

proof fn lemma_sort_all_pos_den(s: Seq<(Dist, u8)>)
    requires
        all_pos_den(s),
    ensures
        all_pos_den(spec_sort(s)),
    decreases s.len(),
{
    if s.len() > 0 {
        assert(all_pos_den(s.drop_last()));
        lemma_sort_all_pos_den(s.drop_last());
        lemma_insert_elems(s.last(), spec_sort(s.drop_last()));
        let r = spec_sort(s);
        let inner = spec_sort(s.drop_last());
        assert forall|i: int| 0 <= i < r.len() implies r[i].0.den > 0 by {
            if r[i] != s.last() {
                let t = choose|t: int| 0 <= t < inner.len() && inner[t] == r[i];
            }
        }
    }
}

} // verus!

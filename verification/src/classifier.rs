use vstd::prelude::*;

use crate::compress::{compress, compress_bytes, zlib_of};
use crate::dist::{spec_dist, Dist, MAX_LEN};
use crate::errors::ClassifyError;
use crate::klass::{klass_of_code, spec_klass_name, Klass};
use crate::ranking::{sort_pairs, spec_sort};
use crate::sample::Sample;

verus! {

/// The distance/label pair of the query against one sample: the compressed
/// length of the query, the cached compressed length of the sample, and the
/// compressed length of their concatenation, combined into the NCD.
pub open spec fn spec_pair(query: Seq<u8>, s: Sample) -> (Dist, u8) {
    (
        spec_dist(
            zlib_of(query).len() as int,
            s.text@.len() as int,
            zlib_of(query + s.original@).len() as int,
        ),
        s.klass,
    )
}

/// The distance/label pairs of the query against every sample, in store
/// order.
pub open spec fn spec_pairs(query: Seq<u8>, samples: Seq<Sample>) -> Seq<(Dist, u8)> {
    Seq::new(samples.len(), |i: int| spec_pair(query, samples[i]))
}

/// A compressed length of this sample, against this query, is beyond
/// `MAX_LEN`.
pub open spec fn spec_sample_oversize(query: Seq<u8>, s: Sample) -> bool {
    s.text@.len() > MAX_LEN || zlib_of(query + s.original@).len() > MAX_LEN
}

/// Some compressed length of this classification call is beyond `MAX_LEN`.
pub open spec fn spec_oversize(query: Seq<u8>, samples: Seq<Sample>) -> bool {
    zlib_of(query).len() > MAX_LEN || exists|i: int|
        0 <= i < samples.len() && spec_sample_oversize(query, samples[i])
}

/// The number of pairs among `s` that carry the label `c`.
pub open spec fn count_label(s: Seq<(Dist, u8)>, c: u8) -> int
    decreases s.len(),
{
    if s.len() == 0 {
        0
    } else {
        count_label(s.drop_last(), c) + if s.last().1 == c {
            1int
        } else {
            0int
        }
    }
}

/// The per-code frequency histogram of the `k` closest pairs (all of them
/// when fewer than `k` exist), over the known codes `0..5`.
pub open spec fn spec_freq(s: Seq<(Dist, u8)>, k: int) -> Seq<i32> {
    Seq::new(5, |c: int| count_label(s.take(vstd::math::min(k, s.len() as int)), c as u8) as i32)
}

/// The running maximum and its index after scanning the first `n` counts
/// with a strict-greater-than rule, starting from a maximum of zero at index
/// zero: a later count equal to the leader never takes over.
pub open spec fn spec_best(s: Seq<i32>, n: int) -> (int, int)
    decreases n,
{
    if n <= 0 {
        (0, 0)
    } else {
        let prev = spec_best(s, n - 1);
        if s[n - 1] > prev.0 {
            (s[n - 1] as int, n - 1)
        } else {
            prev
        }
    }
}

/// The category code that a classification of `query` against `samples`
/// yields with vote size `k`: rank all pairs by distance, count the labels of
/// the `k` closest, and take the first code with the strictly highest count.
pub open spec fn spec_klassify_code(query: Seq<u8>, samples: Seq<Sample>, k: int) -> int {
    spec_best(spec_freq(spec_sort(spec_pairs(query, samples)), k), 5).1
}

/// The display name that a classification of `query` yields.
pub open spec fn spec_klassify_name(query: Seq<u8>, samples: Seq<Sample>, k: int) -> Seq<char> {
    spec_klass_name(klass_of_code(spec_klassify_code(query, samples, k)))
}

/// Normalized compression distance between a query and a stored sample,
/// as the exact rational `(cx1x2 - min(cx1, cx2)) / max(cx1, cx2)`. The
/// query is compressed afresh; the sample contributes its cached compressed
/// length.
pub fn ncd(query: &Vec<u8>, sample: &Sample) -> (r: Result<Dist, ClassifyError>)
    ensures
        r is Ok <==> zlib_of(query@).len() <= MAX_LEN && !spec_sample_oversize(query@, *sample),
        r matches Ok(d) ==> d == spec_pair(query@, *sample).0,
        r matches Ok(d) ==> d.den >= 1,
{
    let cq = match compress(query) {
        Ok(v) => v,
        Err(_) => {
            return Err(ClassifyError::Compression);
        },
    };
    let cx1 = cq.len();
    if cx1 > MAX_LEN {
        return Err(ClassifyError::Oversize);
    }
    let cx2 = sample.text.len();
    if cx2 > MAX_LEN {
        return Err(ClassifyError::Oversize);
    }
    let cx1x2 = match compress_bytes(query, &sample.original) {
        Ok(n) => n,
        Err(_) => {
            return Err(ClassifyError::Compression);
        },
    };
    if cx1x2 > MAX_LEN {
        return Err(ClassifyError::Oversize);
    }
    Ok(Dist::new(cx1, cx2, cx1x2))
}

/// The frequency histogram over the known category codes `0..5` of the
/// labels among the first `k` entries of the ranked pairs; labels outside
/// the known codes fall in no bucket. When fewer than `k` entries exist, all
/// of them are counted.
pub fn compute_klass_freq(min_heap: &Vec<(Dist, u8)>, k: usize) -> (r: [i32; 5])
    requires
        k <= 0x7fff_ffff || min_heap@.len() <= 0x7fff_ffff,
    ensures
        r@ == spec_freq(min_heap@, k as int),
{
    let n: usize = if k < min_heap.len() {
        k
    } else {
        min_heap.len()
    };
    let mut c0: i32 = 0;
    let mut c1: i32 = 0;
    let mut c2: i32 = 0;
    let mut c3: i32 = 0;
    let mut c4: i32 = 0;
    let mut i: usize = 0;
    while i < n
        invariant
            i <= n,
            n == vstd::math::min(k as int, min_heap@.len() as int),
            n <= 0x7fff_ffff,
            c0 == count_label(min_heap@.take(i as int), 0u8),
            c1 == count_label(min_heap@.take(i as int), 1u8),
            c2 == count_label(min_heap@.take(i as int), 2u8),
            c3 == count_label(min_heap@.take(i as int), 3u8),
            c4 == count_label(min_heap@.take(i as int), 4u8),
            0 <= c0 <= i,
            0 <= c1 <= i,
            0 <= c2 <= i,
            0 <= c3 <= i,
            0 <= c4 <= i,
        decreases n - i,
    {
        proof {
            assert(min_heap@.take(i + 1).drop_last() =~= min_heap@.take(i as int));
            assert(min_heap@.take(i + 1).last() == min_heap@[i as int]);
        }
        let label = min_heap[i].1;
        if label == 0 {
            c0 += 1;
        } else if label == 1 {
            c1 += 1;
        } else if label == 2 {
            c2 += 1;
        } else if label == 3 {
            c3 += 1;
        } else if label == 4 {
            c4 += 1;
        }
        i += 1;
    }
    let r = [c0, c1, c2, c3, c4];
    proof {
        assert(r@ =~= spec_freq(min_heap@, k as int));
    }
    r
}

/// The code with the strictly highest count, scanning the candidate codes in
/// increasing order: a later code with a count equal to the leader never
/// takes over, and when every count is zero or below, the result is code 0.
pub fn get_max_freq_klass(klass_freq: &mut [i32; 5]) -> (r: usize)
    ensures
        *final(klass_freq) == *old(klass_freq),
        r as int == spec_best(old(klass_freq)@, 5).1,
{
    let mut mx: i32 = 0;
    let mut idx: usize = 0;
    let mut i: usize = 0;
    while i < 5
        invariant
            *klass_freq == *old(klass_freq),
            i <= 5,
            idx <= 4,
            (mx as int, idx as int) == spec_best(klass_freq@, i as int),
        decreases 5 - i,
    {
        if klass_freq[i] > mx {
            mx = klass_freq[i];
            idx = i;
        }
        i += 1;
    }
    idx
}

/// The vote picks the first maximum: the winning index carries the running
/// maximum of the counts, every count is at most that maximum, every count
/// before the winner is strictly below it, and when no count is positive the
/// winner is index 0.
pub proof fn lemma_best_is_first_max(s: Seq<i32>, n: int)
    requires
        0 <= n <= s.len(),
    ensures
        spec_best(s, n).0 >= 0,
        0 <= spec_best(s, n).1 < vstd::math::max(n, 1),
        forall|j: int| 0 <= j < n ==> s[j] <= spec_best(s, n).0,
        forall|j: int| 0 <= j < spec_best(s, n).1 ==> s[j] < spec_best(s, n).0,
        spec_best(s, n).0 > 0 ==> spec_best(s, n).1 < n && s[spec_best(s, n).1] == spec_best(
            s,
            n,
        ).0,
        spec_best(s, n).0 == 0 ==> spec_best(s, n).1 == 0,
    decreases n,
{
    if n > 0 {
        lemma_best_is_first_max(s, n - 1);
    }
}

proof fn lemma_sort_len(s: Seq<(Dist, u8)>)
    ensures
        spec_sort(s).len() == s.len(),
    decreases s.len(),
{
    if s.len() > 0 {
        lemma_sort_len(s.drop_last());
        crate::ranking::lemma_insert_len(s.last(), spec_sort(s.drop_last()));
    }
}

/// Classification is deterministic: two results for the same query, store
/// and vote size agree, whether the calls run one after the other or in
/// parallel, because a successful result is a function of the query and the
/// frozen store alone.
pub proof fn lemma_klassify_deterministic(
    query: Seq<u8>,
    samples: Seq<Sample>,
    k: int,
    r1: Seq<char>,
    r2: Seq<char>,
)
    requires
        r1 == spec_klassify_name(query, samples, k),
        r2 == spec_klassify_name(query, samples, k),
    ensures
        r1 == r2,
{
}

/// An undersized store is no error: when the store holds at most `k`
/// samples, the vote counts every ranked pair, exactly as if `k` equaled
/// the store size.
pub proof fn lemma_undersized_store_counts_all(s: Seq<(Dist, u8)>, k: int)
    requires
        k >= s.len(),
    ensures
        spec_freq(s, k) == spec_freq(s, s.len() as int),
{
    assert(spec_freq(s, k) =~= spec_freq(s, s.len() as int));
}

/// An empty store classifies every query to the sentinel: with no samples
/// every count is zero, the winning code is 0, and the display name is
/// "Invalid" — a defined outcome, not an error.
pub proof fn lemma_empty_store_is_invalid(query: Seq<u8>, k: int)
    requires
        k >= 0,
    ensures
        spec_klassify_name(query, Seq::<Sample>::empty(), k) == "Invalid"@,
{
    let pairs = spec_pairs(query, Seq::<Sample>::empty());
    assert(pairs =~= Seq::<(Dist, u8)>::empty());
    let f = spec_freq(spec_sort(pairs), k);
    assert(spec_sort(pairs).take(0) =~= Seq::<(Dist, u8)>::empty());
    assert(forall|c: int| 0 <= c < 5 ==> f[c] == 0i32);
    assert(spec_best(f, 0) == (0int, 0int));
    assert(spec_best(f, 1) == (0int, 0int));
    assert(spec_best(f, 2) == (0int, 0int));
    assert(spec_best(f, 3) == (0int, 0int));
    assert(spec_best(f, 4) == (0int, 0int));
    assert(spec_best(f, 5) == (0int, 0int));
}

/// Classifies a query against a frozen sample store: computes the NCD of the
/// query against every sample, ranks the pairs ascending by distance, lets
/// the `k` closest labels vote, and returns the display name of the winning
/// category. The result on success is a pure function of the query and the
/// store, so repeated and concurrent calls agree.
pub fn klassify_text(body: &Vec<u8>, samples: &Vec<Sample>, k: usize) -> (r: Result<
    String,
    ClassifyError,
>)
    requires
        k <= 0x7fff_ffff || samples@.len() <= 0x7fff_ffff,
    ensures
        r is Ok <==> !spec_oversize(body@, samples@),
        r matches Ok(name) ==> name@ == spec_klassify_name(body@, samples@, k as int),
{
    let cq = match compress(body) {
        Ok(v) => v,
        Err(_) => {
            return Err(ClassifyError::Compression);
        },
    };
    let cx1 = cq.len();
    if cx1 > MAX_LEN {
        return Err(ClassifyError::Oversize);
    }
    let mut pairs: Vec<(Dist, u8)> = Vec::new();
    let mut i: usize = 0;
    while i < samples.len()
        invariant
            i <= samples@.len(),
            cx1 == zlib_of(body@).len(),
            cx1 <= MAX_LEN,
            pairs@ == spec_pairs(body@, samples@.take(i as int)),
            forall|t: int| 0 <= t < i ==> !spec_sample_oversize(body@, samples@[t]),
        decreases samples@.len() - i,
    {
        let sample = &samples[i];
        let cx2 = sample.text.len();
        if cx2 > MAX_LEN {
            return Err(ClassifyError::Oversize);
        }
        let cx1x2 = match compress_bytes(body, &sample.original) {
            Ok(n) => n,
            Err(_) => {
                return Err(ClassifyError::Compression);
            },
        };
        if cx1x2 > MAX_LEN {
            return Err(ClassifyError::Oversize);
        }
        let d = Dist::new(cx1, cx2, cx1x2);
        pairs.push((d, sample.klass));
        proof {
            assert(pairs@ =~= spec_pairs(body@, samples@.take(i + 1)));
        }
        i += 1;
    }
    proof {
        assert(samples@.take(samples@.len() as int) =~= samples@);
    }
    let sorted = sort_pairs(pairs);
    proof {
        lemma_sort_len(spec_pairs(body@, samples@));
    }
    let mut freq = compute_klass_freq(&sorted, k);
    let idx = get_max_freq_klass(&mut freq);
    let winner = Klass::from(idx);
    Ok(winner.name())
}

} // verus!

use vstd::prelude::*;
use std::collections::HashMap;

verus! {

broadcast use vstd::std_specs::hash::group_hash_axioms;

/// How often `v` occurs in `s`.
pub open spec fn count_of(s: Seq<u32>, v: u32) -> nat
    decreases s.len(),
{
    if s.len() == 0 {
        0
    } else {
        count_of(s.drop_last(), v) + if s.last() == v { 1nat } else { 0nat }
    }
}

proof fn lemma_count_step(s: Seq<u32>, i: int, v: u32)
    requires
        0 <= i < s.len(),
    ensures
        count_of(s.subrange(0, i + 1), v) == count_of(s.subrange(0, i), v) + if s[i] == v { 1nat } else { 0nat },
{
    assert(s.subrange(0, i + 1).drop_last() =~= s.subrange(0, i));
}

proof fn lemma_count_bound(s: Seq<u32>, v: u32)
    ensures
        count_of(s, v) <= s.len(),
        s.contains(v) ==> count_of(s, v) > 0,
    decreases s.len(),
{
    if s.len() > 0 {
        lemma_count_bound(s.drop_last(), v);
        if s.contains(v) && s.last() != v {
            let i = choose|i: int| 0 <= i < s.len() && s[i] == v;
            assert(s.drop_last()[i] == v);
        }
    }
}

/// A value that occurs most often (the first such value in the input), or
/// `None` for an empty input.
pub fn mode(numbers: &Vec<u32>) -> (r: Option<u32>)
    ensures
        r is None <==> numbers@.len() == 0,
        r matches Some(m) ==> numbers@.contains(m),
        r matches Some(m) ==> forall|v: u32| count_of(numbers@, v) <= count_of(numbers@, m),
{
    let mut counts: HashMap<u32, usize> = HashMap::new();
    let mut i: usize = 0;
    while i < numbers.len()
        invariant
            i <= numbers.len(),
            forall|v: u32| #[trigger] counts@.contains_key(v) <==> numbers@.subrange(0, i as int).contains(v),
            forall|v: u32| counts@.contains_key(v) ==> counts@[v] == count_of(numbers@.subrange(0, i as int), v),
        decreases numbers.len() - i,
    {
        let v = numbers[i];
        let c: usize = match counts.get(&v) {
            Some(c) => *c,
            None => 0,
        };
        proof {
            lemma_count_step(numbers@, i as int, v);
            lemma_count_bound(numbers@.subrange(0, i as int), v);
            if !counts@.contains_key(v) {
                lemma_count_zero(numbers@.subrange(0, i as int), v);
            }
        }
        let ghost old_counts = counts@;
        counts.insert(v, c + 1);
        proof {
            assert forall|w: u32| #[trigger] counts@.contains_key(w) <==> numbers@.subrange(0, i + 1).contains(w) by {
                assert(numbers@.subrange(0, i + 1) =~= numbers@.subrange(0, i as int).push(v));
                let s0 = numbers@.subrange(0, i as int);
                let s1 = numbers@.subrange(0, i + 1);
                if s0.contains(w) {
                    let t = choose|t: int| 0 <= t < s0.len() && s0[t] == w;
                    assert(s1[t] == w);
                }
                if s1.contains(w) && w != v {
                    let t = choose|t: int| 0 <= t < s1.len() && s1[t] == w;
                    assert(s0[t] == w);
                }
            }
            assert forall|w: u32| counts@.contains_key(w) implies counts@[w] == count_of(numbers@.subrange(0, i + 1), w) by {
                lemma_count_step(numbers@, i as int, w);
                if w != v {
                    assert(old_counts.contains_key(w));
                }
            }
        }
        i = i + 1;
    }
    assert(numbers@.subrange(0, numbers.len() as int) =~= numbers@);
    let mut best: Option<u32> = None;
    let mut best_count: usize = 0;
    let mut j: usize = 0;
    while j < numbers.len()
        invariant
            j <= numbers.len(),
            forall|v: u32| #[trigger] counts@.contains_key(v) <==> numbers@.contains(v),
            forall|v: u32| counts@.contains_key(v) ==> counts@[v] == count_of(numbers@, v),
            j == 0 <==> best is None,
            best matches Some(m) ==> numbers@.contains(m) && best_count == count_of(numbers@, m),
            forall|t: int| 0 <= t < j ==> count_of(numbers@, #[trigger] numbers@[t]) <= best_count,
        decreases numbers.len() - j,
    {
        let v = numbers[j];
        assert(numbers@.contains(v));
        let c: usize = match counts.get(&v) {
            Some(c) => *c,
            None => 0,
        };
        if best.is_none() || c > best_count {
            best = Some(v);
            best_count = c;
        }
        j = j + 1;
    }
    proof {
        if let Some(m) = best {
            assert forall|v: u32| count_of(numbers@, v) <= count_of(numbers@, m) by {
                if numbers@.contains(v) {
                    let t = choose|t: int| 0 <= t < numbers@.len() && numbers@[t] == v;
                    assert(count_of(numbers@, numbers@[t]) <= best_count);
                } else {
                    lemma_count_bound(numbers@, v);
                    assert(count_of(numbers@, v) == 0) by {
                        lemma_count_zero(numbers@, v);
                    }
                }
            }
        }
    }
    best
}

proof fn lemma_count_zero(s: Seq<u32>, v: u32)
    requires
        !s.contains(v),
    ensures
        count_of(s, v) == 0,
    decreases s.len(),
{
    if s.len() > 0 {
        assert(!s.drop_last().contains(v)) by {
            if s.drop_last().contains(v) {
                let i = choose|i: int| 0 <= i < s.len() - 1 && s.drop_last()[i] == v;
                assert(s[i] == v);
            }
        }
        lemma_count_zero(s.drop_last(), v);
    }
}

} // verus!

use vstd::prelude::*;
use std::collections::HashMap;

verus! {

broadcast use vstd::std_specs::hash::group_hash_axioms;

/// Bucket key of a suffix: a wrapping polynomial over its digits.
pub open spec fn bucket_key(d: Seq<u8>) -> u64
    decreases d.len(),
{
    if d.len() == 0 {
        0
    } else {
        bucket_key(d.drop_last()).wrapping_mul(37).wrapping_add(d.last() as u64)
    }
}

fn compute_bucket_key(d: &Vec<u8>) -> (r: u64)
    ensures
        r == bucket_key(d@),
{
    let mut h: u64 = 0;
    let mut i: usize = 0;
    while i < d.len()
        invariant
            i <= d.len(),
            h == bucket_key(d@.subrange(0, i as int)),
        decreases d.len() - i,
    {
        assert(d@.subrange(0, i + 1).drop_last() =~= d@.subrange(0, i as int));
        h = h.wrapping_mul(37).wrapping_add(d[i] as u64);
        i = i + 1;
    }
    assert(d@.subrange(0, d.len() as int) =~= d@);
    h
}

fn same_digits(a: &Vec<u8>, b: &Vec<u8>) -> (r: bool)
    ensures
        r == (a@ == b@),
{
    if a.len() != b.len() {
        return false;
    }
    let mut i: usize = 0;
    while i < a.len()
        invariant
            i <= a.len(),
            a.len() == b.len(),
            forall|t: int| 0 <= t < i ==> a@[t] == b@[t],
        decreases a.len() - i,
    {
        if a[i] != b[i] {
            return false;
        }
        i = i + 1;
    }
    assert(a@ =~= b@);
    true
}

/// The set of accepted suffixes of one generation run. Suffixes are kept in
/// the order of acceptance; a hash index by `bucket_key` makes membership
/// tests cheap. The index is keyed by an integer because vstd models the
/// hashing of integer keys, not of `String` keys.
pub struct DedupRegistry {
    accepted: Vec<Vec<u8>>,
    index: HashMap<u64, Vec<usize>>,
}

impl DedupRegistry {
    /// The accepted suffixes, in order of acceptance.
    pub closed spec fn entries(&self) -> Seq<Seq<u8>> {
        self.accepted@.map_values(|v: Vec<u8>| v@)
    }

    pub closed spec fn wf(&self) -> bool {
        &&& self.entries().no_duplicates()
        &&& forall|k: u64, j: int|
            #![trigger self.index@[k]@[j]]
            self.index@.contains_key(k) && 0 <= j < self.index@[k]@.len() ==> {
                &&& self.index@[k]@[j] < self.accepted@.len()
                &&& bucket_key(self.accepted@[self.index@[k]@[j] as int]@) == k
            }
        &&& forall|i: int|
            0 <= i < self.accepted@.len() ==> {
                &&& self.index@.contains_key(#[trigger] bucket_key(self.accepted@[i]@))
                &&& self.index@[bucket_key(self.accepted@[i]@)]@.contains(i as usize)
            }
    }

    /// A well-formed registry holds each suffix at most once.
    pub proof fn lemma_unique(&self)
        requires
            self.wf(),
        ensures
            self.entries().no_duplicates(),
    {
    }

    pub fn new() -> (r: DedupRegistry)
        ensures
            r.wf(),
            r.entries() == Seq::<Seq<u8>>::empty(),
    {
        let r = DedupRegistry { accepted: Vec::new(), index: HashMap::new() };
        assert(r.entries() =~= Seq::<Seq<u8>>::empty());
        r
    }

    pub fn len(&self) -> (r: usize)
        ensures
            r == self.entries().len(),
    {
        self.accepted.len()
    }

    /// The suffix accepted at position `i`.
    pub fn entry(&self, i: usize) -> (r: &Vec<u8>)
        requires
            i < self.entries().len(),
        ensures
            r@ == self.entries()[i as int],
    {
        &self.accepted[i]
    }

    /// Whether `d` has already been accepted.
    pub fn contains(&self, d: &Vec<u8>) -> (r: bool)
        requires
            self.wf(),
        ensures
            r == self.entries().contains(d@),
    {
        let k = compute_bucket_key(d);
        match self.index.get(&k) {
            None => {
                assert(!self.index@.contains_key(k));
                proof {
                    if self.entries().contains(d@) {
                        let i = choose|i: int| 0 <= i < self.entries().len() && self.entries()[i] == d@;
                        assert(self.accepted@[i]@ == d@);
                        assert(self.index@.contains_key(bucket_key(self.accepted@[i]@)));
                    }
                }
                false
            },
            Some(bucket) => {
                let mut j: usize = 0;
                while j < bucket.len()
                    invariant
                        self.wf(),
                        self.index@.contains_key(k),
                        self.index@[k] == *bucket,
                        k == bucket_key(d@),
                        j <= bucket.len(),
                        forall|t: int| 0 <= t < j ==> self.accepted@[bucket@[t] as int]@ != d@,
                    decreases bucket.len() - j,
                {
                    let pos = bucket[j];
                    assert(self.index@[k]@[j as int] == pos);
                    if same_digits(&self.accepted[pos], d) {
                        assert(self.entries()[pos as int] == d@);
                        return true;
                    }
                    j = j + 1;
                }
                proof {
                    if self.entries().contains(d@) {
                        let i = choose|i: int| 0 <= i < self.entries().len() && self.entries()[i] == d@;
                        assert(self.accepted@[i]@ == d@);
                        assert(self.index@.contains_key(bucket_key(self.accepted@[i]@)));
                        assert(self.accepted@.len() == self.accepted.len());
                        assert((i as usize) as int == i);
                        assert(self.index@[k]@.contains(i as usize));
                        let t = choose|t: int| 0 <= t < bucket@.len() && bucket@[t] == i as usize;
                        assert(self.accepted@[bucket@[t] as int]@ != d@);
                    }
                }
                assert(!self.entries().contains(d@));
                false
            },
        }
    }

    /// Accepts `d` when it is new; leaves the registry as it was otherwise.
    pub fn try_accept(&mut self, d: Vec<u8>) -> (r: bool)
        requires
            old(self).wf(),
        ensures
            final(self).wf(),
            r == !old(self).entries().contains(d@),
            r ==> final(self).entries() == old(self).entries().push(d@),
            !r ==> final(self).entries() == old(self).entries(),
    {
        if self.contains(&d) {
            return false;
        }
        let k = compute_bucket_key(&d);
        let n = self.accepted.len();
        let ghost old_index = self.index@;
        let ghost old_entries = self.entries();
        let mut bucket: Vec<usize> = match self.index.remove(&k) {
            Some(b) => b,
            None => Vec::new(),
        };
        proof {
            if old_index.contains_key(k) {
                assert(bucket == old_index[k]);
            } else {
                assert(bucket@ =~= Seq::<usize>::empty());
            }
        }
        bucket.push(n);
        self.index.insert(k, bucket);
        self.accepted.push(d);
        proof {
            assert(self.entries() =~= old_entries.push(d@));
            assert forall|i: int, j: int| 0 <= i < j < self.entries().len()
                implies self.entries()[i] != self.entries()[j] by {
                if j == n {
                    assert(old_entries[i] == self.entries()[i]);
                    assert(old_entries.contains(old_entries[i]));
                } else {
                    assert(old_entries[i] != old_entries[j]);
                }
            }
            assert forall|kk: u64, j: int|
                #![trigger self.index@[kk]@[j]]
                self.index@.contains_key(kk) && 0 <= j < self.index@[kk]@.len() implies {
                    &&& self.index@[kk]@[j] < self.accepted@.len()
                    &&& bucket_key(self.accepted@[self.index@[kk]@[j] as int]@) == kk
                } by {
                if kk != k {
                    assert(old_index[kk]@[j] == self.index@[kk]@[j]);
                } else if j < self.index@[kk]@.len() - 1 {
                    assert(old_index[kk]@[j] == self.index@[kk]@[j]);
                }
            }
            assert forall|i: int| 0 <= i < self.accepted@.len() implies {
                &&& self.index@.contains_key(#[trigger] bucket_key(self.accepted@[i]@))
                &&& self.index@[bucket_key(self.accepted@[i]@)]@.contains(i as usize)
            } by {
                let ki = bucket_key(self.accepted@[i]@);
                if i < n {
                    assert(old_index.contains_key(ki));
                    assert(old_index[ki]@.contains(i as usize));
                    let t = choose|t: int| 0 <= t < old_index[ki]@.len() && old_index[ki]@[t] == i as usize;
                    if ki == k {
                        assert(self.index@[ki]@[t] == i as usize);
                    } else {
                        assert(self.index@[ki] == old_index[ki]);
                    }
                } else {
                    assert(self.index@[k]@[self.index@[k]@.len() - 1] == n);
                }
            }
        }
        true
    }

    /// Gives up the accepted suffixes, in order of acceptance.
    pub fn into_entries(self) -> (r: Vec<Vec<u8>>)
        ensures
            r@.map_values(|v: Vec<u8>| v@) == self.entries(),
    {
        self.accepted
    }
}

} // verus!

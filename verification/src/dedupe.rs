//! Bounded first-in, first-out cache of content hashes.
//!
//! The cache is a queue, which knows the order in which the hashes came,
//! and an index over the same hashes, which answers whether a hash is
//! there without walking the queue. A hash is filed in the index under its
//! first eight bytes.

use crate::digest::same_key;
use std::collections::HashMap;
use std::collections::VecDeque;
use vstd::bytes::{spec_u64_from_le_bytes, u64_from_le_bytes};
use vstd::prelude::*;
use vstd::slice::slice_subrange;

verus! {

broadcast use vstd::std_specs::hash::group_hash_axioms;

/// The hashes after `key` was inserted: unchanged if `key` is among them;
/// else `key` goes to the back, and the oldest hash leaves if that made
/// more than `capacity` of them.
pub open spec fn inserted(keys: Seq<Seq<u8>>, key: Seq<u8>, capacity: usize) -> Seq<Seq<u8>> {
    if keys.contains(key) {
        keys
    } else if keys.len() + 1 > capacity {
        keys.push(key).drop_first()
    } else {
        keys.push(key)
    }
}

/// Insertion keeps a cache without repetition and within its capacity,
/// and the inserted hash is in the cache afterwards unless the cache
/// holds nothing at all.
pub proof fn lemma_inserted(keys: Seq<Seq<u8>>, key: Seq<u8>, capacity: usize)
    requires
        keys.len() <= capacity,
        keys.no_duplicates(),
    ensures
        inserted(keys, key, capacity).len() <= capacity,
        inserted(keys, key, capacity).no_duplicates(),
        capacity >= 1 ==> inserted(keys, key, capacity).contains(key),
        forall|other: Seq<u8>|
            inserted(keys, key, capacity).contains(other) ==> other == key || keys.contains(other),
{
    let after = inserted(keys, key, capacity);
    let pushed = keys.push(key);
    if !keys.contains(key) {
        lemma_pushed(keys, key);
        if keys.len() + 1 > capacity {
            lemma_front_dropped(pushed);
            if capacity >= 1 {
                assert(after[after.len() - 1] == key);
            }
        }
    }
}

/// What a sequence without repetition holds after a new item was pushed.
pub proof fn lemma_pushed(keys: Seq<Seq<u8>>, key: Seq<u8>)
    requires
        keys.no_duplicates(),
        !keys.contains(key),
    ensures
        keys.push(key).no_duplicates(),
        forall|other: Seq<u8>| #[trigger]
            keys.push(key).contains(other) <==> keys.contains(other) || other == key,
{
    let pushed = keys.push(key);
    assert(pushed[keys.len() as int] == key);
    assert forall|other: Seq<u8>| #[trigger]
        pushed.contains(other) <==> keys.contains(other) || other == key by {
        if keys.contains(other) {
            let i = choose|i: int| 0 <= i < keys.len() && keys[i] == other;
            assert(pushed[i] == other);
        }
        if pushed.contains(other) {
            let i = choose|i: int| 0 <= i < pushed.len() && pushed[i] == other;
            if i < keys.len() {
                assert(keys[i] == other);
            }
        }
    }
}

/// What a sequence without repetition holds after its first item left.
pub proof fn lemma_front_dropped(keys: Seq<Seq<u8>>)
    requires
        keys.no_duplicates(),
        keys.len() > 0,
    ensures
        keys.drop_first().no_duplicates(),
        forall|other: Seq<u8>| #[trigger]
            keys.drop_first().contains(other) <==> keys.contains(other) && other != keys[0],
{
    let rest = keys.drop_first();
    assert forall|i: int| 0 <= i < rest.len() implies rest[i] == keys[i + 1] by {}
    assert forall|other: Seq<u8>| #[trigger]
        rest.contains(other) <==> keys.contains(other) && other != keys[0] by {
        if rest.contains(other) {
            let i = choose|i: int| 0 <= i < rest.len() && rest[i] == other;
            assert(keys[i + 1] == other);
        }
        if keys.contains(other) && other != keys[0] {
            let i = choose|i: int| 0 <= i < keys.len() && keys[i] == other;
            assert(rest[i - 1] == other);
        }
    }
}

/// What a sequence without repetition holds after one item left.
pub proof fn lemma_removed(keys: Seq<Seq<u8>>, at: int)
    requires
        keys.no_duplicates(),
        0 <= at < keys.len(),
    ensures
        keys.remove(at).no_duplicates(),
        forall|other: Seq<u8>| #[trigger]
            keys.remove(at).contains(other) <==> keys.contains(other) && other != keys[at],
{
    let rest = keys.remove(at);
    assert forall|i: int| 0 <= i < rest.len() implies rest[i] == if i < at {
        keys[i]
    } else {
        keys[i + 1]
    } by {}
    assert forall|other: Seq<u8>| #[trigger]
        rest.contains(other) <==> keys.contains(other) && other != keys[at] by {
        if rest.contains(other) {
            let i = choose|i: int| 0 <= i < rest.len() && rest[i] == other;
            if i < at {
                assert(keys[i] == other);
            } else {
                assert(keys[i + 1] == other);
            }
        }
        if keys.contains(other) && other != keys[at] {
            let i = choose|i: int| 0 <= i < keys.len() && keys[i] == other;
            if i < at {
                assert(rest[i] == other);
            } else {
                assert(rest[i - 1] == other);
            }
        }
    }
}

/// The place in the index under which a hash is filed: its first eight
/// bytes as a little-endian number.
pub open spec fn slot_of(key: Seq<u8>) -> u64 {
    spec_u64_from_le_bytes(key.subrange(0, 8))
}

/// The hashes of one place of the index.
pub open spec fn hashes(bucket: Vec<[u8; 32]>) -> Seq<Seq<u8>> {
    Seq::new(bucket@.len(), |i: int| bucket@[i]@)
}

/// Whether a hash is in the index.
pub open spec fn filed(index: Map<u64, Vec<[u8; 32]>>, key: Seq<u8>) -> bool {
    index.contains_key(slot_of(key)) && hashes(index[slot_of(key)]).contains(key)
}

/// No place of the index holds a hash twice.
pub open spec fn tidy(index: Map<u64, Vec<[u8; 32]>>) -> bool {
    forall|slot: u64| #[trigger] index.contains_key(slot) ==> hashes(index[slot]).no_duplicates()
}

/// The place of a hash in the index.
fn slot(key: &[u8; 32]) -> (s: u64)
    ensures
        s == slot_of(key@),
{
    u64_from_le_bytes(slice_subrange(key.as_slice(), 0, 8))
}

/// Where `key` stands in one place of the index, if it does.
fn find_in(bucket: &Vec<[u8; 32]>, key: &[u8; 32]) -> (found: Option<usize>)
    ensures
        match found {
            Some(i) => i < bucket@.len() && hashes(*bucket)[i as int] == key@,
            None => !hashes(*bucket).contains(key@),
        },
{
    let n = bucket.len();
    let mut i: usize = 0;
    while i < n
        invariant
            n == bucket@.len(),
            i <= n,
            forall|k: int| 0 <= k < i ==> hashes(*bucket)[k] != key@,
        decreases n - i,
    {
        if same_key(&bucket[i], key) {
            return Some(i);
        }
        i += 1;
    }
    None
}

/// Files a hash that is not in the index.
fn file(index: &mut HashMap<u64, Vec<[u8; 32]>>, key: [u8; 32])
    requires
        tidy(old(index)@),
        !filed(old(index)@, key@),
    ensures
        tidy(final(index)@),
        forall|other: Seq<u8>| #[trigger]
            filed(final(index)@, other) <==> filed(old(index)@, other) || other == key@,
{
    let s = slot(&key);
    let ghost before = index@;
    let mut bucket: Vec<[u8; 32]> = match index.remove(&s) {
        Some(bucket) => bucket,
        None => Vec::new(),
    };
    let ghost was = hashes(bucket);
    assert(!was.contains(key@));
    assert(was.no_duplicates());
    bucket.push(key);
    assert(hashes(bucket) =~= was.push(key@));
    proof {
        lemma_pushed(was, key@);
    }
    let ghost now = bucket;
    index.insert(s, bucket);
    assert(index@ == before.remove(s).insert(s, now));
    assert forall|slot: u64| #[trigger] index@.contains_key(slot) implies hashes(
        index@[slot],
    ).no_duplicates() by {
        if slot != s {
            assert(before.contains_key(slot));
        }
    }
    assert forall|other: Seq<u8>| #[trigger]
        filed(index@, other) <==> filed(before, other) || other == key@ by {
        if slot_of(other) == s {
            assert(hashes(now).contains(other) <==> was.contains(other) || other == key@);
        }
    }
}

/// Takes a hash out of the index.
fn unfile(index: &mut HashMap<u64, Vec<[u8; 32]>>, key: &[u8; 32])
    requires
        tidy(old(index)@),
    ensures
        tidy(final(index)@),
        forall|other: Seq<u8>| #[trigger]
            filed(final(index)@, other) <==> filed(old(index)@, other) && other != key@,
{
    let s = slot(key);
    let ghost before = index@;
    match index.remove(&s) {
        Some(bucket) => {
            let mut bucket = bucket;
            let ghost was = hashes(bucket);
            assert(was.no_duplicates());
            match find_in(&bucket, key) {
                Some(i) => {
                    bucket.remove(i);
                    assert(hashes(bucket) =~= was.remove(i as int));
                    proof {
                        lemma_removed(was, i as int);
                    }
                },
                None => {},
            }
            let ghost now = bucket;
            assert(hashes(now).no_duplicates());
            assert(forall|other: Seq<u8>| #[trigger]
                hashes(now).contains(other) <==> was.contains(other) && other != key@);
            if bucket.len() > 0 {
                index.insert(s, bucket);
                assert(index@ == before.remove(s).insert(s, now));
                assert forall|slot: u64| #[trigger] index@.contains_key(slot) implies hashes(
                    index@[slot],
                ).no_duplicates() by {
                    if slot != s {
                        assert(before.contains_key(slot));
                    }
                }
            } else {
                assert(index@ == before.remove(s));
                assert forall|slot: u64| #[trigger] index@.contains_key(slot) implies hashes(
                    index@[slot],
                ).no_duplicates() by {
                    assert(before.contains_key(slot));
                }
                assert forall|other: Seq<u8>| !(#[trigger] hashes(now).contains(other)) by {
                    if hashes(now).contains(other) {
                        let i = choose|i: int| 0 <= i < hashes(now).len() && hashes(now)[i] == other;
                    }
                }
            }
            assert forall|other: Seq<u8>| #[trigger]
                filed(index@, other) <==> filed(before, other) && other != key@ by {
                if slot_of(other) == s {
                    assert(hashes(now).contains(other) <==> was.contains(other) && other != key@);
                }
            }
        },
        None => {
            assert(index@ == before.remove(s));
            assert(index@ =~= before);
        },
    }
}

/// The content hashes seen most recently, oldest first.
pub struct DedupeCache {
    queue: VecDeque<[u8; 32]>,
    index: HashMap<u64, Vec<[u8; 32]>>,
    capacity: usize,
}

impl View for DedupeCache {
    type V = Seq<Seq<u8>>;

    closed spec fn view(&self) -> Seq<Seq<u8>> {
        Seq::new(self.queue@.len(), |i: int| self.queue@[i]@)
    }
}

impl DedupeCache {
    /// Most hashes the cache holds.
    pub closed spec fn capacity(&self) -> usize {
        self.capacity
    }

    /// The cache is within its capacity and holds no hash twice, and the
    /// index holds the hashes of the queue and no others.
    pub closed spec fn wf(&self) -> bool {
        &&& self@.len() <= self.capacity
        &&& self@.no_duplicates()
        &&& tidy(self.index@)
        &&& forall|key: Seq<u8>| #[trigger] filed(self.index@, key) <==> self@.contains(key)
    }

    /// What well-formedness says of the view.
    pub proof fn lemma_wf(&self)
        requires
            self.wf(),
        ensures
            self@.len() <= self.capacity(),
            self@.no_duplicates(),
    {
    }

    /// An empty cache.
    pub fn new(capacity: usize) -> (cache: DedupeCache)
        ensures
            cache@ == Seq::<Seq<u8>>::empty(),
            cache.capacity() == capacity,
            cache.wf(),
    {
        let cache = DedupeCache { queue: VecDeque::new(), index: HashMap::new(), capacity };
        assert(cache@ =~= Seq::<Seq<u8>>::empty());
        cache
    }

    /// Number of hashes in the cache.
    pub fn len(&self) -> (n: usize)
        ensures
            n == self@.len(),
    {
        self.queue.len()
    }

    /// Whether `key` is in the cache.
    pub fn contains(&self, key: &[u8; 32]) -> (found: bool)
        requires
            self.wf(),
        ensures
            found == self@.contains(key@),
    {
        let s = slot(key);
        assert(filed(self.index@, key@) <==> self@.contains(key@));
        match self.index.get(&s) {
            Some(bucket) => find_in(bucket, key).is_some(),
            None => false,
        }
    }

    /// Puts `key` at the back of the cache, unless it is there already.
    /// If that makes more hashes than the capacity, the oldest one leaves.
    pub fn insert(&mut self, key: [u8; 32])
        requires
            old(self).wf(),
        ensures
            final(self)@ == inserted(old(self)@, key@, old(self).capacity()),
            final(self).capacity() == old(self).capacity(),
            final(self).wf(),
    {
        if self.contains(&key) {
            return;
        }
        let ghost before = self@;
        proof {
            lemma_pushed(before, key@);
        }
        self.queue.push_back(key);
        file(&mut self.index, key);
        let ghost pushed = self@;
        assert(pushed =~= before.push(key@));
        if self.queue.len() > self.capacity {
            proof {
                lemma_front_dropped(pushed);
            }
            match self.queue.pop_front() {
                Some(oldest) => {
                    assert(oldest@ == pushed[0]);
                    unfile(&mut self.index, &oldest);
                    assert(self@ =~= pushed.drop_first());
                },
                None => {},
            }
        }
    }
}

} // verus!

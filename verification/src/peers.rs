//! Peer identities, per-peer state and the bounded registry that holds it.

use crate::bucket::TokenBucket;
use crate::config::ValidatorConfig;
use crate::scoring::{add_to_score, clamp_i64, effective_delta, escalate};
use vstd::prelude::*;

verus! {

/// The identity of a peer: the bytes by which the transport knows it.
///
/// The validator never makes an identity. It compares the ones it is given.
#[derive(Debug, PartialEq, Eq, Hash)]
pub struct PeerId {
    bytes: Vec<u8>,
}

impl View for PeerId {
    type V = Seq<u8>;

    closed spec fn view(&self) -> Seq<u8> {
        self.bytes@
    }
}

impl PeerId {
    /// The identity with the given bytes.
    pub fn from_bytes(bytes: Vec<u8>) -> (id: PeerId)
        ensures
            id@ == bytes@,
    {
        PeerId { bytes }
    }

    /// The identity with a copy of the given bytes.
    pub fn from_slice(bytes: &[u8]) -> (id: PeerId)
        ensures
            id@ == bytes@,
    {
        PeerId { bytes: copy_bytes(bytes) }
    }

    /// The bytes of the identity.
    pub fn as_bytes(&self) -> (bytes: &[u8])
        ensures
            bytes@ == self@,
    {
        self.bytes.as_slice()
    }

    /// A copy of the bytes of the identity.
    pub fn to_bytes(&self) -> (bytes: Vec<u8>)
        ensures
            bytes@ == self@,
    {
        copy_bytes(self.bytes.as_slice())
    }

    /// Whether two identities are the same peer.
    pub fn same(&self, other: &PeerId) -> (same: bool)
        ensures
            same == (self@ == other@),
    {
        let n = self.bytes.len();
        if other.bytes.len() != n {
            return false;
        }
        let mut i: usize = 0;
        while i < n
            invariant
                n == self.bytes@.len(),
                n == other.bytes@.len(),
                i <= n,
                forall|k: int| 0 <= k < i ==> self.bytes@[k] == other.bytes@[k],
            decreases n - i,
        {
            if self.bytes[i] != other.bytes[i] {
                return false;
            }
            i += 1;
        }
        assert(self.bytes@ =~= other.bytes@);
        true
    }
}

impl Clone for PeerId {
    fn clone(&self) -> (copy: PeerId)
        ensures
            copy@ == self@,
    {
        PeerId { bytes: copy_bytes(self.bytes.as_slice()) }
    }
}

/// A vector with the bytes of a slice.
pub fn copy_bytes(bytes: &[u8]) -> (copy: Vec<u8>)
    ensures
        copy@ == bytes@,
{
    let n = bytes.len();
    let mut copy: Vec<u8> = Vec::with_capacity(n);
    let mut i: usize = 0;
    while i < n
        invariant
            n == bytes@.len(),
            i <= n,
            copy@ == bytes@.subrange(0, i as int),
        decreases n - i,
    {
        copy.push(bytes[i]);
        i += 1;
    }
    assert(bytes@.subrange(0, n as int) == bytes@);
    copy
}

/// What the validator knows of one peer.
#[derive(Debug, Clone, Copy, PartialEq, Eq)]
pub struct PeerState {
    /// Reputation, in thousandths of a point. Starts at zero.
    pub score: i64,
    /// Rate limiter for what the peer forwards.
    pub bucket: TokenBucket,
    /// Highest sequence number accepted from the peer as an author.
    pub last_seq: Option<u64>,
    /// Whether the peer is beyond tolerance.
    pub quarantined: bool,
    /// Penalties recorded against the peer.
    pub offences: u32,
}

impl PeerState {
    /// The state of a peer seen for the first time.
    pub open spec fn fresh(cfg: ValidatorConfig) -> PeerState {
        PeerState {
            score: 0,
            bucket: TokenBucket {
                capacity: cfg.token_bucket_capacity,
                refill_rate: cfg.token_refill_rate,
                level: (cfg.token_bucket_capacity * crate::bucket::MICROS) as u64,
                last: 0,
            },
            last_seq: None,
            quarantined: false,
            offences: 0,
        }
    }

    /// Whether the quarantine rule holds of a score and an offence count.
    pub open spec fn beyond_tolerance(score: i64, offences: u32, cfg: ValidatorConfig) -> bool {
        score <= cfg.quarantine_threshold || offences > cfg.offence_hard_cap
    }

    /// The state is one that a validator with configuration `cfg` can reach:
    /// the bucket is the configured one and within its capacity; a peer
    /// without offence has score zero and is not quarantined; and a peer
    /// with an offence on record that is beyond tolerance is quarantined.
    pub open spec fn wf(self, cfg: ValidatorConfig) -> bool {
        &&& self.bucket.wf()
        &&& self.bucket.capacity == cfg.token_bucket_capacity
        &&& self.bucket.refill_rate == cfg.token_refill_rate
        &&& self.offences == 0 ==> self.score == 0 && !self.quarantined
        &&& self.offences > 0 && PeerState::beyond_tolerance(self.score, self.offences, cfg)
            ==> self.quarantined
    }

    /// The quarantine flag says no more than the quarantine rule: the peer
    /// is quarantined only if it is beyond tolerance now. This holds of a
    /// peer whose score has never risen.
    pub open spec fn flag_is_exact(self, cfg: ValidatorConfig) -> bool {
        self.quarantined ==> PeerState::beyond_tolerance(self.score, self.offences, cfg)
    }

    /// Offence count after one more offence.
    pub open spec fn next_offence(self) -> u32 {
        if self.offences == u32::MAX {
            u32::MAX
        } else {
            (self.offences + 1) as u32
        }
    }

    /// Change of score that an offence with base penalty `base` brings now.
    pub open spec fn next_delta(self, base: i64, cfg: ValidatorConfig) -> i64 {
        effective_delta(base, self.next_offence(), cfg.offence_scale)
    }

    /// The state after an offence with base penalty `base`: one offence
    /// more, the escalated penalty added to the score, and the quarantine
    /// flag set if the peer is now beyond tolerance. A flag that is set
    /// stays set.
    pub open spec fn after_offence(self, base: i64, cfg: ValidatorConfig) -> PeerState {
        let offences = self.next_offence();
        let score = clamp_i64(self.score + self.next_delta(base, cfg));
        PeerState {
            score,
            offences,
            quarantined: self.quarantined || PeerState::beyond_tolerance(score, offences, cfg),
            ..self
        }
    }

    /// The score as the overlay sees it: none until a penalty was recorded.
    pub open spec fn app_score(self) -> Option<i64> {
        if self.offences > 0 {
            Some(self.score)
        } else {
            None
        }
    }

    /// The state of a peer seen for the first time.
    pub fn new(cfg: &ValidatorConfig) -> (state: PeerState)
        ensures
            state == PeerState::fresh(*cfg),
            state.wf(*cfg),
    {
        PeerState {
            score: 0,
            bucket: TokenBucket::new(cfg.token_bucket_capacity, cfg.token_refill_rate),
            last_seq: None,
            quarantined: false,
            offences: 0,
        }
    }

    /// Counts an offence, applies the escalated penalty to the score and
    /// sets the quarantine flag if the peer is now beyond tolerance; the
    /// flag is never cleared. Returns the change of score before it was
    /// fitted to the score's range.
    pub fn record_offence(&mut self, base: i64, cfg: &ValidatorConfig) -> (delta: i64)
        ensures
            *final(self) == old(self).after_offence(base, *cfg),
            delta == old(self).next_delta(base, *cfg),
            old(self).wf(*cfg) ==> final(self).wf(*cfg),
    {
        let offences: u32 = if self.offences == u32::MAX {
            u32::MAX
        } else {
            self.offences + 1
        };
        let delta = escalate(base, offences, cfg.offence_scale);
        let score = add_to_score(self.score, delta);
        self.offences = offences;
        self.score = score;
        if score <= cfg.quarantine_threshold || offences > cfg.offence_hard_cap {
            self.quarantined = true;
        }
        delta
    }
}

/// A registry entry.
pub struct PeerEntry {
    pub id: PeerId,
    pub state: PeerState,
}

/// Mathematical value of a registry entry.
pub struct PeerRecord {
    pub id: Seq<u8>,
    pub state: PeerState,
}

impl View for PeerEntry {
    type V = PeerRecord;

    open spec fn view(&self) -> PeerRecord {
        PeerRecord { id: self.id@, state: self.state }
    }
}

/// Where `id` stands among `records`, if it does.
pub open spec fn position(records: Seq<PeerRecord>, id: Seq<u8>) -> Option<int> {
    if exists|i: int| 0 <= i < records.len() && (#[trigger] records[i]).id == id {
        Some(choose|i: int| 0 <= i < records.len() && (#[trigger] records[i]).id == id)
    } else {
        None
    }
}

/// No identity has two records.
pub open spec fn distinct_ids(records: Seq<PeerRecord>) -> bool {
    forall|i: int, j: int|
        0 <= i < j < records.len() ==> (#[trigger] records[i]).id != (#[trigger] records[j]).id
}

/// The state recorded for `id`, if any.
pub open spec fn state_of(records: Seq<PeerRecord>, id: Seq<u8>) -> Option<PeerState> {
    match position(records, id) {
        Some(i) => Some(records[i].state),
        None => None,
    }
}

/// The records after `id` was looked up or admitted: unchanged if `id` has
/// a record; else a record with state `fresh` is added at the end, after
/// the oldest record has left if there are `max_peers` records or more.
pub open spec fn admitted(
    records: Seq<PeerRecord>,
    id: Seq<u8>,
    max_peers: usize,
    fresh: PeerState,
) -> Seq<PeerRecord> {
    if position(records, id) is Some {
        records
    } else if records.len() > 0 && records.len() >= max_peers {
        records.drop_first().push(PeerRecord { id, state: fresh })
    } else {
        records.push(PeerRecord { id, state: fresh })
    }
}

/// The records with the state of `id` replaced; unchanged if `id` has no
/// record.
pub open spec fn with_state(records: Seq<PeerRecord>, id: Seq<u8>, state: PeerState) -> Seq<
    PeerRecord,
> {
    match position(records, id) {
        Some(i) => records.update(i, PeerRecord { id, state }),
        None => records,
    }
}

/// How many of the records are quarantined.
pub open spec fn quarantined_count(records: Seq<PeerRecord>) -> nat
    decreases records.len(),
{
    if records.len() == 0 {
        0
    } else {
        quarantined_count(records.drop_last()) + if records.last().state.quarantined {
            1nat
        } else {
            0nat
        }
    }
}

/// An index at which `id` stands is the position of `id`.
pub proof fn lemma_position_is(records: Seq<PeerRecord>, id: Seq<u8>, i: int)
    requires
        distinct_ids(records),
        0 <= i < records.len(),
        records[i].id == id,
    ensures
        position(records, id) == Some(i),
        state_of(records, id) == Some(records[i].state),
{
    let j = choose|j: int| 0 <= j < records.len() && (#[trigger] records[j]).id == id;
    if j < i {
        assert(records[j].id != records[i].id);
    } else if i < j {
        assert(records[i].id != records[j].id);
    }
}

/// An identity that stands at no index has no position.
pub proof fn lemma_position_none(records: Seq<PeerRecord>, id: Seq<u8>)
    requires
        forall|i: int| 0 <= i < records.len() ==> (#[trigger] records[i]).id != id,
    ensures
        position(records, id) is None,
        state_of(records, id) is None,
{
}

/// A position is an index at which the identity stands.
pub proof fn lemma_position_some(records: Seq<PeerRecord>, id: Seq<u8>)
    requires
        position(records, id) is Some,
    ensures
        0 <= position(records, id).unwrap() < records.len(),
        records[position(records, id).unwrap()].id == id,
{
}

/// Admission keeps identities distinct, gives `id` a record, and keeps to
/// the capacity.
pub proof fn lemma_admitted(
    records: Seq<PeerRecord>,
    id: Seq<u8>,
    max_peers: usize,
    fresh: PeerState,
)
    requires
        distinct_ids(records),
    ensures
        distinct_ids(admitted(records, id, max_peers, fresh)),
        position(admitted(records, id, max_peers, fresh), id) is Some,
        position(records, id) is Some ==> admitted(records, id, max_peers, fresh) == records,
        position(records, id) is None ==> state_of(admitted(records, id, max_peers, fresh), id)
            == Some(fresh),
        position(records, id) is None ==> position(admitted(records, id, max_peers, fresh), id)
            == Some(admitted(records, id, max_peers, fresh).len() - 1),
        records.len() <= max_peers ==> admitted(records, id, max_peers, fresh).len() <= max_peers
            || admitted(records, id, max_peers, fresh).len() <= 1,
        admitted(records, id, max_peers, fresh).len() >= 1,
        forall|other: Seq<u8>|
            other != id && position(admitted(records, id, max_peers, fresh), other) is Some
                ==> state_of(admitted(records, id, max_peers, fresh), other) == state_of(
                records,
                other,
            ),
{
    let after = admitted(records, id, max_peers, fresh);
    if position(records, id) is Some {
    } else {
        assert forall|i: int| 0 <= i < records.len() implies (#[trigger] records[i]).id != id by {
            if records[i].id == id {
                assert(position(records, id) is Some);
            }
        }
        let shift: int = if records.len() > 0 && records.len() >= max_peers {
            1
        } else {
            0
        };
        let last = after.len() - 1;
        assert(after.len() == records.len() - shift + 1);
        assert(after[last] == PeerRecord { id, state: fresh });
        assert forall|i: int| 0 <= i < last implies #[trigger] after[i] == records[i + shift] by {}
        assert forall|i: int, j: int| 0 <= i < j < after.len() implies (#[trigger] after[i]).id != (
        #[trigger] after[j]).id by {
            if j < last {
                assert(after[i] == records[i + shift]);
                assert(after[j] == records[j + shift]);
            } else {
                assert(after[i] == records[i + shift]);
            }
        }
        lemma_position_is(after, id, last);
        assert forall|other: Seq<u8>| other != id && position(after, other) is Some implies state_of(
            after,
            other,
        ) == state_of(records, other) by {
            let k = position(after, other).unwrap();
            assert(k < last);
            assert(after[k] == records[k + shift]);
            lemma_position_is(records, other, k + shift);
        }
    }
}

/// Admission removes no record but the oldest, and that only to make room
/// for a newcomer.
pub proof fn lemma_admitted_keeps(
    records: Seq<PeerRecord>,
    id: Seq<u8>,
    max_peers: usize,
    fresh: PeerState,
    other: Seq<u8>,
)
    requires
        distinct_ids(records),
        position(records, other) is Some,
        position(records, id) is Some || records.len() < max_peers || records[0].id != other,
    ensures
        state_of(admitted(records, id, max_peers, fresh), other) == state_of(records, other),
        position(admitted(records, id, max_peers, fresh), other) is Some,
{
    let after = admitted(records, id, max_peers, fresh);
    lemma_admitted(records, id, max_peers, fresh);
    if position(records, id) is None {
        let k = position(records, other).unwrap();
        let shift: int = if records.len() > 0 && records.len() >= max_peers {
            1
        } else {
            0
        };
        assert(k - shift >= 0);
        assert(after[k - shift] == records[k]);
        lemma_position_is(after, other, k - shift);
    }
}

/// Replacing a state keeps identities and positions.
pub proof fn lemma_with_state(records: Seq<PeerRecord>, id: Seq<u8>, state: PeerState)
    requires
        distinct_ids(records),
    ensures
        distinct_ids(with_state(records, id, state)),
        with_state(records, id, state).len() == records.len(),
        forall|other: Seq<u8>| #[trigger]
            position(with_state(records, id, state), other) == position(records, other),
        position(records, id) is Some ==> state_of(with_state(records, id, state), id) == Some(
            state,
        ),
        forall|other: Seq<u8>|
            other != id ==> #[trigger] state_of(with_state(records, id, state), other) == state_of(
                records,
                other,
            ),
{
    let after = with_state(records, id, state);
    match position(records, id) {
        Some(p) => {
            assert forall|i: int| 0 <= i < records.len() implies (#[trigger] after[i]).id
                == records[i].id by {}
            assert forall|i: int, j: int| 0 <= i < j < after.len() implies (#[trigger] after[i]).id
                != (#[trigger] after[j]).id by {
                assert(records[i].id != records[j].id);
            }
            assert forall|other: Seq<u8>| #[trigger]
                position(after, other) == position(records, other) by {
                if position(records, other) is Some {
                    let k = position(records, other).unwrap();
                    assert(after[k].id == other);
                    lemma_position_is(after, other, k);
                } else {
                    assert forall|i: int| 0 <= i < after.len() implies (#[trigger] after[i]).id
                        != other by {
                        if after[i].id == other {
                            assert(records[i].id == other);
                        }
                    }
                    lemma_position_none(after, other);
                }
            }
            assert forall|other: Seq<u8>| other != id implies #[trigger] state_of(after, other)
                == state_of(records, other) by {
                assert(position(after, other) == position(records, other));
                if position(records, other) is Some {
                    let k = position(records, other).unwrap();
                    assert(k != p);
                }
            }
        },
        None => {},
    }
}

/// A bounded set of peers with their states, oldest admission first.
pub struct PeerRegistry {
    entries: Vec<PeerEntry>,
    max_peers: usize,
    fresh: PeerState,
}

impl View for PeerRegistry {
    type V = Seq<PeerRecord>;

    closed spec fn view(&self) -> Seq<PeerRecord> {
        Seq::new(self.entries@.len(), |i: int| self.entries@[i]@)
    }
}

impl PeerRegistry {
    /// Most peers the registry holds. A registry has room for one peer
    /// even where this is zero.
    pub closed spec fn max_peers(&self) -> usize {
        self.max_peers
    }

    /// The state that a newly admitted peer gets.
    pub closed spec fn fresh(&self) -> PeerState {
        self.fresh
    }

    /// No peer stands twice, and the registry holds no more peers than
    /// its capacity, or one.
    pub closed spec fn wf(&self) -> bool {
        &&& distinct_ids(self@)
        &&& self@.len() <= self.max_peers || self@.len() <= 1
    }

    /// What well-formedness says of the view.
    pub proof fn lemma_wf(&self)
        requires
            self.wf(),
        ensures
            distinct_ids(self@),
            self@.len() <= self.max_peers() || self@.len() <= 1,
    {
    }

    /// An empty registry.
    pub fn new(max_peers: usize, fresh: PeerState) -> (registry: PeerRegistry)
        ensures
            registry@ == Seq::<PeerRecord>::empty(),
            registry.max_peers() == max_peers,
            registry.fresh() == fresh,
            registry.wf(),
    {
        let registry = PeerRegistry { entries: Vec::new(), max_peers, fresh };
        assert(registry@ =~= Seq::<PeerRecord>::empty());
        registry
    }

    /// Number of peers in the registry.
    pub fn len(&self) -> (n: usize)
        ensures
            n == self@.len(),
    {
        self.entries.len()
    }

    /// The index at which `peer` stands, if it is in the registry.
    pub fn find(&self, peer: &PeerId) -> (found: Option<usize>)
        requires
            self.wf(),
        ensures
            match found {
                Some(i) => position(self@, peer@) == Some(i as int) && i < self@.len(),
                None => position(self@, peer@) is None,
            },
    {
        let n = self.entries.len();
        let mut i: usize = 0;
        while i < n
            invariant
                self.wf(),
                n == self.entries@.len(),
                i <= n,
                forall|k: int| 0 <= k < i ==> (#[trigger] self@[k]).id != peer@,
            decreases n - i,
        {
            if self.entries[i].id.same(peer) {
                proof {
                    lemma_position_is(self@, peer@, i as int);
                }
                return Some(i);
            }
            i += 1;
        }
        proof {
            lemma_position_none(self@, peer@);
        }
        None
    }

    /// The state of `peer`, if it is in the registry.
    pub fn get(&self, peer: &PeerId) -> (state: Option<PeerState>)
        requires
            self.wf(),
        ensures
            state == state_of(self@, peer@),
    {
        match self.find(peer) {
            Some(i) => Some(self.entries[i].state),
            None => None,
        }
    }

    /// The state at an index.
    pub fn state_at(&self, index: usize) -> (state: PeerState)
        requires
            index < self@.len(),
        ensures
            state == self@[index as int].state,
    {
        self.entries[index].state
    }

    /// Looks `peer` up, admitting it with a fresh state if it is not there.
    /// When the registry is full, the peer admitted longest ago leaves to
    /// make room. Returns the index at which `peer` stands.
    pub fn ensure(&mut self, peer: &PeerId) -> (index: usize)
        requires
            old(self).wf(),
        ensures
            final(self)@ == admitted(old(self)@, peer@, old(self).max_peers(), old(self).fresh()),
            position(final(self)@, peer@) == Some(index as int),
            index < final(self)@.len(),
            final(self).max_peers() == old(self).max_peers(),
            final(self).fresh() == old(self).fresh(),
            final(self).wf(),
    {
        proof {
            lemma_admitted(self@, peer@, self.max_peers, self.fresh);
        }
        match self.find(peer) {
            Some(i) => i,
            None => {
                let ghost before = self@;
                if self.entries.len() > 0 && self.entries.len() >= self.max_peers {
                    self.entries.remove(0);
                    assert(self@ =~= before.drop_first());
                }
                let ghost kept = self@;
                self.entries.push(PeerEntry { id: peer.clone(), state: self.fresh });
                assert(self@ =~= kept.push(PeerRecord { id: peer@, state: self.fresh }));
                self.entries.len() - 1
            },
        }
    }

    /// Replaces the state at an index.
    pub fn set_state(&mut self, index: usize, state: PeerState)
        requires
            old(self).wf(),
            index < old(self)@.len(),
        ensures
            final(self)@ == with_state(old(self)@, old(self)@[index as int].id, state),
            final(self)@ == old(self)@.update(
                index as int,
                PeerRecord { id: old(self)@[index as int].id, state },
            ),
            final(self).max_peers() == old(self).max_peers(),
            final(self).fresh() == old(self).fresh(),
            final(self).wf(),
    {
        let ghost before = self@;
        let ghost id = before[index as int].id;
        proof {
            lemma_position_is(before, id, index as int);
            lemma_with_state(before, id, state);
        }
        self.entries[index].state = state;
        assert(self@ =~= before.update(index as int, PeerRecord { id, state }));
    }

    /// How many peers are quarantined.
    pub fn quarantined(&self) -> (count: usize)
        ensures
            count == quarantined_count(self@),
    {
        let n = self.entries.len();
        let mut count: usize = 0;
        let mut i: usize = 0;
        assert(self@.subrange(0, 0) =~= Seq::<PeerRecord>::empty());
        while i < n
            invariant
                n == self.entries@.len(),
                i <= n,
                count <= i,
                count == quarantined_count(self@.subrange(0, i as int)),
            decreases n - i,
        {
            assert(self@.subrange(0, i + 1).drop_last() =~= self@.subrange(0, i as int));
            if self.entries[i].state.quarantined {
                count += 1;
            }
            i += 1;
        }
        assert(self@.subrange(0, n as int) =~= self@);
        count
    }

    /// Every peer with its state, oldest admission first.
    pub fn snapshot(&self) -> (all: Vec<(PeerId, PeerState)>)
        ensures
            all@.len() == self@.len(),
            forall|i: int|
                0 <= i < self@.len() ==> (#[trigger] all@[i]).0@ == self@[i].id && all@[i].1
                    == self@[i].state,
    {
        let n = self.entries.len();
        let mut all: Vec<(PeerId, PeerState)> = Vec::with_capacity(n);
        let mut i: usize = 0;
        while i < n
            invariant
                n == self.entries@.len(),
                i <= n,
                all@.len() == i,
                forall|k: int|
                    0 <= k < i ==> (#[trigger] all@[k]).0@ == self@[k].id && all@[k].1
                        == self@[k].state,
            decreases n - i,
        {
            all.push((self.entries[i].id.clone(), self.entries[i].state));
            i += 1;
        }
        all
    }
}

} // verus!

use vstd::prelude::*;

use crate::environment::Environment;
use crate::participant::Participant;

verus! {

/// The typed errors of the coordinator. Every operation either succeeds or
/// fails immediately with one of these, leaving the state unchanged.
#[derive(Clone, Copy, PartialEq, Eq, Structural, Debug)]
pub enum CoordinatorError {
    /// A round operation was attempted before the ceremony was initialized.
    NotInitialized,
    /// `initialize` was called after the ceremony had already begun.
    AlreadyInitialized,
    /// The participant is already waiting in the queue.
    AlreadyQueued,
    /// The participant is current or finished in the present round and the
    /// configuration forbids re-queueing such participants.
    AlreadyActive,
    /// The operation needs a participant of the current round, and this one
    /// is not current.
    NotActive,
    /// The contributor's next chunk already holds their contribution, still
    /// awaiting verification.
    ChunkLocked,
    /// The contributor has no chunk left to work on in this round.
    NotYourTurn,
    /// `verify` was called with an empty verification backlog.
    NoPendingWork,
    /// A participant unknown to the coordinator was named in a drop.
    NotFound,
}

/// An opaque reference to the stored byte artifact of one contribution: the
/// round, the chunk, and the contributor who produced it. The coordinator
/// never interprets artifact bytes; it only tracks which locators exist and
/// which become invalid when a participant is dropped.
pub struct Locator {
    pub round: u64,
    pub chunk: u64,
    pub contributor: Participant,
}

/// One entry of the verification backlog: a completed but not yet verified
/// contribution to `chunk` by `contributor`, stored at `locator`.
pub struct Task {
    pub chunk: u64,
    pub contributor: Participant,
    pub locator: Locator,
}

/// The per-round record of one current contributor.
///
/// Contributors work through the chunks of a round in strictly increasing
/// index order. `cursor` is the next chunk to work on: chunks below it carry
/// this contributor's verified contributions, and when `pending` holds, chunk
/// `cursor` carries their contribution awaiting verification. The cursor
/// advances past a chunk only once that chunk's contribution is verified.
pub struct ContributorSlot {
    pub participant: Participant,
    pub cursor: u64,
    pub pending: bool,
}

/// One entry of the waiting queue: a participant and the priority they asked
/// to join with (lower is served first; ties go by arrival order).
pub struct QueueEntry {
    pub participant: Participant,
    pub priority: u64,
}

/// Terminal metadata of a completed round: its height, who finished it, and
/// the chain of verified contribution locators it produced.
pub struct RoundSummary {
    pub height: u64,
    pub finished_contributors: Vec<Participant>,
    pub finished_verifiers: Vec<Participant>,
    pub verified: Vec<Locator>,
}

/// The whole ceremony state: the current round height, the waiting queue,
/// the current round's participant sets and chunk ledger, and the terminal
/// metadata of past rounds. Created at ceremony start with height 0 and
/// mutated exclusively through the operations below; a failed operation
/// leaves the state unchanged.
pub struct CoordinatorState {
    pub environment: Environment,
    pub round_height: u64,
    pub queue: Vec<QueueEntry>,
    pub current_contributors: Vec<ContributorSlot>,
    pub current_verifiers: Vec<Participant>,
    pub finished_contributors: Vec<Participant>,
    pub finished_verifiers: Vec<Participant>,
    pub pending_verification: Vec<Task>,
    pub verified: Vec<Locator>,
    pub past_rounds: Vec<RoundSummary>,
}

// ---------------------------------------------------------------------------
// Membership, seen from specifications.
// ---------------------------------------------------------------------------

/// Whether `s` holds a participant with the same role and identity as `p`.
pub open spec fn has_participant(s: Seq<Participant>, p: Participant) -> bool {
    exists|i: int| 0 <= i < s.len() && (#[trigger] s[i]).key() == p.key()
}

/// Whether some contributor slot of `s` belongs to the participant with
/// identity key `key`.
pub open spec fn has_slot(s: Seq<ContributorSlot>, key: (bool, Seq<char>)) -> bool {
    exists|i: int| 0 <= i < s.len() && (#[trigger] s[i]).participant.key() == key
}

/// The index of the contributor slot belonging to `key`; meaningful only
/// when `has_slot(s, key)` holds and slot identities are distinct.
pub open spec fn slot_index(s: Seq<ContributorSlot>, key: (bool, Seq<char>)) -> int {
    choose|i: int| 0 <= i < s.len() && (#[trigger] s[i]).participant.key() == key
}

/// The index in `s` of the participant with the same key as `p`; meaningful
/// only when `has_participant(s, p)` holds and keys are distinct.
pub open spec fn participant_index(s: Seq<Participant>, p: Participant) -> int {
    choose|i: int| 0 <= i < s.len() && (#[trigger] s[i]).key() == p.key()
}

/// Whether a queue entry with the same role and identity as `p` is waiting.
pub open spec fn has_queue_entry(q: Seq<QueueEntry>, p: Participant) -> bool {
    exists|i: int| 0 <= i < q.len() && (#[trigger] q[i]).participant.key() == p.key()
}

/// No two slots of `s` belong to the same participant.
pub open spec fn distinct_slots(s: Seq<ContributorSlot>) -> bool {
    forall|i: int, j: int|
        0 <= i < s.len() && 0 <= j < s.len() && i != j ==> (#[trigger] s[i]).participant.key() != (
        #[trigger] s[j]).participant.key()
}

/// No two participants of `s` share a role and an identity.
pub open spec fn distinct_participants(s: Seq<Participant>) -> bool {
    forall|i: int, j: int|
        0 <= i < s.len() && 0 <= j < s.len() && i != j ==> (#[trigger] s[i]).key() != (
        #[trigger] s[j]).key()
}

/// No two backlog tasks belong to the same contributor.
pub open spec fn distinct_tasks(ts: Seq<Task>) -> bool {
    forall|i: int, j: int|
        0 <= i < ts.len() && 0 <= j < ts.len() && i != j ==> (#[trigger] ts[i]).contributor.key()
            != (#[trigger] ts[j]).contributor.key()
}

/// No participant waits twice in the queue.
pub open spec fn distinct_queue(q: Seq<QueueEntry>) -> bool {
    forall|i: int, j: int|
        0 <= i < q.len() && 0 <= j < q.len() && i != j ==> (#[trigger] q[i]).participant.key() != (
        #[trigger] q[j]).participant.key()
}

/// When `key` has a slot, `slot_index` names a slot with that key.
pub proof fn lemma_slot_index_of(s: Seq<ContributorSlot>, key: (bool, Seq<char>))
    requires
        has_slot(s, key),
    ensures
        0 <= slot_index(s, key) < s.len(),
        s[slot_index(s, key)].participant.key() == key,
{
    let i = choose|i: int| 0 <= i < s.len() && (#[trigger] s[i]).participant.key() == key;
    assert(0 <= i < s.len() && s[i].participant.key() == key);
}

/// With distinct slots, `slot_index` is the only index holding `key`.
pub proof fn lemma_slot_index_unique(s: Seq<ContributorSlot>, i: int)
    requires
        distinct_slots(s),
        0 <= i < s.len(),
    ensures
        slot_index(s, s[i].participant.key()) == i,
{
    let key = s[i].participant.key();
    assert(has_slot(s, key));
    lemma_slot_index_of(s, key);
}

/// When `p` is present, `participant_index` names an entry with `p`'s key.
pub proof fn lemma_participant_index_of(s: Seq<Participant>, p: Participant)
    requires
        has_participant(s, p),
    ensures
        0 <= participant_index(s, p) < s.len(),
        s[participant_index(s, p)].key() == p.key(),
{
    let i = choose|i: int| 0 <= i < s.len() && (#[trigger] s[i]).key() == p.key();
    assert(0 <= i < s.len() && s[i].key() == p.key());
}

/// Removing another participant's slot keeps `key` present, with the same
/// record behind its index.
pub proof fn lemma_slot_lookup_after_remove(s: Seq<ContributorSlot>, i: int, key: (bool, Seq<char>))
    requires
        distinct_slots(s),
        0 <= i < s.len(),
        has_slot(s, key),
        s[i].participant.key() != key,
    ensures
        has_slot(s.remove(i), key),
        s.remove(i)[slot_index(s.remove(i), key)] == s[slot_index(s, key)],
        distinct_slots(s.remove(i)),
{
    lemma_slot_index_of(s, key);
    let j = slot_index(s, key);
    if j < i {
        assert(s.remove(i)[j] == s[j]);
        assert(has_slot(s.remove(i), key));
    } else {
        assert(s.remove(i)[j - 1] == s[j]);
        assert(has_slot(s.remove(i), key));
    }
    lemma_slot_index_of(s.remove(i), key);
    let k = slot_index(s.remove(i), key);
    let orig = if k < i {
        k
    } else {
        k + 1
    };
    assert(s.remove(i)[k] == s[orig]);
}

// ---------------------------------------------------------------------------
// Well-formedness.
// ---------------------------------------------------------------------------

impl CoordinatorState {
    /// The number of chunks each round of this ceremony owns.
    pub open spec fn chunks(self) -> u64 {
        self.environment.number_of_chunks
    }

    /// Contributor slots carry contributors, stay within the chunk range,
    /// and no two belong to the same identity.
    pub open spec fn wf_contributors(self) -> bool {
        let cc = self.current_contributors@;
        &&& forall|i: int|
            0 <= i < cc.len() ==> {
                &&& (#[trigger] cc[i]).participant.is_contributor()
                &&& cc[i].cursor <= self.chunks()
                &&& cc[i].pending ==> cc[i].cursor < self.chunks()
            }
        &&& distinct_slots(cc)
    }

    /// Every backlog task names a current contributor whose slot is pending
    /// exactly at the task's chunk; no contributor has two backlog tasks; and
    /// every pending slot has its task in the backlog.
    pub open spec fn wf_backlog(self) -> bool {
        let cc = self.current_contributors@;
        let ts = self.pending_verification@;
        &&& forall|i: int|
            0 <= i < ts.len() ==> {
                &&& (#[trigger] ts[i]).contributor.is_contributor()
                &&& has_slot(cc, ts[i].contributor.key())
                &&& cc[slot_index(cc, ts[i].contributor.key())].pending
                &&& cc[slot_index(cc, ts[i].contributor.key())].cursor == ts[i].chunk
            }
        &&& distinct_tasks(ts)
        &&& forall|j: int|
            0 <= j < cc.len() && (#[trigger] cc[j]).pending ==> exists|i: int|
                0 <= i < ts.len() && (#[trigger] ts[i]).contributor.key() == cc[j].participant.key()
    }

    /// Role tags and distinctness of the remaining participant collections,
    /// and disjointness of current and finished per role.
    pub open spec fn wf_sets(self) -> bool {
        let cv = self.current_verifiers@;
        let fc = self.finished_contributors@;
        let fv = self.finished_verifiers@;
        let q = self.queue@;
        &&& forall|i: int| 0 <= i < cv.len() ==> (#[trigger] cv[i]).is_verifier()
        &&& forall|i: int| 0 <= i < fc.len() ==> (#[trigger] fc[i]).is_contributor()
        &&& forall|i: int| 0 <= i < fv.len() ==> (#[trigger] fv[i]).is_verifier()
        &&& distinct_participants(cv)
        &&& distinct_participants(fc)
        &&& distinct_participants(fv)
        &&& distinct_queue(q)
        &&& forall|i: int|
            0 <= i < self.current_contributors@.len() ==> !has_participant(
                fc,
                (#[trigger] self.current_contributors@[i]).participant,
            )
        &&& forall|i: int| 0 <= i < cv.len() ==> !has_participant(fv, #[trigger] cv[i])
    }

    /// Before initialization nothing but the queue may be populated.
    pub open spec fn wf_uninitialized(self) -> bool {
        self.round_height == 0 ==> {
            &&& self.current_contributors@.len() == 0
            &&& self.current_verifiers@.len() == 0
            &&& self.finished_contributors@.len() == 0
            &&& self.finished_verifiers@.len() == 0
            &&& self.pending_verification@.len() == 0
            &&& self.verified@.len() == 0
            &&& self.past_rounds@.len() == 0
        }
    }

    /// The coordinator's internal invariant. Constructors establish it and
    /// every operation preserves it.
    pub open spec fn wf(self) -> bool {
        &&& self.wf_contributors()
        &&& self.wf_backlog()
        &&& self.wf_sets()
        &&& self.wf_uninitialized()
    }

    // -----------------------------------------------------------------------
    // Membership predicates, seen from specifications.
    // -----------------------------------------------------------------------

    /// `p` is a contributor waiting in the queue.
    pub open spec fn spec_is_queue_contributor(self, p: Participant) -> bool {
        p.is_contributor() && has_queue_entry(self.queue@, p)
    }

    /// `p` is a verifier waiting in the queue.
    pub open spec fn spec_is_queue_verifier(self, p: Participant) -> bool {
        p.is_verifier() && has_queue_entry(self.queue@, p)
    }

    /// `p` is a contributor of the current round.
    pub open spec fn spec_is_current_contributor(self, p: Participant) -> bool {
        p.is_contributor() && has_slot(self.current_contributors@, p.key())
    }

    /// `p` is a verifier of the current round.
    pub open spec fn spec_is_current_verifier(self, p: Participant) -> bool {
        p.is_verifier() && has_participant(self.current_verifiers@, p)
    }

    /// `p` finished the current round as a contributor.
    pub open spec fn spec_is_finished_contributor(self, p: Participant) -> bool {
        p.is_contributor() && has_participant(self.finished_contributors@, p)
    }

    /// `p` finished the current round as a verifier.
    pub open spec fn spec_is_finished_verifier(self, p: Participant) -> bool {
        p.is_verifier() && has_participant(self.finished_verifiers@, p)
    }
}

// ---------------------------------------------------------------------------
// Searching the collections.
// ---------------------------------------------------------------------------

/// The index of the contributor slot belonging to `p`, if any.
fn find_slot(slots: &Vec<ContributorSlot>, p: &Participant) -> (r: Option<usize>)
    ensures
        match r {
            Some(i) => i < slots@.len() && slots@[i as int].participant.key() == p.key(),
            None => !has_slot(slots@, p.key()),
        },
{
    let mut i: usize = 0;
    while i < slots.len()
        invariant
            i <= slots@.len(),
            forall|j: int| 0 <= j < i ==> (#[trigger] slots@[j]).participant.key() != p.key(),
        decreases slots@.len() - i,
    {
        if slots[i].participant == *p {
            return Some(i);
        }
        i = i + 1;
    }
    None
}

/// The index of the participant with the same role and identity as `p`, if any.
fn find_participant(s: &Vec<Participant>, p: &Participant) -> (r: Option<usize>)
    ensures
        match r {
            Some(i) => i < s@.len() && s@[i as int].key() == p.key(),
            None => !has_participant(s@, *p),
        },
{
    let mut i: usize = 0;
    while i < s.len()
        invariant
            i <= s@.len(),
            forall|j: int| 0 <= j < i ==> (#[trigger] s@[j]).key() != p.key(),
        decreases s@.len() - i,
    {
        if s[i] == *p {
            return Some(i);
        }
        i = i + 1;
    }
    None
}

/// The index of the queue entry belonging to `p`, if any.
fn find_queue_entry(q: &Vec<QueueEntry>, p: &Participant) -> (r: Option<usize>)
    ensures
        match r {
            Some(i) => i < q@.len() && q@[i as int].participant.key() == p.key(),
            None => !has_queue_entry(q@, *p),
        },
{
    let mut i: usize = 0;
    while i < q.len()
        invariant
            i <= q@.len(),
            forall|j: int| 0 <= j < i ==> (#[trigger] q@[j]).participant.key() != p.key(),
        decreases q@.len() - i,
    {
        if q[i].participant == *p {
            return Some(i);
        }
        i = i + 1;
    }
    None
}

/// How many queued entries are contributors.
pub open spec fn num_queue_contributors(q: Seq<QueueEntry>) -> int
    decreases q.len(),
{
    if q.len() == 0 {
        0
    } else {
        num_queue_contributors(q.drop_last()) + if q.last().participant.is_contributor() {
            1int
        } else {
            0int
        }
    }
}

/// How many queued entries are verifiers.
pub open spec fn num_queue_verifiers(q: Seq<QueueEntry>) -> int
    decreases q.len(),
{
    if q.len() == 0 {
        0
    } else {
        num_queue_verifiers(q.drop_last()) + if q.last().participant.is_verifier() {
            1int
        } else {
            0int
        }
    }
}

// ---------------------------------------------------------------------------
// Construction and lifecycle.
// ---------------------------------------------------------------------------

impl CoordinatorState {
    /// A coordinator at ceremony start: height 0, an empty queue, no round.
    pub fn new(environment: Environment) -> (s: CoordinatorState)
        ensures
            s.wf(),
            s.environment == environment,
            s.round_height == 0,
            s.queue@.len() == 0,
    {
        CoordinatorState {
            environment,
            round_height: 0,
            queue: Vec::new(),
            current_contributors: Vec::new(),
            current_verifiers: Vec::new(),
            finished_contributors: Vec::new(),
            finished_verifiers: Vec::new(),
            pending_verification: Vec::new(),
            verified: Vec::new(),
            past_rounds: Vec::new(),
        }
    }

    /// Opens round 1 of the ceremony. Valid exactly once, at height 0;
    /// afterwards it fails with `AlreadyInitialized` and changes nothing.
    /// The round height never decreases.
    pub fn initialize(&mut self) -> (r: Result<(), CoordinatorError>)
        requires
            old(self).wf(),
        ensures
            final(self).wf(),
            old(self).round_height <= final(self).round_height,
            old(self).round_height == 0 ==> {
                &&& r is Ok
                &&& *final(self) == (CoordinatorState { round_height: 1u64, ..*old(self) })
            },
            old(self).round_height != 0 ==> {
                &&& r == Result::<(), CoordinatorError>::Err(CoordinatorError::AlreadyInitialized)
                &&& *final(self) == *old(self)
            },
    {
        if self.round_height != 0 {
            return Err(CoordinatorError::AlreadyInitialized);
        }
        self.round_height = 1;
        Ok(())
    }

    /// The error `add_to_queue` answers in a given state, if any.
    pub open spec fn spec_add_to_queue_error(self, p: Participant) -> Option<CoordinatorError> {
        if has_queue_entry(self.queue@, p) {
            Some(CoordinatorError::AlreadyQueued)
        } else if p.is_contributor() && !self.environment.allow_current_contributors_in_queue && (
        has_slot(self.current_contributors@, p.key()) || has_participant(
            self.finished_contributors@,
            p,
        )) {
            Some(CoordinatorError::AlreadyActive)
        } else if p.is_verifier() && !self.environment.allow_current_verifiers_in_queue && (
        has_participant(self.current_verifiers@, p) || has_participant(
            self.finished_verifiers@,
            p,
        )) {
            Some(CoordinatorError::AlreadyActive)
        } else {
            None
        }
    }

    /// Asks to join the next round with the given priority. Fails with
    /// `AlreadyQueued` for a participant already waiting, and with
    /// `AlreadyActive` for one who is current or finished in the present
    /// round while the configuration forbids re-queueing them. On success the
    /// participant is appended to the queue; a failed call changes nothing.
    /// The round height never changes.
    pub fn add_to_queue(&mut self, participant: Participant, priority: u64) -> (r: Result<
        (),
        CoordinatorError,
    >)
        requires
            old(self).wf(),
        ensures
            final(self).wf(),
            final(self).round_height == old(self).round_height,
            match old(self).spec_add_to_queue_error(participant) {
                Some(e) => r == Result::<(), CoordinatorError>::Err(e) && *final(self) == *old(
                    self,
                ),
                None => {
                    &&& r is Ok
                    &&& final(self).queue@ == old(self).queue@.push(
                        QueueEntry { participant, priority },
                    )
                    &&& *final(self) == (CoordinatorState { queue: final(self).queue, ..*old(self) })
                },
            },
    {
        if find_queue_entry(&self.queue, &participant).is_some() {
            return Err(CoordinatorError::AlreadyQueued);
        }
        match &participant {
            Participant::Contributor(_) => {
                if !self.environment.allow_current_contributors_in_queue {
                    if find_slot(&self.current_contributors, &participant).is_some()
                        || find_participant(&self.finished_contributors, &participant).is_some() {
                        return Err(CoordinatorError::AlreadyActive);
                    }
                }
            },
            Participant::Verifier(_) => {
                if !self.environment.allow_current_verifiers_in_queue {
                    if find_participant(&self.current_verifiers, &participant).is_some()
                        || find_participant(&self.finished_verifiers, &participant).is_some() {
                        return Err(CoordinatorError::AlreadyActive);
                    }
                }
            },
        }
        self.queue.push(QueueEntry { participant, priority });
        Ok(())
    }

    // -----------------------------------------------------------------------
    // Read-only queries.
    // -----------------------------------------------------------------------

    /// The current round height: 0 before initialization, then the height of
    /// the live round.
    pub fn current_round_height(&self) -> (h: u64)
        ensures
            h == self.round_height,
    {
        self.round_height
    }

    /// How many contributors are waiting in the queue.
    pub fn number_of_queue_contributors(&self) -> (n: usize)
        ensures
            n == num_queue_contributors(self.queue@),
    {
        let mut n: usize = 0;
        let mut i: usize = 0;
        while i < self.queue.len()
            invariant
                i <= self.queue@.len(),
                n <= i,
                n == num_queue_contributors(self.queue@.subrange(0, i as int)),
            decreases self.queue@.len() - i,
        {
            let is_c = match &self.queue[i].participant {
                Participant::Contributor(_) => true,
                Participant::Verifier(_) => false,
            };
            proof {
                assert(self.queue@.subrange(0, i + 1).drop_last() =~= self.queue@.subrange(
                    0,
                    i as int,
                ));
            }
            if is_c {
                n = n + 1;
            }
            i = i + 1;
        }
        proof {
            assert(self.queue@.subrange(0, self.queue@.len() as int) =~= self.queue@);
        }
        n
    }

    /// How many verifiers are waiting in the queue.
    pub fn number_of_queue_verifiers(&self) -> (n: usize)
        ensures
            n == num_queue_verifiers(self.queue@),
    {
        let mut n: usize = 0;
        let mut i: usize = 0;
        while i < self.queue.len()
            invariant
                i <= self.queue@.len(),
                n <= i,
                n == num_queue_verifiers(self.queue@.subrange(0, i as int)),
            decreases self.queue@.len() - i,
        {
            let is_v = match &self.queue[i].participant {
                Participant::Contributor(_) => false,
                Participant::Verifier(_) => true,
            };
            proof {
                assert(self.queue@.subrange(0, i + 1).drop_last() =~= self.queue@.subrange(
                    0,
                    i as int,
                ));
            }
            if is_v {
                n = n + 1;
            }
            i = i + 1;
        }
        proof {
            assert(self.queue@.subrange(0, self.queue@.len() as int) =~= self.queue@);
        }
        n
    }

    /// Whether `participant` is a contributor waiting in the queue.
    pub fn is_queue_contributor(&self, participant: &Participant) -> (r: bool)
        ensures
            r == self.spec_is_queue_contributor(*participant),
    {
        match participant {
            Participant::Contributor(_) => find_queue_entry(&self.queue, participant).is_some(),
            Participant::Verifier(_) => false,
        }
    }

    /// Whether `participant` is a verifier waiting in the queue.
    pub fn is_queue_verifier(&self, participant: &Participant) -> (r: bool)
        ensures
            r == self.spec_is_queue_verifier(*participant),
    {
        match participant {
            Participant::Contributor(_) => false,
            Participant::Verifier(_) => find_queue_entry(&self.queue, participant).is_some(),
        }
    }

    /// Whether `participant` is a contributor of the current round.
    pub fn is_current_contributor(&self, participant: &Participant) -> (r: bool)
        ensures
            r == self.spec_is_current_contributor(*participant),
    {
        match participant {
            Participant::Contributor(_) => find_slot(
                &self.current_contributors,
                participant,
            ).is_some(),
            Participant::Verifier(_) => false,
        }
    }

    /// Whether `participant` is a verifier of the current round.
    pub fn is_current_verifier(&self, participant: &Participant) -> (r: bool)
        ensures
            r == self.spec_is_current_verifier(*participant),
    {
        match participant {
            Participant::Contributor(_) => false,
            Participant::Verifier(_) => find_participant(
                &self.current_verifiers,
                participant,
            ).is_some(),
        }
    }

    /// Whether `participant` finished the current round as a contributor.
    pub fn is_finished_contributor(&self, participant: &Participant) -> (r: bool)
        ensures
            r == self.spec_is_finished_contributor(*participant),
    {
        match participant {
            Participant::Contributor(_) => find_participant(
                &self.finished_contributors,
                participant,
            ).is_some(),
            Participant::Verifier(_) => false,
        }
    }

    /// Whether `participant` finished the current round as a verifier.
    pub fn is_finished_verifier(&self, participant: &Participant) -> (r: bool)
        ensures
            r == self.spec_is_finished_verifier(*participant),
    {
        match participant {
            Participant::Contributor(_) => false,
            Participant::Verifier(_) => find_participant(
                &self.finished_verifiers,
                participant,
            ).is_some(),
        }
    }
}

// ---------------------------------------------------------------------------
// The contribute/verify protocol.
// ---------------------------------------------------------------------------

impl CoordinatorState {
    /// The error `contribute` answers in a given state, if any.
    pub open spec fn spec_contribute_error(self, p: Participant) -> Option<CoordinatorError> {
        let cc = self.current_contributors@;
        if self.round_height == 0 {
            Some(CoordinatorError::NotInitialized)
        } else if !self.spec_is_current_contributor(p) {
            Some(CoordinatorError::NotActive)
        } else if cc[slot_index(cc, p.key())].pending {
            Some(CoordinatorError::ChunkLocked)
        } else if cc[slot_index(cc, p.key())].cursor >= self.chunks() {
            Some(CoordinatorError::NotYourTurn)
        } else {
            None
        }
    }

    /// How a successful `contribute` by `p` changes the state: `p`'s slot
    /// becomes pending at its cursor, one verification task for that chunk
    /// joins the back of the backlog, and nothing else moves.
    pub open spec fn spec_after_contribute(pre: CoordinatorState, post: CoordinatorState, p: Participant) -> bool {
        let cc = pre.current_contributors@;
        let i = slot_index(cc, p.key());
        let slot = cc[i];
        let locator = Locator {
            round: pre.round_height,
            chunk: slot.cursor,
            contributor: slot.participant,
        };
        let task = Task { chunk: slot.cursor, contributor: slot.participant, locator };
        &&& post.current_contributors@ == cc.update(i, ContributorSlot { pending: true, ..slot })
        &&& post.pending_verification@ == pre.pending_verification@.push(task)
        &&& post == (CoordinatorState {
            current_contributors: post.current_contributors,
            pending_verification: post.pending_verification,
            ..pre
        })
    }

    /// A contribution by `participant` to their next chunk. It requires the
    /// participant to be a current contributor; fails with `ChunkLocked`
    /// while their previous contribution awaits verification, and with
    /// `NotYourTurn` once they have no chunk left. On success the
    /// contribution's verification task joins the back of the backlog; the
    /// cursor advances only when that task is verified. A failed call
    /// changes nothing, and the round height never changes.
    pub fn contribute(&mut self, participant: &Participant) -> (r: Result<(), CoordinatorError>)
        requires
            old(self).wf(),
        ensures
            final(self).wf(),
            final(self).round_height == old(self).round_height,
            match old(self).spec_contribute_error(*participant) {
                Some(e) => r == Result::<(), CoordinatorError>::Err(e) && *final(self) == *old(
                    self,
                ),
                None => r is Ok && CoordinatorState::spec_after_contribute(
                    *old(self),
                    *final(self),
                    *participant,
                ),
            },
    {
        if self.round_height == 0 {
            return Err(CoordinatorError::NotInitialized);
        }
        let is_contributor = match participant {
            Participant::Contributor(_) => true,
            Participant::Verifier(_) => false,
        };
        if !is_contributor {
            return Err(CoordinatorError::NotActive);
        }
        let i = match find_slot(&self.current_contributors, participant) {
            Some(i) => i,
            None => {
                return Err(CoordinatorError::NotActive);
            },
        };
        proof {
            lemma_slot_index_unique(self.current_contributors@, i as int);
        }
        if self.current_contributors[i].pending {
            return Err(CoordinatorError::ChunkLocked);
        }
        let cursor = self.current_contributors[i].cursor;
        if cursor >= self.environment.number_of_chunks {
            return Err(CoordinatorError::NotYourTurn);
        }
        let ghost pre = *self;
        let task_contributor = self.current_contributors[i].participant.clone();
        let locator_contributor = task_contributor.clone();
        let locator = Locator {
            round: self.round_height,
            chunk: cursor,
            contributor: locator_contributor,
        };
        let task = Task { chunk: cursor, contributor: task_contributor, locator };
        self.pending_verification.push(task);
        let mut slot = self.current_contributors.remove(i);
        slot.pending = true;
        self.current_contributors.insert(i, slot);
        proof {
            let cc = pre.current_contributors@;
            let key = participant.key();
            assert(self.current_contributors@ =~= cc.update(
                i as int,
                ContributorSlot { pending: true, ..cc[i as int] },
            ));
            let cc2 = self.current_contributors@;
            let ts2 = self.pending_verification@;
            // every old task still names a pending slot, behind the same index
            assert forall|t: int| 0 <= t < ts2.len() implies {
                &&& (#[trigger] ts2[t]).contributor.is_contributor()
                &&& has_slot(cc2, ts2[t].contributor.key())
                &&& cc2[slot_index(cc2, ts2[t].contributor.key())].pending
                &&& cc2[slot_index(cc2, ts2[t].contributor.key())].cursor == ts2[t].chunk
            } by {
                let k = ts2[t].contributor.key();
                if t < ts2.len() - 1 {
                    assert(ts2[t] == pre.pending_verification@[t]);
                    lemma_slot_index_of(cc, k);
                    let j = slot_index(cc, k);
                    assert(cc[j].pending);
                    assert(j != i);
                    assert(cc2[j] == cc[j]);
                    assert(has_slot(cc2, k));
                    lemma_slot_index_unique(cc2, j);
                } else {
                    assert(ts2[t] == ts2.last());
                    assert(cc2[i as int].participant.key() == k);
                    assert(has_slot(cc2, k));
                    lemma_slot_index_unique(cc2, i as int);
                }
            }
            // no contributor gained a second task
            assert forall|a: int, b: int|
                0 <= a < ts2.len() && 0 <= b < ts2.len() && a != b implies (
            #[trigger] ts2[a]).contributor.key() != (#[trigger] ts2[b]).contributor.key() by {
                if a < ts2.len() - 1 && b < ts2.len() - 1 {
                    assert(distinct_tasks(pre.pending_verification@));
                } else {
                    let o = if a < ts2.len() - 1 {
                        a
                    } else {
                        b
                    };
                    if ts2[o].contributor.key() == key {
                        let j = slot_index(cc, key);
                        lemma_slot_index_unique(cc, i as int);
                        assert(cc[j].pending);
                    }
                }
            }
            // every pending slot still has a task
            assert forall|j: int| 0 <= j < cc2.len() && (#[trigger] cc2[j]).pending implies exists|t: int|
                0 <= t < ts2.len() && (#[trigger] ts2[t]).contributor.key()
                    == cc2[j].participant.key() by {
                if j == i as int {
                    assert(ts2[ts2.len() - 1].contributor.key() == cc2[j].participant.key());
                } else {
                    assert(cc2[j] == cc[j]);
                    let t = choose|t: int|
                        0 <= t < pre.pending_verification@.len() && (#[trigger] pre
                            .pending_verification@[t]).contributor.key() == cc[j].participant.key();
                    assert(ts2[t].contributor.key() == cc2[j].participant.key());
                }
            }
        }
        Ok(())
    }

    /// The error `verify` answers in a given state, if any.
    pub open spec fn spec_verify_error(self, p: Participant) -> Option<CoordinatorError> {
        if self.round_height == 0 {
            Some(CoordinatorError::NotInitialized)
        } else if !self.spec_is_current_verifier(p) {
            Some(CoordinatorError::NotActive)
        } else if self.pending_verification@.len() == 0 {
            Some(CoordinatorError::NoPendingWork)
        } else {
            None
        }
    }

    /// How a successful `verify` changes the state: the oldest backlog task
    /// leaves the queue, its locator joins the verified chain, and the
    /// contributor behind it stops being pending and advances their cursor
    /// to the next chunk. Nothing else moves.
    pub open spec fn spec_after_verify(pre: CoordinatorState, post: CoordinatorState) -> bool {
        let t = pre.pending_verification@[0];
        let cc = pre.current_contributors@;
        let i = slot_index(cc, t.contributor.key());
        &&& post.current_contributors@ == cc.update(
            i,
            ContributorSlot { cursor: (cc[i].cursor + 1) as u64, pending: false, ..cc[i] },
        )
        &&& post.pending_verification@ == pre.pending_verification@.drop_first()
        &&& post.verified@ == pre.verified@.push(t.locator)
        &&& post == (CoordinatorState {
            current_contributors: post.current_contributors,
            pending_verification: post.pending_verification,
            verified: post.verified,
            ..pre
        })
    }

    /// One verification step by `participant`. It requires the participant
    /// to be a current verifier and fails with `NoPendingWork` on an empty
    /// backlog. On success the oldest pending task is popped (first in,
    /// first out), its chunk's contribution is marked verified, and the
    /// contributor's cursor advances to the next chunk. A failed call
    /// changes nothing, and the round height never changes.
    pub fn verify(&mut self, participant: &Participant) -> (r: Result<(), CoordinatorError>)
        requires
            old(self).wf(),
        ensures
            final(self).wf(),
            final(self).round_height == old(self).round_height,
            match old(self).spec_verify_error(*participant) {
                Some(e) => r == Result::<(), CoordinatorError>::Err(e) && *final(self) == *old(
                    self,
                ),
                None => r is Ok && CoordinatorState::spec_after_verify(*old(self), *final(self)),
            },
    {
        if self.round_height == 0 {
            return Err(CoordinatorError::NotInitialized);
        }
        let is_verifier = match participant {
            Participant::Contributor(_) => false,
            Participant::Verifier(_) => true,
        };
        if !is_verifier || find_participant(&self.current_verifiers, participant).is_none() {
            return Err(CoordinatorError::NotActive);
        }
        if self.pending_verification.is_empty() {
            return Err(CoordinatorError::NoPendingWork);
        }
        let ghost pre = *self;
        let t = self.pending_verification.remove(0);
        let i = match find_slot(&self.current_contributors, &t.contributor) {
            Some(i) => i,
            None => {
                proof {
                    assert(has_slot(pre.current_contributors@, pre.pending_verification@[0].contributor.key()));
                }
                return Err(CoordinatorError::NotActive);
            },
        };
        proof {
            lemma_slot_index_unique(self.current_contributors@, i as int);
        }
        let mut slot = self.current_contributors.remove(i);
        slot.cursor = slot.cursor + 1;
        slot.pending = false;
        self.current_contributors.insert(i, slot);
        self.verified.push(t.locator);
        proof {
            let cc = pre.current_contributors@;
            let ts = pre.pending_verification@;
            let key = ts[0].contributor.key();
            lemma_slot_index_unique(cc, i as int);
            assert(self.current_contributors@ =~= cc.update(
                i as int,
                ContributorSlot { cursor: (cc[i as int].cursor + 1) as u64, pending: false, ..cc[i as int] },
            ));
            assert(self.pending_verification@ =~= ts.drop_first());
            let cc2 = self.current_contributors@;
            let ts2 = self.pending_verification@;
            // the remaining tasks still name pending slots, behind the same index
            assert forall|t2: int| 0 <= t2 < ts2.len() implies {
                &&& (#[trigger] ts2[t2]).contributor.is_contributor()
                &&& has_slot(cc2, ts2[t2].contributor.key())
                &&& cc2[slot_index(cc2, ts2[t2].contributor.key())].pending
                &&& cc2[slot_index(cc2, ts2[t2].contributor.key())].cursor == ts2[t2].chunk
            } by {
                assert(ts2[t2] == ts[t2 + 1]);
                let k = ts2[t2].contributor.key();
                lemma_slot_index_of(cc, k);
                let j = slot_index(cc, k);
                assert(cc[j].pending);
                assert(k != key);
                assert(j != i);
                assert(cc2[j] == cc[j]);
                assert(has_slot(cc2, k));
                lemma_slot_index_unique(cc2, j);
            }
            assert(distinct_tasks(ts2)) by {
                assert forall|a: int, b: int|
                    0 <= a < ts2.len() && 0 <= b < ts2.len() && a != b implies (
                #[trigger] ts2[a]).contributor.key() != (#[trigger] ts2[b]).contributor.key() by {
                    assert(ts2[a] == ts[a + 1]);
                    assert(ts2[b] == ts[b + 1]);
                }
            }
            // every still-pending slot keeps its task
            assert forall|j: int| 0 <= j < cc2.len() && (#[trigger] cc2[j]).pending implies exists|
                t2: int,
            | 0 <= t2 < ts2.len() && (#[trigger] ts2[t2]).contributor.key()
                == cc2[j].participant.key() by {
                assert(j != i as int);
                assert(cc2[j] == cc[j]);
                let t0 = choose|t0: int|
                    0 <= t0 < ts.len() && (#[trigger] ts[t0]).contributor.key()
                        == cc[j].participant.key();
                assert(t0 != 0);
                assert(ts2[t0 - 1].contributor.key() == cc2[j].participant.key());
            }
        }
        Ok(())
    }
}

// ---------------------------------------------------------------------------
// Drop and recovery.
// ---------------------------------------------------------------------------

/// The backlog with every task of the contributor keyed `key` removed, in
/// the original order.
pub open spec fn tasks_without(ts: Seq<Task>, key: (bool, Seq<char>)) -> Seq<Task>
    decreases ts.len(),
{
    if ts.len() == 0 {
        Seq::empty()
    } else {
        let rest = tasks_without(ts.drop_last(), key);
        if ts.last().contributor.key() == key {
            rest
        } else {
            rest.push(ts.last())
        }
    }
}

/// The locators of the backlog tasks of the contributor keyed `key`, in the
/// backlog's order.
pub open spec fn locators_of(ts: Seq<Task>, key: (bool, Seq<char>)) -> Seq<Locator>
    decreases ts.len(),
{
    if ts.len() == 0 {
        Seq::empty()
    } else {
        let rest = locators_of(ts.drop_last(), key);
        if ts.last().contributor.key() == key {
            rest.push(ts.last().locator)
        } else {
            rest
        }
    }
}

impl CoordinatorState {
    /// `p` is known to the coordinator in some capacity: waiting in the
    /// queue, or current or finished in the present round.
    pub open spec fn spec_is_known(self, p: Participant) -> bool {
        ||| has_queue_entry(self.queue@, p)
        ||| self.spec_is_current_contributor(p)
        ||| self.spec_is_current_verifier(p)
        ||| self.spec_is_finished_contributor(p)
        ||| self.spec_is_finished_verifier(p)
    }

    /// The error `drop_participant` answers in a given state, if any:
    /// `NotActive` for a known participant who is not current, `NotFound`
    /// for one the coordinator has never heard of.
    pub open spec fn spec_drop_error(self, p: Participant) -> Option<CoordinatorError> {
        if self.round_height == 0 {
            Some(CoordinatorError::NotInitialized)
        } else if self.spec_is_current_contributor(p) || self.spec_is_current_verifier(p) {
            None
        } else if self.spec_is_known(p) {
            Some(CoordinatorError::NotActive)
        } else {
            Some(CoordinatorError::NotFound)
        }
    }

    /// The error a drop of a participant who is not current answers:
    /// `NotActive` when they are queued or finished, `NotFound` otherwise.
    fn drop_error_when_not_current(&self, participant: &Participant) -> (e: CoordinatorError)
        requires
            !self.spec_is_current_contributor(*participant),
            !self.spec_is_current_verifier(*participant),
        ensures
            e == (if self.spec_is_known(*participant) {
                CoordinatorError::NotActive
            } else {
                CoordinatorError::NotFound
            }),
    {
        if find_queue_entry(&self.queue, participant).is_some() {
            return CoordinatorError::NotActive;
        }
        let finished = match participant {
            Participant::Contributor(_) => find_participant(
                &self.finished_contributors,
                participant,
            ).is_some(),
            Participant::Verifier(_) => find_participant(
                &self.finished_verifiers,
                participant,
            ).is_some(),
        };
        if finished {
            CoordinatorError::NotActive
        } else {
            CoordinatorError::NotFound
        }
    }

    /// How dropping the current contributor `p` changes the state: their
    /// slot leaves the current set, their backlog tasks (the contributions
    /// made but not yet verified) are removed, and exactly those tasks'
    /// locators are reported invalidated. The verified chain, the finished
    /// sets, the queue and the round height are untouched.
    pub open spec fn spec_after_drop_contributor(
        pre: CoordinatorState,
        post: CoordinatorState,
        p: Participant,
        locators: Seq<Locator>,
    ) -> bool {
        let cc = pre.current_contributors@;
        let i = slot_index(cc, p.key());
        &&& post.current_contributors@ == cc.remove(i)
        &&& post.pending_verification@ == tasks_without(pre.pending_verification@, p.key())
        &&& locators == locators_of(pre.pending_verification@, p.key())
        &&& post == (CoordinatorState {
            current_contributors: post.current_contributors,
            pending_verification: post.pending_verification,
            ..pre
        })
    }

    /// How dropping the current verifier `p` changes the state: they leave
    /// the current verifier set and nothing else moves — contributions stay
    /// valid, and their verification is simply done by someone else later.
    pub open spec fn spec_after_drop_verifier(
        pre: CoordinatorState,
        post: CoordinatorState,
        p: Participant,
    ) -> bool {
        let cv = pre.current_verifiers@;
        let i = participant_index(cv, p);
        &&& post.current_verifiers@ == cv.remove(i)
        &&& post == (CoordinatorState { current_verifiers: post.current_verifiers, ..pre })
    }

    /// Removes a participant from the current round with compensating
    /// cleanup. A dropped contributor's unverified in-flight work is rolled
    /// back: the ordered list of exactly those invalidated locators is
    /// returned for the caller to purge, while chunks already verified stay
    /// part of the chain for good. A dropped verifier leaves the backlog
    /// untouched. The participant is removed from the current sets entirely,
    /// neither finished nor re-queued; the call fails with `NotActive` when
    /// they are not current, changing nothing. The round height never
    /// changes.
    pub fn drop_participant(&mut self, participant: &Participant) -> (r: Result<
        Vec<Locator>,
        CoordinatorError,
    >)
        requires
            old(self).wf(),
        ensures
            final(self).wf(),
            final(self).round_height == old(self).round_height,
            match old(self).spec_drop_error(*participant) {
                Some(e) => r == Result::<Vec<Locator>, CoordinatorError>::Err(e) && *final(self)
                    == *old(self),
                None => {
                    &&& r is Ok
                    &&& participant.is_contributor()
                        ==> CoordinatorState::spec_after_drop_contributor(
                        *old(self),
                        *final(self),
                        *participant,
                        r->Ok_0@,
                    )
                    &&& participant.is_verifier() ==> CoordinatorState::spec_after_drop_verifier(
                        *old(self),
                        *final(self),
                        *participant,
                    ) && r->Ok_0@.len() == 0
                },
            },
    {
        if self.round_height == 0 {
            return Err(CoordinatorError::NotInitialized);
        }
        match participant {
            Participant::Contributor(_) => self.drop_contributor(participant),
            Participant::Verifier(_) => {
                let i = match find_participant(&self.current_verifiers, participant) {
                    Some(i) => i,
                    None => {
                        return Err(self.drop_error_when_not_current(participant));
                    },
                };
                let ghost pre = *self;
                let _ = self.current_verifiers.remove(i);
                proof {
                    let cv = pre.current_verifiers@;
                    lemma_participant_index_of(cv, *participant);
                    assert(participant_index(cv, *participant) == i as int) by {
                        assert(cv[participant_index(cv, *participant)].key() == participant.key());
                        assert(cv[i as int].key() == participant.key());
                        assert(distinct_participants(cv));
                    }
                    lemma_participants_remove(cv, i as int);
                }
                Ok(Vec::new())
            },
        }
    }

    /// The contributor arm of `drop_participant`.
    fn drop_contributor(&mut self, participant: &Participant) -> (r: Result<
        Vec<Locator>,
        CoordinatorError,
    >)
        requires
            old(self).wf(),
            old(self).round_height != 0,
            participant.is_contributor(),
        ensures
            final(self).wf(),
            final(self).round_height == old(self).round_height,
            match old(self).spec_drop_error(*participant) {
                Some(e) => r == Result::<Vec<Locator>, CoordinatorError>::Err(e) && *final(self)
                    == *old(self),
                None => r is Ok && CoordinatorState::spec_after_drop_contributor(
                    *old(self),
                    *final(self),
                    *participant,
                    r->Ok_0@,
                ),
            },
    {
        let i = match find_slot(&self.current_contributors, participant) {
            Some(i) => i,
            None => {
                return Err(self.drop_error_when_not_current(participant));
            },
        };
        let ghost pre = *self;
        proof {
            lemma_slot_index_unique(pre.current_contributors@, i as int);
        }
        let _ = self.current_contributors.remove(i);
        let invalidated = filter_backlog(&mut self.pending_verification, participant);
        proof {
            lemma_drop_contributor_wf(pre, *self, *participant, i as int);
        }
        Ok(invalidated)
    }
}

/// Splits the backlog: every task of `participant` leaves it and their
/// locators are returned in backlog order; every other task stays, in order.
fn filter_backlog(tasks: &mut Vec<Task>, participant: &Participant) -> (invalidated: Vec<Locator>)
    ensures
        final(tasks)@ == tasks_without(old(tasks)@, participant.key()),
        invalidated@ == locators_of(old(tasks)@, participant.key()),
{
    let ghost ts = tasks@;
    let ghost key = participant.key();
    let mut kept: Vec<Task> = Vec::new();
    let mut invalidated: Vec<Locator> = Vec::new();
    let mut k: usize = 0;
    while k < tasks.len()
        invariant
            k <= ts.len(),
            tasks@ == ts,
            kept@ == tasks_without(ts.subrange(0, k as int), key),
            invalidated@ == locators_of(ts.subrange(0, k as int), key),
            key == participant.key(),
        decreases ts.len() - k,
    {
        proof {
            assert(ts.subrange(0, k + 1).drop_last() =~= ts.subrange(0, k as int));
            assert(ts.subrange(0, k + 1).last() == ts[k as int]);
        }
        if tasks[k].contributor == *participant {
            let locator = Locator {
                round: tasks[k].locator.round,
                chunk: tasks[k].locator.chunk,
                contributor: tasks[k].locator.contributor.clone(),
            };
            proof {
                assert(locator == ts[k as int].locator);
            }
            invalidated.push(locator);
        } else {
            let task = Task {
                chunk: tasks[k].chunk,
                contributor: tasks[k].contributor.clone(),
                locator: Locator {
                    round: tasks[k].locator.round,
                    chunk: tasks[k].locator.chunk,
                    contributor: tasks[k].locator.contributor.clone(),
                },
            };
            proof {
                assert(task == ts[k as int]);
            }
            kept.push(task);
        }
        k = k + 1;
    }
    proof {
        assert(ts.subrange(0, ts.len() as int) =~= ts);
    }
    *tasks = kept;
    invalidated
}

// ---------------------------------------------------------------------------
// Round advancement.
// ---------------------------------------------------------------------------

/// A contributor slot is done once every chunk of the round is contributed
/// and verified.
pub open spec fn slot_done(slot: ContributorSlot, chunks: u64) -> bool {
    slot.cursor == chunks && !slot.pending
}

/// The participants behind a sequence of contributor slots, in order.
pub open spec fn slot_participants(s: Seq<ContributorSlot>) -> Seq<Participant>
    decreases s.len(),
{
    if s.len() == 0 {
        Seq::empty()
    } else {
        slot_participants(s.drop_last()).push(s.last().participant)
    }
}

/// The participants of `slot_participants` are the slots' participants,
/// index by index.
pub proof fn lemma_slot_participants_facts(s: Seq<ContributorSlot>)
    ensures
        slot_participants(s).len() == s.len(),
        forall|a: int| 0 <= a < s.len() ==> slot_participants(s)[a] == s[a].participant,
    decreases s.len(),
{
    if s.len() == 0 {
    } else {
        lemma_slot_participants_facts(s.drop_last());
        assert(forall|a: int| 0 <= a < s.len() - 1 ==> s.drop_last()[a] == s[a]);
    }
}

/// Fresh contributor slots for the queued contributors, in queue order;
/// everyone starts at chunk 0 with nothing pending.
pub open spec fn queued_contributor_slots(q: Seq<QueueEntry>) -> Seq<ContributorSlot>
    decreases q.len(),
{
    if q.len() == 0 {
        Seq::empty()
    } else {
        let rest = queued_contributor_slots(q.drop_last());
        if q.last().participant.is_contributor() {
            rest.push(
                ContributorSlot { participant: q.last().participant, cursor: 0, pending: false },
            )
        } else {
            rest
        }
    }
}

/// The queued verifiers, in queue order.
pub open spec fn queued_verifiers(q: Seq<QueueEntry>) -> Seq<Participant>
    decreases q.len(),
{
    if q.len() == 0 {
        Seq::empty()
    } else {
        let rest = queued_verifiers(q.drop_last());
        if q.last().participant.is_verifier() {
            rest.push(q.last().participant)
        } else {
            rest
        }
    }
}

/// The slots drained from a distinct queue mirror its contributors exactly:
/// fresh, distinct, and present in the queue; and every queued contributor
/// gets a slot.
pub proof fn lemma_queued_contributor_slots_facts(q: Seq<QueueEntry>)
    requires
        distinct_queue(q),
    ensures
        forall|a: int|
            0 <= a < queued_contributor_slots(q).len() ==> {
                &&& (#[trigger] queued_contributor_slots(q)[a]).participant.is_contributor()
                &&& queued_contributor_slots(q)[a].cursor == 0
                &&& !queued_contributor_slots(q)[a].pending
                &&& has_queue_entry(q, queued_contributor_slots(q)[a].participant)
            },
        forall|p: Participant|
            p.is_contributor() && has_queue_entry(q, p) ==> has_slot(
                queued_contributor_slots(q),
                p.key(),
            ),
        distinct_slots(queued_contributor_slots(q)),
    decreases q.len(),
{
    if q.len() == 0 {
    } else {
        let prefix = q.drop_last();
        assert(forall|a: int| 0 <= a < prefix.len() ==> prefix[a] == q[a]);
        lemma_queued_contributor_slots_facts(prefix);
        let w = queued_contributor_slots(q);
        let wp = queued_contributor_slots(prefix);
        assert forall|a: int| 0 <= a < w.len() implies {
            &&& (#[trigger] w[a]).participant.is_contributor()
            &&& w[a].cursor == 0
            &&& !w[a].pending
            &&& has_queue_entry(q, w[a].participant)
        } by {
            if a < wp.len() {
                assert(w[a] == wp[a]);
                let j = choose|j: int|
                    0 <= j < prefix.len() && (#[trigger] prefix[j]).participant.key()
                        == wp[a].participant.key();
                assert(q[j].participant.key() == w[a].participant.key());
            } else {
                assert(q[q.len() - 1].participant.key() == w[a].participant.key());
            }
        }
        assert forall|p: Participant| p.is_contributor() && has_queue_entry(q, p) implies has_slot(
            w,
            p.key(),
        ) by {
            let j = choose|j: int|
                0 <= j < q.len() && (#[trigger] q[j]).participant.key() == p.key();
            if j < q.len() - 1 {
                assert(prefix[j].participant.key() == p.key());
                assert(has_queue_entry(prefix, p));
                let a = choose|a: int|
                    0 <= a < wp.len() && (#[trigger] wp[a]).participant.key() == p.key();
                assert(w[a].participant.key() == p.key());
            } else {
                assert(w[w.len() - 1].participant.key() == p.key());
            }
        }
        assert forall|a: int, b: int|
            0 <= a < w.len() && 0 <= b < w.len() && a != b implies (
        #[trigger] w[a]).participant.key() != (#[trigger] w[b]).participant.key() by {
            if a < wp.len() && b < wp.len() {
                assert(w[a] == wp[a] && w[b] == wp[b]);
            } else {
                let o = if a < wp.len() {
                    a
                } else {
                    b
                };
                assert(w[o] == wp[o]);
                if wp[o].participant.key() == q.last().participant.key() {
                    let j = choose|j: int|
                        0 <= j < prefix.len() && (#[trigger] prefix[j]).participant.key()
                            == wp[o].participant.key();
                    assert(q[j].participant.key() == q[q.len() - 1].participant.key());
                }
            }
        }
    }
}

/// The verifiers drained from a distinct queue mirror its verifiers exactly.
pub proof fn lemma_queued_verifiers_facts(q: Seq<QueueEntry>)
    requires
        distinct_queue(q),
    ensures
        forall|a: int|
            0 <= a < queued_verifiers(q).len() ==> {
                &&& (#[trigger] queued_verifiers(q)[a]).is_verifier()
                &&& has_queue_entry(q, queued_verifiers(q)[a])
            },
        forall|p: Participant|
            p.is_verifier() && has_queue_entry(q, p) ==> has_participant(queued_verifiers(q), p),
        distinct_participants(queued_verifiers(q)),
    decreases q.len(),
{
    if q.len() == 0 {
    } else {
        let prefix = q.drop_last();
        assert(forall|a: int| 0 <= a < prefix.len() ==> prefix[a] == q[a]);
        lemma_queued_verifiers_facts(prefix);
        let w = queued_verifiers(q);
        let wp = queued_verifiers(prefix);
        assert forall|a: int| 0 <= a < w.len() implies {
            &&& (#[trigger] w[a]).is_verifier()
            &&& has_queue_entry(q, w[a])
        } by {
            if a < wp.len() {
                assert(w[a] == wp[a]);
                let j = choose|j: int|
                    0 <= j < prefix.len() && (#[trigger] prefix[j]).participant.key() == wp[a].key();
                assert(q[j].participant.key() == w[a].key());
            } else {
                assert(q[q.len() - 1].participant.key() == w[a].key());
            }
        }
        assert forall|p: Participant|
            p.is_verifier() && has_queue_entry(q, p) implies has_participant(w, p) by {
            let j = choose|j: int|
                0 <= j < q.len() && (#[trigger] q[j]).participant.key() == p.key();
            if j < q.len() - 1 {
                assert(prefix[j].participant.key() == p.key());
                assert(has_queue_entry(prefix, p));
                let a = choose|a: int| 0 <= a < wp.len() && (#[trigger] wp[a]).key() == p.key();
                assert(w[a].key() == p.key());
            } else {
                assert(w[w.len() - 1].key() == p.key());
            }
        }
        assert forall|a: int, b: int|
            0 <= a < w.len() && 0 <= b < w.len() && a != b implies (#[trigger] w[a]).key() != (
        #[trigger] w[b]).key() by {
            if a < wp.len() && b < wp.len() {
                assert(w[a] == wp[a] && w[b] == wp[b]);
            } else {
                let o = if a < wp.len() {
                    a
                } else {
                    b
                };
                assert(w[o] == wp[o]);
                if wp[o].key() == q.last().participant.key() {
                    let j = choose|j: int|
                        0 <= j < prefix.len() && (#[trigger] prefix[j]).participant.key()
                            == wp[o].key();
                    assert(q[j].participant.key() == q[q.len() - 1].participant.key());
                }
            }
        }
    }
}

/// Nothing waits in an empty queue.
pub proof fn lemma_num_queue_empty(q: Seq<QueueEntry>)
    requires
        q.len() == 0,
    ensures
        num_queue_contributors(q) == 0,
        num_queue_verifiers(q) == 0,
{
}

/// In a two-entry queue of one contributor followed by one verifier, each
/// count is one.
pub proof fn lemma_num_queue_two(q: Seq<QueueEntry>)
    requires
        q.len() == 2,
        q[0].participant.is_contributor(),
        q[1].participant.is_verifier(),
    ensures
        num_queue_contributors(q) == 1,
        num_queue_verifiers(q) == 1,
{
    reveal_with_fuel(num_queue_contributors, 3);
    reveal_with_fuel(num_queue_verifiers, 3);
    assert(q.drop_last() =~= seq![q[0]]);
    assert(seq![q[0]].drop_last() =~= Seq::<QueueEntry>::empty());
}

/// Draining a two-entry queue of one contributor followed by one verifier
/// yields one fresh slot and one verifier.
pub proof fn lemma_queued_two(q: Seq<QueueEntry>)
    requires
        q.len() == 2,
        q[0].participant.is_contributor(),
        q[1].participant.is_verifier(),
    ensures
        queued_contributor_slots(q) == seq![
            ContributorSlot { participant: q[0].participant, cursor: 0, pending: false },
        ],
        queued_verifiers(q) == seq![q[1].participant],
{
    reveal_with_fuel(queued_contributor_slots, 3);
    reveal_with_fuel(queued_verifiers, 3);
    assert(q.drop_last() =~= seq![q[0]]);
    assert(seq![q[0]].drop_last() =~= Seq::<QueueEntry>::empty());
    assert(queued_contributor_slots(q) =~= seq![
        ContributorSlot { participant: q[0].participant, cursor: 0, pending: false },
    ]);
    assert(queued_verifiers(q) =~= seq![q[1].participant]);
}

/// In a three-entry queue of two contributors followed by one verifier,
/// the counts are two and one.
pub proof fn lemma_num_queue_ccv(q: Seq<QueueEntry>)
    requires
        q.len() == 3,
        q[0].participant.is_contributor(),
        q[1].participant.is_contributor(),
        q[2].participant.is_verifier(),
    ensures
        num_queue_contributors(q) == 2,
        num_queue_verifiers(q) == 1,
{
    reveal_with_fuel(num_queue_contributors, 4);
    reveal_with_fuel(num_queue_verifiers, 4);
    assert(q.drop_last() =~= seq![q[0], q[1]]);
    assert(seq![q[0], q[1]].drop_last() =~= seq![q[0]]);
    assert(seq![q[0]].drop_last() =~= Seq::<QueueEntry>::empty());
}

/// Draining a three-entry queue of two contributors followed by one
/// verifier yields two fresh slots, in queue order, and one verifier.
pub proof fn lemma_queued_ccv(q: Seq<QueueEntry>)
    requires
        q.len() == 3,
        q[0].participant.is_contributor(),
        q[1].participant.is_contributor(),
        q[2].participant.is_verifier(),
    ensures
        queued_contributor_slots(q) == seq![
            ContributorSlot { participant: q[0].participant, cursor: 0, pending: false },
            ContributorSlot { participant: q[1].participant, cursor: 0, pending: false },
        ],
        queued_verifiers(q) == seq![q[2].participant],
{
    reveal_with_fuel(queued_contributor_slots, 4);
    reveal_with_fuel(queued_verifiers, 4);
    assert(q.drop_last() =~= seq![q[0], q[1]]);
    assert(seq![q[0], q[1]].drop_last() =~= seq![q[0]]);
    assert(seq![q[0]].drop_last() =~= Seq::<QueueEntry>::empty());
    assert(queued_contributor_slots(q) =~= seq![
        ContributorSlot { participant: q[0].participant, cursor: 0, pending: false },
        ContributorSlot { participant: q[1].participant, cursor: 0, pending: false },
    ]);
    assert(queued_verifiers(q) =~= seq![q[2].participant]);
}

impl CoordinatorState {
    /// The current round is complete: every current contributor is done
    /// with every chunk, and the verification backlog is drained.
    pub open spec fn spec_round_complete(self) -> bool {
        &&& forall|i: int|
            0 <= i < self.current_contributors@.len() ==> slot_done(
                #[trigger] self.current_contributors@[i],
                self.chunks(),
            )
        &&& self.pending_verification@.len() == 0
    }

    /// The queue can populate a workable next round: it holds at least one
    /// contributor and at least one verifier.
    pub open spec fn spec_queue_ready(self) -> bool {
        &&& exists|i: int|
            0 <= i < self.queue@.len() && (#[trigger] self.queue@[i]).participant.is_contributor()
        &&& exists|i: int|
            0 <= i < self.queue@.len() && (#[trigger] self.queue@[i]).participant.is_verifier()
    }

    /// Whether the current round is complete.
    fn round_complete(&self) -> (r: bool)
        ensures
            r == self.spec_round_complete(),
    {
        if !self.pending_verification.is_empty() {
            return false;
        }
        let mut i: usize = 0;
        while i < self.current_contributors.len()
            invariant
                i <= self.current_contributors@.len(),
                forall|j: int|
                    0 <= j < i ==> slot_done(#[trigger] self.current_contributors@[j], self.chunks()),
            decreases self.current_contributors@.len() - i,
        {
            if self.current_contributors[i].pending || self.current_contributors[i].cursor
                != self.environment.number_of_chunks {
                return false;
            }
            i = i + 1;
        }
        true
    }

    /// Whether the queue holds a contributor and a verifier.
    fn queue_ready(&self) -> (r: bool)
        ensures
            r == self.spec_queue_ready(),
    {
        let mut has_c = false;
        let mut has_v = false;
        let mut i: usize = 0;
        while i < self.queue.len()
            invariant
                i <= self.queue@.len(),
                has_c == exists|j: int|
                    0 <= j < i && (#[trigger] self.queue@[j]).participant.is_contributor(),
                has_v == exists|j: int|
                    0 <= j < i && (#[trigger] self.queue@[j]).participant.is_verifier(),
            decreases self.queue@.len() - i,
        {
            match &self.queue[i].participant {
                Participant::Contributor(_) => {
                    has_c = true;
                },
                Participant::Verifier(_) => {
                    has_v = true;
                },
            }
            i = i + 1;
        }
        has_c && has_v
    }

    /// Moves every participant of the complete current round into the
    /// finished sets, in order.
    fn finish_current_participants(&mut self)
        requires
            old(self).wf(),
            old(self).round_height != 0,
            old(self).spec_round_complete(),
        ensures
            final(self).wf(),
            final(self).spec_round_complete(),
            final(self).finished_contributors@ == old(self).finished_contributors@
                + slot_participants(old(self).current_contributors@),
            final(self).finished_verifiers@ == old(self).finished_verifiers@ + old(
                self,
            ).current_verifiers@,
            final(self).current_contributors@.len() == 0,
            final(self).current_verifiers@.len() == 0,
            *final(self) == (CoordinatorState {
                current_contributors: final(self).current_contributors,
                current_verifiers: final(self).current_verifiers,
                finished_contributors: final(self).finished_contributors,
                finished_verifiers: final(self).finished_verifiers,
                ..*old(self)
            }),
    {
        let ghost pre = *self;
        let mut i: usize = 0;
        while i < self.current_contributors.len()
            invariant
                i <= pre.current_contributors@.len(),
                self.current_contributors@ == pre.current_contributors@,
                self.finished_contributors@ == pre.finished_contributors@ + slot_participants(
                    pre.current_contributors@.subrange(0, i as int),
                ),
                *self == (CoordinatorState {
                    finished_contributors: self.finished_contributors,
                    ..pre
                }),
            decreases pre.current_contributors@.len() - i,
        {
            proof {
                assert(pre.current_contributors@.subrange(0, i + 1).drop_last()
                    =~= pre.current_contributors@.subrange(0, i as int));
                assert(pre.current_contributors@.subrange(0, i + 1).last()
                    == pre.current_contributors@[i as int]);
            }
            let p = self.current_contributors[i].participant.clone();
            self.finished_contributors.push(p);
            i = i + 1;
        }
        proof {
            assert(pre.current_contributors@.subrange(0, pre.current_contributors@.len() as int)
                =~= pre.current_contributors@);
        }
        self.current_contributors.clear();
        self.finished_verifiers.append(&mut self.current_verifiers);
        proof {
            lemma_finish_wf(pre, *self);
        }
    }
}

/// Moving a complete round's current participants into the finished sets
/// preserves the coordinator's invariant.
proof fn lemma_finish_wf(pre: CoordinatorState, post: CoordinatorState)
    requires
        pre.wf(),
        pre.round_height != 0,
        pre.spec_round_complete(),
        post.finished_contributors@ == pre.finished_contributors@ + slot_participants(
            pre.current_contributors@,
        ),
        post.finished_verifiers@ == pre.finished_verifiers@ + pre.current_verifiers@,
        post.current_contributors@.len() == 0,
        post.current_verifiers@.len() == 0,
        post == (CoordinatorState {
            current_contributors: post.current_contributors,
            current_verifiers: post.current_verifiers,
            finished_contributors: post.finished_contributors,
            finished_verifiers: post.finished_verifiers,
            ..pre
        }),
    ensures
        post.wf(),
{
    let cc = pre.current_contributors@;
    let sp = slot_participants(cc);
    lemma_slot_participants_facts(cc);
    let fc2 = post.finished_contributors@;
    let fv2 = post.finished_verifiers@;
    assert forall|a: int| 0 <= a < fc2.len() implies (#[trigger] fc2[a]).is_contributor() by {
        if a >= pre.finished_contributors@.len() {
            assert(fc2[a] == cc[a - pre.finished_contributors@.len()].participant);
        }
    }
    assert forall|a: int, b: int|
        0 <= a < fc2.len() && 0 <= b < fc2.len() && a != b implies (#[trigger] fc2[a]).key() != (
    #[trigger] fc2[b]).key() by {
        let n = pre.finished_contributors@.len() as int;
        if a < n && b < n {
        } else if a >= n && b >= n {
            assert(fc2[a] == cc[a - n].participant);
            assert(fc2[b] == cc[b - n].participant);
        } else {
            let af = if a < n {
                a
            } else {
                b
            };
            let as_ = if a < n {
                b
            } else {
                a
            };
            assert(fc2[as_] == cc[as_ - n].participant);
            assert(!has_participant(pre.finished_contributors@, cc[as_ - n].participant));
        }
    }
    assert forall|a: int, b: int|
        0 <= a < fv2.len() && 0 <= b < fv2.len() && a != b implies (#[trigger] fv2[a]).key() != (
    #[trigger] fv2[b]).key() by {
        let n = pre.finished_verifiers@.len() as int;
        if a < n && b < n {
        } else if a >= n && b >= n {
            assert(fv2[a] == pre.current_verifiers@[a - n]);
            assert(fv2[b] == pre.current_verifiers@[b - n]);
        } else {
            let as_ = if a < n {
                b
            } else {
                a
            };
            assert(fv2[as_] == pre.current_verifiers@[as_ - n]);
            assert(!has_participant(pre.finished_verifiers@, pre.current_verifiers@[as_ - n]));
        }
    }
    assert(forall|a: int|
        0 <= a < fv2.len() ==> (#[trigger] fv2[a]).is_verifier());
}

impl CoordinatorState {
    /// Whether `p` may be admitted into the running round: they are not
    /// already current or finished in it, in their role.
    pub open spec fn eligible_for_round(self, p: Participant) -> bool {
        if p.is_contributor() {
            !has_slot(self.current_contributors@, p.key()) && !has_participant(
                self.finished_contributors@,
                p,
            )
        } else {
            !has_participant(self.current_verifiers@, p) && !has_participant(
                self.finished_verifiers@,
                p,
            )
        }
    }
}

/// Fresh slots for the queued contributors that may be admitted into the
/// running round of `pre`, in queue order.
pub open spec fn drained_contributors(pre: CoordinatorState, q: Seq<QueueEntry>) -> Seq<
    ContributorSlot,
>
    decreases q.len(),
{
    if q.len() == 0 {
        Seq::empty()
    } else {
        let rest = drained_contributors(pre, q.drop_last());
        let p = q.last().participant;
        if p.is_contributor() && pre.eligible_for_round(p) {
            rest.push(ContributorSlot { participant: p, cursor: 0, pending: false })
        } else {
            rest
        }
    }
}

/// The queued verifiers that may be admitted into the running round of
/// `pre`, in queue order.
pub open spec fn drained_verifiers(pre: CoordinatorState, q: Seq<QueueEntry>) -> Seq<Participant>
    decreases q.len(),
{
    if q.len() == 0 {
        Seq::empty()
    } else {
        let rest = drained_verifiers(pre, q.drop_last());
        let p = q.last().participant;
        if p.is_verifier() && pre.eligible_for_round(p) {
            rest.push(p)
        } else {
            rest
        }
    }
}

/// The queue entries that stay waiting because their participant is still
/// current or finished in the running round of `pre`, in queue order.
pub open spec fn kept_queue(pre: CoordinatorState, q: Seq<QueueEntry>) -> Seq<QueueEntry>
    decreases q.len(),
{
    if q.len() == 0 {
        Seq::empty()
    } else {
        let rest = kept_queue(pre, q.drop_last());
        if pre.eligible_for_round(q.last().participant) {
            rest
        } else {
            rest.push(q.last())
        }
    }
}

/// What draining a distinct queue into the running round yields: fresh,
/// distinct, admissible contributor slots and verifiers, and a kept rest
/// that is a distinct subset of the queue.
pub proof fn lemma_drained_facts(pre: CoordinatorState, q: Seq<QueueEntry>)
    requires
        distinct_queue(q),
    ensures
        forall|a: int|
            0 <= a < drained_contributors(pre, q).len() ==> {
                &&& (#[trigger] drained_contributors(pre, q)[a]).participant.is_contributor()
                &&& drained_contributors(pre, q)[a].cursor == 0
                &&& !drained_contributors(pre, q)[a].pending
                &&& pre.eligible_for_round(drained_contributors(pre, q)[a].participant)
                &&& has_queue_entry(q, drained_contributors(pre, q)[a].participant)
            },
        distinct_slots(drained_contributors(pre, q)),
        forall|a: int|
            0 <= a < drained_verifiers(pre, q).len() ==> {
                &&& (#[trigger] drained_verifiers(pre, q)[a]).is_verifier()
                &&& pre.eligible_for_round(drained_verifiers(pre, q)[a])
                &&& has_queue_entry(q, drained_verifiers(pre, q)[a])
            },
        distinct_participants(drained_verifiers(pre, q)),
        forall|a: int|
            0 <= a < kept_queue(pre, q).len() ==> exists|j: int|
                0 <= j < q.len() && q[j] == (#[trigger] kept_queue(pre, q)[a]),
        distinct_queue(kept_queue(pre, q)),
    decreases q.len(),
{
    if q.len() == 0 {
    } else {
        let prefix = q.drop_last();
        assert(forall|a: int| 0 <= a < prefix.len() ==> prefix[a] == q[a]);
        lemma_drained_facts(pre, prefix);
        let dc = drained_contributors(pre, q);
        let dcp = drained_contributors(pre, prefix);
        let dv = drained_verifiers(pre, q);
        let dvp = drained_verifiers(pre, prefix);
        let kq = kept_queue(pre, q);
        let kqp = kept_queue(pre, prefix);
        assert forall|a: int| 0 <= a < dc.len() implies {
            &&& (#[trigger] dc[a]).participant.is_contributor()
            &&& dc[a].cursor == 0
            &&& !dc[a].pending
            &&& pre.eligible_for_round(dc[a].participant)
            &&& has_queue_entry(q, dc[a].participant)
        } by {
            if a < dcp.len() {
                assert(dc[a] == dcp[a]);
                let j = choose|j: int|
                    0 <= j < prefix.len() && (#[trigger] prefix[j]).participant.key()
                        == dcp[a].participant.key();
                assert(q[j].participant.key() == dc[a].participant.key());
            } else {
                assert(q[q.len() - 1].participant.key() == dc[a].participant.key());
            }
        }
        assert forall|a: int, b: int|
            0 <= a < dc.len() && 0 <= b < dc.len() && a != b implies (
        #[trigger] dc[a]).participant.key() != (#[trigger] dc[b]).participant.key() by {
            if a < dcp.len() && b < dcp.len() {
                assert(dc[a] == dcp[a] && dc[b] == dcp[b]);
            } else {
                let o = if a < dcp.len() {
                    a
                } else {
                    b
                };
                assert(dc[o] == dcp[o]);
                if dcp[o].participant.key() == q.last().participant.key() {
                    let j = choose|j: int|
                        0 <= j < prefix.len() && (#[trigger] prefix[j]).participant.key()
                            == dcp[o].participant.key();
                    assert(q[j].participant.key() == q[q.len() - 1].participant.key());
                }
            }
        }
        assert forall|a: int| 0 <= a < dv.len() implies {
            &&& (#[trigger] dv[a]).is_verifier()
            &&& pre.eligible_for_round(dv[a])
            &&& has_queue_entry(q, dv[a])
        } by {
            if a < dvp.len() {
                assert(dv[a] == dvp[a]);
                let j = choose|j: int|
                    0 <= j < prefix.len() && (#[trigger] prefix[j]).participant.key()
                        == dvp[a].key();
                assert(q[j].participant.key() == dv[a].key());
            } else {
                assert(q[q.len() - 1].participant.key() == dv[a].key());
            }
        }
        assert forall|a: int, b: int|
            0 <= a < dv.len() && 0 <= b < dv.len() && a != b implies (#[trigger] dv[a]).key() != (
        #[trigger] dv[b]).key() by {
            if a < dvp.len() && b < dvp.len() {
                assert(dv[a] == dvp[a] && dv[b] == dvp[b]);
            } else {
                let o = if a < dvp.len() {
                    a
                } else {
                    b
                };
                assert(dv[o] == dvp[o]);
                if dvp[o].key() == q.last().participant.key() {
                    let j = choose|j: int|
                        0 <= j < prefix.len() && (#[trigger] prefix[j]).participant.key()
                            == dvp[o].key();
                    assert(q[j].participant.key() == q[q.len() - 1].participant.key());
                }
            }
        }
        assert forall|a: int| 0 <= a < kq.len() implies exists|j: int|
            0 <= j < q.len() && q[j] == (#[trigger] kq[a]) by {
            if a < kqp.len() {
                assert(kq[a] == kqp[a]);
                let j = choose|j: int| 0 <= j < prefix.len() && prefix[j] == kqp[a];
                assert(q[j] == kq[a]);
            } else {
                assert(q[q.len() - 1] == kq[a]);
            }
        }
        assert forall|a: int, b: int|
            0 <= a < kq.len() && 0 <= b < kq.len() && a != b implies (
        #[trigger] kq[a]).participant.key() != (#[trigger] kq[b]).participant.key() by {
            let ja = choose|j: int| 0 <= j < q.len() && q[j] == kq[a];
            let jb = choose|j: int| 0 <= j < q.len() && q[j] == kq[b];
            if a < kqp.len() && b < kqp.len() {
                assert(kq[a] == kqp[a] && kq[b] == kqp[b]);
            } else {
                let o = if a < kqp.len() {
                    a
                } else {
                    b
                };
                let last = if a < kqp.len() {
                    b
                } else {
                    a
                };
                assert(kq[o] == kqp[o]);
                assert(kq[last] == q[q.len() - 1]);
                let j = choose|j: int| 0 <= j < prefix.len() && prefix[j] == kqp[o];
                assert(q[j] == kq[o]);
                assert(j < q.len() - 1);
            }
        }
    }
}

/// Admitting the drained queue into the running round preserves the
/// coordinator's invariant.
proof fn lemma_drain_wf(pre: CoordinatorState, post: CoordinatorState)
    requires
        pre.wf(),
        pre.round_height != 0,
        post.current_contributors@ == pre.current_contributors@ + drained_contributors(
            pre,
            pre.queue@,
        ),
        post.current_verifiers@ == pre.current_verifiers@ + drained_verifiers(pre, pre.queue@),
        post.queue@ == kept_queue(pre, pre.queue@),
        post == (CoordinatorState {
            queue: post.queue,
            current_contributors: post.current_contributors,
            current_verifiers: post.current_verifiers,
            ..pre
        }),
    ensures
        post.wf(),
{
    let cc = pre.current_contributors@;
    let dc = drained_contributors(pre, pre.queue@);
    let cv = pre.current_verifiers@;
    let dv = drained_verifiers(pre, pre.queue@);
    let cc2 = post.current_contributors@;
    let cv2 = post.current_verifiers@;
    let ts = pre.pending_verification@;
    let n = cc.len() as int;
    let m = cv.len() as int;
    lemma_drained_facts(pre, pre.queue@);
    assert forall|a: int| 0 <= a < cc2.len() implies {
        &&& (#[trigger] cc2[a]).participant.is_contributor()
        &&& cc2[a].cursor <= post.chunks()
        &&& cc2[a].pending ==> cc2[a].cursor < post.chunks()
        &&& !has_participant(post.finished_contributors@, cc2[a].participant)
    } by {
        if a < n {
            assert(cc2[a] == cc[a]);
        } else {
            assert(cc2[a] == dc[a - n]);
        }
    }
    assert forall|a: int, b: int|
        0 <= a < cc2.len() && 0 <= b < cc2.len() && a != b implies (
    #[trigger] cc2[a]).participant.key() != (#[trigger] cc2[b]).participant.key() by {
        if a < n && b < n {
        } else if a >= n && b >= n {
            assert(cc2[a] == dc[a - n] && cc2[b] == dc[b - n]);
        } else {
            let ao = if a < n {
                a
            } else {
                b
            };
            let an = if a < n {
                b
            } else {
                a
            };
            assert(cc2[ao] == cc[ao] && cc2[an] == dc[an - n]);
            if cc[ao].participant.key() == dc[an - n].participant.key() {
                assert(has_slot(cc, dc[an - n].participant.key()));
                assert(!pre.eligible_for_round(dc[an - n].participant));
            }
        }
    }
    assert forall|t: int| 0 <= t < ts.len() implies {
        &&& (#[trigger] ts[t]).contributor.is_contributor()
        &&& has_slot(cc2, ts[t].contributor.key())
        &&& cc2[slot_index(cc2, ts[t].contributor.key())].pending
        &&& cc2[slot_index(cc2, ts[t].contributor.key())].cursor == ts[t].chunk
    } by {
        let k = ts[t].contributor.key();
        lemma_slot_index_of(cc, k);
        let j = slot_index(cc, k);
        assert(cc2[j] == cc[j]);
        assert(has_slot(cc2, k));
        lemma_slot_index_unique(cc2, j);
    }
    assert forall|j: int| 0 <= j < cc2.len() && (#[trigger] cc2[j]).pending implies exists|t: int|
        0 <= t < ts.len() && (#[trigger] ts[t]).contributor.key() == cc2[j].participant.key() by {
        assert(j < n);
        assert(cc2[j] == cc[j]);
    }
    assert forall|a: int| 0 <= a < cv2.len() implies {
        &&& (#[trigger] cv2[a]).is_verifier()
        &&& !has_participant(post.finished_verifiers@, cv2[a])
    } by {
        if a < m {
            assert(cv2[a] == cv[a]);
        } else {
            assert(cv2[a] == dv[a - m]);
        }
    }
    assert forall|a: int, b: int|
        0 <= a < cv2.len() && 0 <= b < cv2.len() && a != b implies (#[trigger] cv2[a]).key() != (
    #[trigger] cv2[b]).key() by {
        if a < m && b < m {
        } else if a >= m && b >= m {
            assert(cv2[a] == dv[a - m] && cv2[b] == dv[b - m]);
        } else {
            let ao = if a < m {
                a
            } else {
                b
            };
            let an = if a < m {
                b
            } else {
                a
            };
            assert(cv2[ao] == cv[ao] && cv2[an] == dv[an - m]);
            if cv[ao].key() == dv[an - m].key() {
                assert(has_participant(cv, dv[an - m]));
                assert(!pre.eligible_for_round(dv[an - m]));
            }
        }
    }
}

impl CoordinatorState {
    /// Admits every eligible queued participant into the running round;
    /// participants who are still current or finished stay in the queue.
    fn drain_into_current_round(&mut self)
        requires
            old(self).wf(),
            old(self).round_height != 0,
        ensures
            final(self).wf(),
            final(self).current_contributors@ == old(self).current_contributors@
                + drained_contributors(*old(self), old(self).queue@),
            final(self).current_verifiers@ == old(self).current_verifiers@ + drained_verifiers(
                *old(self),
                old(self).queue@,
            ),
            final(self).queue@ == kept_queue(*old(self), old(self).queue@),
            *final(self) == (CoordinatorState {
                queue: final(self).queue,
                current_contributors: final(self).current_contributors,
                current_verifiers: final(self).current_verifiers,
                ..*old(self)
            }),
    {
        let ghost pre = *self;
        let mut new_cc: Vec<ContributorSlot> = Vec::new();
        let mut new_cv: Vec<Participant> = Vec::new();
        let mut kept: Vec<QueueEntry> = Vec::new();
        let mut i: usize = 0;
        while i < self.queue.len()
            invariant
                *self == pre,
                i <= pre.queue@.len(),
                new_cc@ == drained_contributors(pre, pre.queue@.subrange(0, i as int)),
                new_cv@ == drained_verifiers(pre, pre.queue@.subrange(0, i as int)),
                kept@ == kept_queue(pre, pre.queue@.subrange(0, i as int)),
            decreases pre.queue@.len() - i,
        {
            proof {
                assert(pre.queue@.subrange(0, i + 1).drop_last() =~= pre.queue@.subrange(
                    0,
                    i as int,
                ));
                assert(pre.queue@.subrange(0, i + 1).last() == pre.queue@[i as int]);
            }
            let p = self.queue[i].participant.clone();
            let priority = self.queue[i].priority;
            let is_contributor = match &p {
                Participant::Contributor(_) => true,
                Participant::Verifier(_) => false,
            };
            let eligible = if is_contributor {
                find_slot(&self.current_contributors, &p).is_none() && find_participant(
                    &self.finished_contributors,
                    &p,
                ).is_none()
            } else {
                find_participant(&self.current_verifiers, &p).is_none() && find_participant(
                    &self.finished_verifiers,
                    &p,
                ).is_none()
            };
            if eligible {
                if is_contributor {
                    new_cc.push(ContributorSlot { participant: p, cursor: 0, pending: false });
                } else {
                    new_cv.push(p);
                }
            } else {
                kept.push(QueueEntry { participant: p, priority });
            }
            i = i + 1;
        }
        proof {
            assert(pre.queue@.subrange(0, pre.queue@.len() as int) =~= pre.queue@);
        }
        self.queue = kept;
        self.current_contributors.append(&mut new_cc);
        self.current_verifiers.append(&mut new_cv);
        proof {
            lemma_drain_wf(pre, *self);
        }
    }

    /// Archives the complete, emptied round and opens the next one from the
    /// whole queue.
    fn advance_round(&mut self)
        requires
            old(self).wf(),
            old(self).round_height != 0,
            old(self).round_height < u64::MAX,
            old(self).current_contributors@.len() == 0,
            old(self).current_verifiers@.len() == 0,
            old(self).pending_verification@.len() == 0,
        ensures
            final(self).wf(),
            final(self).round_height == old(self).round_height + 1,
            final(self).current_contributors@ == queued_contributor_slots(old(self).queue@),
            final(self).current_verifiers@ == queued_verifiers(old(self).queue@),
            final(self).queue@.len() == 0,
            final(self).finished_contributors@.len() == 0,
            final(self).finished_verifiers@.len() == 0,
            final(self).pending_verification@.len() == 0,
            final(self).verified@.len() == 0,
            final(self).environment == old(self).environment,
            final(self).past_rounds@ == old(self).past_rounds@.push(final(self).past_rounds@.last()),
            final(self).past_rounds@.last().height == old(self).round_height,
            final(self).past_rounds@.last().finished_contributors@ == old(
                self,
            ).finished_contributors@,
            final(self).past_rounds@.last().finished_verifiers@ == old(self).finished_verifiers@,
            final(self).past_rounds@.last().verified@ == old(self).verified@,
    {
        let ghost pre = *self;
        let mut fc: Vec<Participant> = Vec::new();
        let mut fv: Vec<Participant> = Vec::new();
        let mut vd: Vec<Locator> = Vec::new();
        core::mem::swap(&mut self.finished_contributors, &mut fc);
        core::mem::swap(&mut self.finished_verifiers, &mut fv);
        core::mem::swap(&mut self.verified, &mut vd);
        let summary = RoundSummary {
            height: self.round_height,
            finished_contributors: fc,
            finished_verifiers: fv,
            verified: vd,
        };
        self.past_rounds.push(summary);
        self.round_height = self.round_height + 1;
        let mut q: Vec<QueueEntry> = Vec::new();
        core::mem::swap(&mut self.queue, &mut q);
        let ghost mid = *self;
        let mut i: usize = 0;
        while i < q.len()
            invariant
                i <= q@.len(),
                q@ == pre.queue@,
                self.current_contributors@ == queued_contributor_slots(q@.subrange(0, i as int)),
                self.current_verifiers@ == queued_verifiers(q@.subrange(0, i as int)),
                *self == (CoordinatorState {
                    current_contributors: self.current_contributors,
                    current_verifiers: self.current_verifiers,
                    ..mid
                }),
            decreases q@.len() - i,
        {
            proof {
                assert(q@.subrange(0, i + 1).drop_last() =~= q@.subrange(0, i as int));
                assert(q@.subrange(0, i + 1).last() == q@[i as int]);
            }
            let p = q[i].participant.clone();
            let is_contributor = match &p {
                Participant::Contributor(_) => true,
                Participant::Verifier(_) => false,
            };
            if is_contributor {
                self.current_contributors.push(
                    ContributorSlot { participant: p, cursor: 0, pending: false },
                );
            } else {
                self.current_verifiers.push(p);
            }
            i = i + 1;
        }
        proof {
            assert(q@.subrange(0, q@.len() as int) =~= q@);
            lemma_queued_contributor_slots_facts(pre.queue@);
            lemma_queued_verifiers_facts(pre.queue@);
        }
    }

    /// The ceremony's advancement step, driven on a cadence by an external
    /// scheduler. While the current round is incomplete it only admits
    /// eligible queued participants into it. Once every current contributor
    /// is done with every chunk and the verification backlog is drained, the
    /// current participants move to finished; if the queue can also seed a
    /// workable next round (a contributor and a verifier), the finished
    /// round is archived, the height grows by exactly one, and the whole
    /// queue is admitted into the fresh round. The height never decreases,
    /// and before `initialize` the call fails with `NotInitialized`.
    pub fn update(&mut self) -> (r: Result<(), CoordinatorError>)
        requires
            old(self).wf(),
        ensures
            final(self).wf(),
            old(self).round_height <= final(self).round_height,
            final(self).environment == old(self).environment,
            old(self).round_height == 0 ==> r == Result::<(), CoordinatorError>::Err(
                CoordinatorError::NotInitialized,
            ) && *final(self) == *old(self),
            old(self).round_height != 0 ==> r is Ok,
            old(self).round_height != 0 && !old(self).spec_round_complete() ==> {
                &&& final(self).current_contributors@ == old(self).current_contributors@
                    + drained_contributors(*old(self), old(self).queue@)
                &&& final(self).current_verifiers@ == old(self).current_verifiers@
                    + drained_verifiers(*old(self), old(self).queue@)
                &&& final(self).queue@ == kept_queue(*old(self), old(self).queue@)
                &&& *final(self) == (CoordinatorState {
                    queue: final(self).queue,
                    current_contributors: final(self).current_contributors,
                    current_verifiers: final(self).current_verifiers,
                    ..*old(self)
                })
            },
            old(self).round_height != 0 && old(self).spec_round_complete() && !(old(
                self,
            ).spec_queue_ready() && old(self).round_height < u64::MAX) ==> {
                &&& final(self).finished_contributors@ == old(self).finished_contributors@
                    + slot_participants(old(self).current_contributors@)
                &&& final(self).finished_verifiers@ == old(self).finished_verifiers@ + old(
                    self,
                ).current_verifiers@
                &&& final(self).current_contributors@.len() == 0
                &&& final(self).current_verifiers@.len() == 0
                &&& *final(self) == (CoordinatorState {
                    current_contributors: final(self).current_contributors,
                    current_verifiers: final(self).current_verifiers,
                    finished_contributors: final(self).finished_contributors,
                    finished_verifiers: final(self).finished_verifiers,
                    ..*old(self)
                })
            },
            old(self).round_height != 0 && old(self).spec_round_complete() && old(
                self,
            ).spec_queue_ready() && old(self).round_height < u64::MAX ==> {
                &&& final(self).round_height == old(self).round_height + 1
                &&& final(self).current_contributors@ == queued_contributor_slots(
                    old(self).queue@,
                )
                &&& final(self).current_verifiers@ == queued_verifiers(old(self).queue@)
                &&& final(self).queue@.len() == 0
                &&& final(self).finished_contributors@.len() == 0
                &&& final(self).finished_verifiers@.len() == 0
                &&& final(self).pending_verification@.len() == 0
                &&& final(self).verified@.len() == 0
                &&& final(self).past_rounds@ == old(self).past_rounds@.push(
                    final(self).past_rounds@.last(),
                )
                &&& final(self).past_rounds@.last().height == old(self).round_height
                &&& final(self).past_rounds@.last().finished_contributors@ == old(
                    self,
                ).finished_contributors@ + slot_participants(old(self).current_contributors@)
                &&& final(self).past_rounds@.last().finished_verifiers@ == old(
                    self,
                ).finished_verifiers@ + old(self).current_verifiers@
                &&& final(self).past_rounds@.last().verified@ == old(self).verified@
            },
    {
        if self.round_height == 0 {
            return Err(CoordinatorError::NotInitialized);
        }
        if !self.round_complete() {
            self.drain_into_current_round();
            return Ok(());
        }
        self.finish_current_participants();
        let ready = self.queue_ready();
        if !ready || self.round_height == u64::MAX {
            return Ok(());
        }
        self.advance_round();
        Ok(())
    }
}

// ---------------------------------------------------------------------------
// Laws.
// ---------------------------------------------------------------------------

/// Law: for either role, the current and finished sets are disjoint, so a
/// participant is in particular never simultaneously a member of the queue,
/// the current set, and the finished set of one role.
pub proof fn lemma_role_sets_disjoint(s: CoordinatorState, p: Participant)
    requires
        s.wf(),
    ensures
        !(s.spec_is_current_contributor(p) && s.spec_is_finished_contributor(p)),
        !(s.spec_is_current_verifier(p) && s.spec_is_finished_verifier(p)),
        !(s.spec_is_queue_contributor(p) && s.spec_is_current_contributor(p)
            && s.spec_is_finished_contributor(p)),
        !(s.spec_is_queue_verifier(p) && s.spec_is_current_verifier(p)
            && s.spec_is_finished_verifier(p)),
{
    if s.spec_is_current_contributor(p) {
        let cc = s.current_contributors@;
        let i = choose|i: int|
            0 <= i < cc.len() && (#[trigger] cc[i]).participant.key() == p.key();
        assert(!has_participant(s.finished_contributors@, cc[i].participant));
        if s.spec_is_finished_contributor(p) {
            let j = choose|j: int|
                0 <= j < s.finished_contributors@.len() && (
                #[trigger] s.finished_contributors@[j]).key() == p.key();
            assert(s.finished_contributors@[j].key() == cc[i].participant.key());
        }
    }
    if s.spec_is_current_verifier(p) {
        let cv = s.current_verifiers@;
        let i = choose|i: int| 0 <= i < cv.len() && (#[trigger] cv[i]).key() == p.key();
        assert(!has_participant(s.finished_verifiers@, cv[i]));
        if s.spec_is_finished_verifier(p) {
            let j = choose|j: int|
                0 <= j < s.finished_verifiers@.len() && (#[trigger] s.finished_verifiers@[j]).key()
                    == p.key();
            assert(s.finished_verifiers@[j].key() == cv[i].key());
        }
    }
}

/// Law: contributing twice in a row without an intervening verification of
/// the same chunk is impossible — after one successful contribution, a
/// second call by the same contributor answers `ChunkLocked` and changes
/// nothing.
pub proof fn lemma_contribute_twice_locked(
    s0: CoordinatorState,
    s1: CoordinatorState,
    p: Participant,
)
    requires
        s0.wf(),
        s0.spec_contribute_error(p) is None,
        CoordinatorState::spec_after_contribute(s0, s1, p),
    ensures
        s1.spec_contribute_error(p) == Some(CoordinatorError::ChunkLocked),
{
    let cc = s0.current_contributors@;
    let key = p.key();
    lemma_slot_index_of(cc, key);
    let i = slot_index(cc, key);
    let cc2 = s1.current_contributors@;
    assert(cc2[i].participant.key() == key);
    assert(has_slot(cc2, key));
    assert(distinct_slots(cc2)) by {
        assert(forall|a: int| 0 <= a < cc2.len() ==> (#[trigger] cc2[a]).participant.key() == cc[
            a].participant.key());
    }
    lemma_slot_index_unique(cc2, i);
    assert(cc2[slot_index(cc2, key)].pending);
}

/// Law: after a verification drains the oldest backlog entry, that entry's
/// contributor has advanced their cursor by exactly one chunk; when the
/// entry was their last chunk, the contributor is done with the round and
/// moves to finished at the next round-completion check.
pub proof fn lemma_verify_advances_cursor(s0: CoordinatorState, s1: CoordinatorState)
    requires
        s0.wf(),
        s0.pending_verification@.len() > 0,
        CoordinatorState::spec_after_verify(s0, s1),
    ensures
        ({
            let t = s0.pending_verification@[0];
            let i = slot_index(s0.current_contributors@, t.contributor.key());
            &&& s1.current_contributors@[i].cursor == s0.current_contributors@[i].cursor + 1
            &&& s0.current_contributors@[i].cursor + 1 == s0.chunks() ==> slot_done(
                s1.current_contributors@[i],
                s1.chunks(),
            )
        }),
{
    let t = s0.pending_verification@[0];
    lemma_slot_index_of(s0.current_contributors@, t.contributor.key());
}

/// Pointwise facts about removing index `j` from a participant sequence.
pub proof fn lemma_participants_remove(s: Seq<Participant>, j: int)
    requires
        0 <= j < s.len(),
    ensures
        forall|k: int| 0 <= k < j ==> s.remove(j)[k] == s[k],
        forall|k: int| j <= k < s.len() - 1 ==> s.remove(j)[k] == s[k + 1],
        distinct_participants(s) ==> distinct_participants(s.remove(j)),
{
    if distinct_participants(s) {
        assert forall|a: int, b: int|
            0 <= a < s.remove(j).len() && 0 <= b < s.remove(j).len() && a != b implies (
        #[trigger] s.remove(j)[a]).key() != (#[trigger] s.remove(j)[b]).key() by {
            let a0 = if a < j {
                a
            } else {
                a + 1
            };
            let b0 = if b < j {
                b
            } else {
                b + 1
            };
            assert(s.remove(j)[a] == s[a0]);
            assert(s.remove(j)[b] == s[b0]);
        }
    }
}

/// Dropping contributor slot `i` together with that contributor's backlog
/// tasks preserves the coordinator's invariant.
proof fn lemma_drop_contributor_wf(
    pre: CoordinatorState,
    post: CoordinatorState,
    p: Participant,
    i: int,
)
    requires
        pre.wf(),
        pre.round_height != 0,
        0 <= i < pre.current_contributors@.len(),
        pre.current_contributors@[i].participant.key() == p.key(),
        post.current_contributors@ == pre.current_contributors@.remove(i),
        post.pending_verification@ == tasks_without(pre.pending_verification@, p.key()),
        post == (CoordinatorState {
            current_contributors: post.current_contributors,
            pending_verification: post.pending_verification,
            ..pre
        }),
    ensures
        post.wf(),
{
    let cc = pre.current_contributors@;
    let cc2 = post.current_contributors@;
    let ts = pre.pending_verification@;
    let ts2 = post.pending_verification@;
    let key = p.key();
    lemma_tasks_without_facts(ts, key);
    assert forall|a: int| 0 <= a < cc2.len() implies {
        &&& (#[trigger] cc2[a]).participant.is_contributor()
        &&& cc2[a].cursor <= post.chunks()
        &&& cc2[a].pending ==> cc2[a].cursor < post.chunks()
        &&& !has_participant(post.finished_contributors@, cc2[a].participant)
    } by {
        let a0 = if a < i {
            a
        } else {
            a + 1
        };
        assert(cc2[a] == cc[a0]);
    }
    assert(distinct_slots(cc2)) by {
        assert forall|a: int, b: int|
            0 <= a < cc2.len() && 0 <= b < cc2.len() && a != b implies (
        #[trigger] cc2[a]).participant.key() != (#[trigger] cc2[b]).participant.key() by {
            let a0 = if a < i {
                a
            } else {
                a + 1
            };
            let b0 = if b < i {
                b
            } else {
                b + 1
            };
            assert(cc2[a] == cc[a0]);
            assert(cc2[b] == cc[b0]);
        }
    }
    assert forall|t: int| 0 <= t < ts2.len() implies {
        &&& (#[trigger] ts2[t]).contributor.is_contributor()
        &&& has_slot(cc2, ts2[t].contributor.key())
        &&& cc2[slot_index(cc2, ts2[t].contributor.key())].pending
        &&& cc2[slot_index(cc2, ts2[t].contributor.key())].cursor == ts2[t].chunk
    } by {
        let kk = ts2[t].contributor.key();
        let t0 = choose|t0: int| 0 <= t0 < ts.len() && ts[t0] == tasks_without(ts, key)[t];
        assert(ts[t0] == ts2[t]);
        assert(kk != key);
        lemma_slot_lookup_after_remove(cc, i, kk);
    }
    assert forall|j: int| 0 <= j < cc2.len() && (#[trigger] cc2[j]).pending implies exists|t: int|
        0 <= t < ts2.len() && (#[trigger] ts2[t]).contributor.key()
            == cc2[j].participant.key() by {
        let j0 = if j < i {
            j
        } else {
            j + 1
        };
        assert(cc2[j] == cc[j0]);
        let t0 = choose|t0: int|
            0 <= t0 < ts.len() && (#[trigger] ts[t0]).contributor.key()
                == cc[j0].participant.key();
        assert(ts[t0].contributor.key() != key);
        let t1 = choose|t1: int|
            0 <= t1 < tasks_without(ts, key).len() && tasks_without(ts, key)[t1] == ts[t0];
        assert(ts2[t1].contributor.key() == cc2[j].participant.key());
    }
}


/// Every task of `tasks_without(ts, key)` is a task of `ts` whose
/// contributor is not keyed `key`, and every such task of `ts` remains.
pub proof fn lemma_tasks_without_facts(ts: Seq<Task>, key: (bool, Seq<char>))
    ensures
        forall|t: int|
            0 <= t < tasks_without(ts, key).len() ==> (#[trigger] tasks_without(ts, key)[t]).contributor.key()
                != key && exists|t0: int| 0 <= t0 < ts.len() && ts[t0] == tasks_without(ts, key)[t],
        forall|t0: int|
            0 <= t0 < ts.len() && (#[trigger] ts[t0]).contributor.key() != key ==> exists|t: int|
                0 <= t < tasks_without(ts, key).len() && tasks_without(ts, key)[t] == ts[t0],
        distinct_tasks(ts) ==> distinct_tasks(tasks_without(ts, key)),
    decreases ts.len(),
{
    if ts.len() == 0 {
    } else {
        let prefix = ts.drop_last();
        lemma_tasks_without_facts(prefix, key);
        assert(forall|t0: int| 0 <= t0 < prefix.len() ==> prefix[t0] == ts[t0]);
        let w = tasks_without(ts, key);
        let wp = tasks_without(prefix, key);
        if ts.last().contributor.key() == key {
            assert(w == wp);
        } else {
            assert(w == wp.push(ts.last()));
            assert(forall|t: int| 0 <= t < wp.len() ==> w[t] == wp[t]);
            assert(w[w.len() - 1] == ts[ts.len() - 1]);
        }
        if distinct_tasks(ts) {
            assert(distinct_tasks(prefix)) by {
                assert(forall|t0: int| 0 <= t0 < prefix.len() ==> prefix[t0] == ts[t0]);
            }
        }
    }
}

} // verus!

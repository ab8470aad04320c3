use vstd::prelude::*;

use crate::coordinator::{
    lemma_num_queue_ccv, lemma_num_queue_empty, lemma_num_queue_two, lemma_queued_ccv,
    lemma_queued_two, lemma_slot_index_unique, CoordinatorError, CoordinatorState, Locator,
};
use crate::environment::{ContributionMode, CurveKind, Environment, ProvingSystem};
use crate::participant::Participant;

verus! {

/// Relies on std's `format!`: the result holds the characters of `a`
/// followed by the characters of `b`, and nothing else.
#[verifier::external_body]
fn concat_str(a: &str, b: &str) -> (r: String)
    ensures
        r@ == a@ + b@,
{
    format!("{}{}", a, b)
}

/// A contributor whose identity is `id` behind the shared test prefix.
pub fn create_contributor(id: &str) -> (p: Participant)
    ensures
        p.is_contributor(),
        p.name() == "test-contributor-"@ + id@,
{
    Participant::Contributor(concat_str("test-contributor-", id))
}

/// A verifier whose identity is `id` behind the shared test prefix.
pub fn create_verifier(id: &str) -> (p: Participant)
    ensures
        p.is_verifier(),
        p.name() == "test-verifier-"@ + id@,
{
    Participant::Verifier(concat_str("test-verifier-", id))
}

/// A small chunked ceremony configuration for round walkthroughs: power 7,
/// batches and chunks of 32, eight chunks per round, with current and
/// finished participants allowed back into the queue.
pub fn test_environment(proving_system: ProvingSystem, curve: CurveKind) -> (e: Environment)
    ensures
        e.number_of_chunks == 8,
        e.allow_current_contributors_in_queue,
        e.allow_current_verifiers_in_queue,
    {
    Environment::new(
        ContributionMode::Chunked,
        proving_system,
        curve,
        7,
        32,
        32,
        8,
        true,
        true,
    )
}

/// The shape of a freshly advanced or mid-protocol round that holds one
/// contributor and one verifier: the contributor's cursor stands at chunk
/// `k` with nothing pending, the queue and the finished sets are empty, and
/// the backlog is drained.
pub open spec fn two_party_round(
    s: CoordinatorState,
    env: Environment,
    height: u64,
    c: Participant,
    v: Participant,
    k: u64,
) -> bool {
    &&& s.wf()
    &&& s.environment == env
    &&& s.round_height == height
    &&& s.queue@.len() == 0
    &&& s.current_contributors@.len() == 1
    &&& s.current_contributors@[0].participant.key() == c.key()
    &&& s.current_contributors@[0].cursor == k
    &&& !s.current_contributors@[0].pending
    &&& s.current_verifiers@.len() == 1
    &&& s.current_verifiers@[0].key() == v.key()
    &&& s.finished_contributors@.len() == 0
    &&& s.finished_verifiers@.len() == 0
    &&& s.pending_verification@.len() == 0
}

/// Queues the pair: the contributor then the verifier, both at priority
/// 10, into an empty queue.
fn queue_pair(
    coordinator: &mut CoordinatorState,
    contributor: &Participant,
    verifier: &Participant,
) -> (r: Result<(), CoordinatorError>)
    requires
        old(coordinator).wf(),
        old(coordinator).queue@.len() == 0,
        old(coordinator).environment.allow_current_contributors_in_queue,
        old(coordinator).environment.allow_current_verifiers_in_queue,
        contributor.is_contributor(),
        verifier.is_verifier(),
    ensures
        r is Ok,
        final(coordinator).wf(),
        final(coordinator).queue@.len() == 2,
        final(coordinator).queue@[0].participant.key() == contributor.key(),
        final(coordinator).queue@[1].participant.key() == verifier.key(),
        final(coordinator).queue@[0].participant.is_contributor(),
        final(coordinator).queue@[1].participant.is_verifier(),
        *final(coordinator) == (CoordinatorState {
            queue: final(coordinator).queue,
            ..*old(coordinator)
        }),
{
    match coordinator.add_to_queue(contributor.clone(), 10) {
        Ok(_) => {},
        Err(e) => {
            return Err(e);
        },
    }
    match coordinator.add_to_queue(verifier.clone(), 10) {
        Ok(_) => {},
        Err(e) => {
            return Err(e);
        },
    }
    proof {
        lemma_num_queue_two(coordinator.queue@);
    }
    let n = coordinator.number_of_queue_contributors();
    assert(n == 1);
    let n = coordinator.number_of_queue_verifiers();
    assert(n == 1);
    Ok(())
}

/// Advances a complete round whose queue holds exactly the pair: the next
/// round opens with this contributor and this verifier current, both fresh.
fn advance_pair(
    coordinator: &mut CoordinatorState,
    contributor: &Participant,
    verifier: &Participant,
) -> (r: Result<(), CoordinatorError>)
    requires
        old(coordinator).wf(),
        old(coordinator).spec_round_complete(),
        1 <= old(coordinator).round_height < u64::MAX,
        old(coordinator).queue@.len() == 2,
        old(coordinator).queue@[0].participant.key() == contributor.key(),
        old(coordinator).queue@[1].participant.key() == verifier.key(),
        old(coordinator).queue@[0].participant.is_contributor(),
        old(coordinator).queue@[1].participant.is_verifier(),
        contributor.is_contributor(),
        verifier.is_verifier(),
    ensures
        r is Ok,
        two_party_round(
            *final(coordinator),
            old(coordinator).environment,
            (old(coordinator).round_height + 1) as u64,
            *contributor,
            *verifier,
            0,
        ),
{
    let ghost q2 = coordinator.queue@;
    match coordinator.update() {
        Ok(_) => {},
        Err(e) => {
            return Err(e);
        },
    }
    proof {
        lemma_queued_two(q2);
    }
    Ok(())
}

/// Queues the pair into a complete round and advances: the next round opens
/// with exactly this contributor and this verifier current, both fresh.
fn queue_pair_and_advance(
    coordinator: &mut CoordinatorState,
    contributor: &Participant,
    verifier: &Participant,
) -> (r: Result<(), CoordinatorError>)
    requires
        old(coordinator).wf(),
        old(coordinator).spec_round_complete(),
        1 <= old(coordinator).round_height < u64::MAX,
        old(coordinator).queue@.len() == 0,
        old(coordinator).environment.allow_current_contributors_in_queue,
        old(coordinator).environment.allow_current_verifiers_in_queue,
        contributor.is_contributor(),
        verifier.is_verifier(),
    ensures
        r is Ok,
        two_party_round(
            *final(coordinator),
            old(coordinator).environment,
            (old(coordinator).round_height + 1) as u64,
            *contributor,
            *verifier,
            0,
        ),
{
    match queue_pair(coordinator, contributor, verifier) {
        Ok(_) => {},
        Err(e) => {
            return Err(e);
        },
    }
    match advance_pair(coordinator, contributor, verifier) {
        Ok(_) => {},
        Err(e) => {
            return Err(e);
        },
    }
    Ok(())
}

/// One protocol cycle on the two-party round: the contributor contributes
/// to their next chunk and the verifier drains the one backlog entry, which
/// advances the cursor by exactly one.
fn contribute_and_verify_chunk(
    coordinator: &mut CoordinatorState,
    contributor: &Participant,
    verifier: &Participant,
    k: u64,
) -> (r: Result<(), CoordinatorError>)
    requires
        two_party_round(
            *old(coordinator),
            old(coordinator).environment,
            old(coordinator).round_height,
            *contributor,
            *verifier,
            k,
        ),
        k < old(coordinator).environment.number_of_chunks,
        contributor.is_contributor(),
        verifier.is_verifier(),
    ensures
        r is Ok,
        two_party_round(
            *final(coordinator),
            old(coordinator).environment,
            old(coordinator).round_height,
            *contributor,
            *verifier,
            (k + 1) as u64,
        ),
{
    proof {
        lemma_slot_index_unique(coordinator.current_contributors@, 0);
    }
    match coordinator.contribute(contributor) {
        Ok(_) => {},
        Err(e) => {
            return Err(e);
        },
    }
    proof {
        lemma_slot_index_unique(coordinator.current_contributors@, 0);
    }
    match coordinator.verify(verifier) {
        Ok(_) => {},
        Err(e) => {
            return Err(e);
        },
    }
    Ok(())
}

/// A full round walkthrough with one contributor and one verifier: the
/// ceremony initializes to round 1, admits both queued participants into
/// round 2, runs the contribute/verify protocol across every chunk, lets
/// both re-enter the queue while still current, and advances to round 3
/// with an empty queue. Every step, and every intermediate observation, is
/// proved rather than checked at run time.
pub fn execute_round_test(proving_system: ProvingSystem, curve: CurveKind) -> (r: Result<
    (),
    CoordinatorError,
>)
    ensures
        r is Ok,
{
    let environment = test_environment(proving_system, curve);
    let number_of_chunks = environment.number_of_chunks;
    let mut coordinator = CoordinatorState::new(environment);

    // Initialize the ceremony to round 1.
    let height = coordinator.current_round_height();
    assert(height == 0);
    match coordinator.initialize() {
        Ok(_) => {},
        Err(e) => {
            return Err(e);
        },
    }
    match coordinator.update() {
        Ok(_) => {},
        Err(e) => {
            return Err(e);
        },
    }
    let height = coordinator.current_round_height();
    assert(height == 1);

    // Add a contributor and verifier to the queue, and update to round 2.
    let contributor = create_contributor("1");
    let verifier = create_verifier("1");
    match queue_pair_and_advance(&mut coordinator, &contributor, &verifier) {
        Ok(_) => {},
        Err(e) => {
            return Err(e);
        },
    }
    let height = coordinator.current_round_height();
    assert(height == 2);
    proof {
        lemma_num_queue_empty(coordinator.queue@);
    }
    let n = coordinator.number_of_queue_contributors();
    assert(n == 0);
    let n = coordinator.number_of_queue_verifiers();
    assert(n == 0);

    // Contribute and verify each chunk in turn.
    let mut k: u64 = 0;
    while k < number_of_chunks
        invariant
            two_party_round(coordinator, environment, 2, contributor, verifier, k),
            number_of_chunks == environment.number_of_chunks,
            k <= number_of_chunks,
            contributor.is_contributor(),
            verifier.is_verifier(),
        decreases number_of_chunks - k,
    {
        match contribute_and_verify_chunk(&mut coordinator, &contributor, &verifier, k) {
            Ok(_) => {},
            Err(e) => {
                return Err(e);
            },
        }
        k = k + 1;
    }

    // Both may re-enter the queue while still current: the configuration
    // permits it. Update to round 3.
    let contributor = create_contributor("1");
    let verifier = create_verifier("1");
    match queue_pair_and_advance(&mut coordinator, &contributor, &verifier) {
        Ok(_) => {},
        Err(e) => {
            return Err(e);
        },
    }
    let height = coordinator.current_round_height();
    assert(height == 3);
    proof {
        lemma_num_queue_empty(coordinator.queue@);
    }
    let n = coordinator.number_of_queue_contributors();
    assert(n == 0);
    let n = coordinator.number_of_queue_verifiers();
    assert(n == 0);

    Ok(())
}

/// The shape of a round holding two contributors and one verifier: both
/// cursors stand at chunk `k` with nothing pending, the queue and the
/// finished sets are empty, and the backlog is drained.
pub open spec fn two_contributor_round(
    s: CoordinatorState,
    env: Environment,
    height: u64,
    c1: Participant,
    c2: Participant,
    v: Participant,
    k: u64,
) -> bool {
    &&& s.wf()
    &&& s.environment == env
    &&& s.round_height == height
    &&& s.queue@.len() == 0
    &&& s.current_contributors@.len() == 2
    &&& s.current_contributors@[0].participant.key() == c1.key()
    &&& s.current_contributors@[0].cursor == k
    &&& !s.current_contributors@[0].pending
    &&& s.current_contributors@[1].participant.key() == c2.key()
    &&& s.current_contributors@[1].cursor == k
    &&& !s.current_contributors@[1].pending
    &&& s.current_verifiers@.len() == 1
    &&& s.current_verifiers@[0].key() == v.key()
    &&& s.finished_contributors@.len() == 0
    &&& s.finished_verifiers@.len() == 0
    &&& s.pending_verification@.len() == 0
}

/// One full protocol cycle on the two-contributor round: both contribute to
/// their next chunk, and the verifier drains both backlog entries oldest
/// first, advancing both cursors by exactly one.
fn contribute_both_and_verify_both(
    coordinator: &mut CoordinatorState,
    contributor1: &Participant,
    contributor2: &Participant,
    verifier: &Participant,
    k: u64,
) -> (r: Result<(), CoordinatorError>)
    requires
        two_contributor_round(
            *old(coordinator),
            old(coordinator).environment,
            old(coordinator).round_height,
            *contributor1,
            *contributor2,
            *verifier,
            k,
        ),
        k < old(coordinator).environment.number_of_chunks,
        contributor1.is_contributor(),
        contributor2.is_contributor(),
        verifier.is_verifier(),
        contributor1.key() != contributor2.key(),
    ensures
        r is Ok,
        two_contributor_round(
            *final(coordinator),
            old(coordinator).environment,
            old(coordinator).round_height,
            *contributor1,
            *contributor2,
            *verifier,
            (k + 1) as u64,
        ),
{
    proof {
        lemma_slot_index_unique(coordinator.current_contributors@, 0);
    }
    match coordinator.contribute(contributor1) {
        Ok(_) => {},
        Err(e) => {
            return Err(e);
        },
    }
    proof {
        lemma_slot_index_unique(coordinator.current_contributors@, 1);
    }
    match coordinator.contribute(contributor2) {
        Ok(_) => {},
        Err(e) => {
            return Err(e);
        },
    }
    proof {
        lemma_slot_index_unique(coordinator.current_contributors@, 0);
    }
    match coordinator.verify(verifier) {
        Ok(_) => {},
        Err(e) => {
            return Err(e);
        },
    }
    proof {
        assert(coordinator.pending_verification@.len() == 1);
        lemma_slot_index_unique(coordinator.current_contributors@, 1);
    }
    match coordinator.verify(verifier) {
        Ok(_) => {},
        Err(e) => {
            return Err(e);
        },
    }
    Ok(())
}

/// Queues both contributors and the verifier into the empty queue, at the
/// priorities of the drop walkthrough.
fn queue_trio(
    coordinator: &mut CoordinatorState,
    contributor1: &Participant,
    contributor2: &Participant,
    verifier: &Participant,
) -> (r: Result<(), CoordinatorError>)
    requires
        old(coordinator).wf(),
        old(coordinator).queue@.len() == 0,
        old(coordinator).environment.allow_current_contributors_in_queue,
        old(coordinator).environment.allow_current_verifiers_in_queue,
        contributor1.is_contributor(),
        contributor2.is_contributor(),
        verifier.is_verifier(),
        contributor1.key() != contributor2.key(),
    ensures
        r is Ok,
        final(coordinator).wf(),
        final(coordinator).queue@.len() == 3,
        final(coordinator).queue@[0].participant.key() == contributor1.key(),
        final(coordinator).queue@[1].participant.key() == contributor2.key(),
        final(coordinator).queue@[2].participant.key() == verifier.key(),
        final(coordinator).queue@[0].participant.is_contributor(),
        final(coordinator).queue@[1].participant.is_contributor(),
        final(coordinator).queue@[2].participant.is_verifier(),
        *final(coordinator) == (CoordinatorState {
            queue: final(coordinator).queue,
            ..*old(coordinator)
        }),
{
    match coordinator.add_to_queue(contributor1.clone(), 10) {
        Ok(_) => {},
        Err(e) => {
            return Err(e);
        },
    }
    match coordinator.add_to_queue(contributor2.clone(), 9) {
        Ok(_) => {},
        Err(e) => {
            return Err(e);
        },
    }
    match coordinator.add_to_queue(verifier.clone(), 10) {
        Ok(_) => {},
        Err(e) => {
            return Err(e);
        },
    }
    proof {
        lemma_num_queue_ccv(coordinator.queue@);
    }
    let n = coordinator.number_of_queue_contributors();
    assert(n == 2);
    let n = coordinator.number_of_queue_verifiers();
    assert(n == 1);
    Ok(())
}

/// Opens the ceremony: round 1 exists and everything but the queue is
/// empty.
fn start_ceremony(environment: Environment) -> (r: Result<CoordinatorState, CoordinatorError>)
    ensures
        r matches Ok(s) ==> {
            &&& s.wf()
            &&& s.environment == environment
            &&& s.round_height == 1
            &&& s.queue@.len() == 0
            &&& s.current_contributors@.len() == 0
            &&& s.current_verifiers@.len() == 0
            &&& s.finished_contributors@.len() == 0
            &&& s.finished_verifiers@.len() == 0
            &&& s.pending_verification@.len() == 0
        },
        r is Ok,
{
    let mut coordinator = CoordinatorState::new(environment);
    let height = coordinator.current_round_height();
    assert(height == 0);
    match coordinator.initialize() {
        Ok(_) => {},
        Err(e) => {
            return Err(e);
        },
    }
    match coordinator.update() {
        Ok(_) => {},
        Err(e) => {
            return Err(e);
        },
    }
    let height = coordinator.current_round_height();
    assert(height == 1);
    Ok(coordinator)
}

/// The queue-stage observations of the drop walkthrough: all three wait in
/// the queue and nobody is current or finished yet.
fn check_queued_stage(
    coordinator: &CoordinatorState,
    contributor1: &Participant,
    contributor2: &Participant,
    verifier: &Participant,
)
    requires
        coordinator.wf(),
        coordinator.queue@.len() == 3,
        coordinator.queue@[0].participant.key() == contributor1.key(),
        coordinator.queue@[1].participant.key() == contributor2.key(),
        coordinator.queue@[2].participant.key() == verifier.key(),
        coordinator.current_contributors@.len() == 0,
        coordinator.current_verifiers@.len() == 0,
        coordinator.finished_contributors@.len() == 0,
        coordinator.finished_verifiers@.len() == 0,
        contributor1.is_contributor(),
        contributor2.is_contributor(),
        verifier.is_verifier(),
{
    let queued = coordinator.is_queue_contributor(contributor1);
    assert(queued);
    let queued = coordinator.is_queue_contributor(contributor2);
    assert(queued);
    let queued = coordinator.is_queue_verifier(verifier);
    assert(queued);
    let current = coordinator.is_current_contributor(contributor1);
    assert(!current);
    let current = coordinator.is_current_contributor(contributor2);
    assert(!current);
    let current = coordinator.is_current_verifier(verifier);
    assert(!current);
    let finished = coordinator.is_finished_contributor(contributor1);
    assert(!finished);
    let finished = coordinator.is_finished_contributor(contributor2);
    assert(!finished);
    let finished = coordinator.is_finished_verifier(verifier);
    assert(!finished);
}

/// The current-stage observations of the drop walkthrough: the queue is
/// empty, all three are current, and nobody is finished.
fn check_current_stage(
    coordinator: &CoordinatorState,
    contributor1: &Participant,
    contributor2: &Participant,
    verifier: &Participant,
)
    requires
        two_contributor_round(
            *coordinator,
            coordinator.environment,
            coordinator.round_height,
            *contributor1,
            *contributor2,
            *verifier,
            coordinator.current_contributors@[0].cursor,
        ),
        contributor1.is_contributor(),
        contributor2.is_contributor(),
        verifier.is_verifier(),
{
    let queued = coordinator.is_queue_contributor(contributor1);
    assert(!queued);
    let queued = coordinator.is_queue_contributor(contributor2);
    assert(!queued);
    let queued = coordinator.is_queue_verifier(verifier);
    assert(!queued);
    let current = coordinator.is_current_contributor(contributor1);
    assert(current);
    let current = coordinator.is_current_contributor(contributor2);
    assert(current);
    let current = coordinator.is_current_verifier(verifier);
    assert(current);
    let finished = coordinator.is_finished_contributor(contributor1);
    assert(!finished);
    let finished = coordinator.is_finished_contributor(contributor2);
    assert(!finished);
    let finished = coordinator.is_finished_verifier(verifier);
    assert(!finished);
}

/// Advances the complete round whose queue holds the trio: the next round
/// opens with both contributors and the verifier current, all fresh.
fn advance_trio(
    coordinator: &mut CoordinatorState,
    contributor1: &Participant,
    contributor2: &Participant,
    verifier: &Participant,
) -> (r: Result<(), CoordinatorError>)
    requires
        old(coordinator).wf(),
        old(coordinator).spec_round_complete(),
        1 <= old(coordinator).round_height < u64::MAX,
        old(coordinator).queue@.len() == 3,
        old(coordinator).queue@[0].participant.key() == contributor1.key(),
        old(coordinator).queue@[1].participant.key() == contributor2.key(),
        old(coordinator).queue@[2].participant.key() == verifier.key(),
        old(coordinator).queue@[0].participant.is_contributor(),
        old(coordinator).queue@[1].participant.is_contributor(),
        old(coordinator).queue@[2].participant.is_verifier(),
        contributor1.is_contributor(),
        contributor2.is_contributor(),
        verifier.is_verifier(),
    ensures
        r is Ok,
        two_contributor_round(
            *final(coordinator),
            old(coordinator).environment,
            (old(coordinator).round_height + 1) as u64,
            *contributor1,
            *contributor2,
            *verifier,
            0,
        ),
{
    let ghost q2 = coordinator.queue@;
    match coordinator.update() {
        Ok(_) => {},
        Err(e) => {
            return Err(e);
        },
    }
    proof {
        lemma_queued_ccv(q2);
    }
    Ok(())
}

/// Drops the first contributor out of the mid-protocol round. Every one of
/// their contributions so far is already verified, so nothing is rolled
/// back and no locator is invalidated; the second contributor's slot and
/// the verifier are untouched.
fn drop_first_contributor(
    coordinator: &mut CoordinatorState,
    contributor1: &Participant,
    contributor2: &Participant,
    verifier: &Participant,
) -> (r: Result<Vec<Locator>, CoordinatorError>)
    requires
        two_contributor_round(
            *old(coordinator),
            old(coordinator).environment,
            old(coordinator).round_height,
            *contributor1,
            *contributor2,
            *verifier,
            old(coordinator).current_contributors@[0].cursor,
        ),
        contributor1.is_contributor(),
        contributor2.is_contributor(),
        verifier.is_verifier(),
        contributor1.key() != contributor2.key(),
    ensures
        r matches Ok(locators) ==> locators@.len() == 0,
        r is Ok,
        final(coordinator).wf(),
        final(coordinator).round_height == old(coordinator).round_height,
        final(coordinator).queue@.len() == 0,
        final(coordinator).current_contributors@.len() == 1,
        final(coordinator).current_contributors@[0] == old(
            coordinator,
        ).current_contributors@[1],
        final(coordinator).current_verifiers@ == old(coordinator).current_verifiers@,
        final(coordinator).finished_contributors@.len() == 0,
        final(coordinator).finished_verifiers@.len() == 0,
{
    let ghost before = *coordinator;
    proof {
        lemma_slot_index_unique(coordinator.current_contributors@, 0);
    }
    let locators = match coordinator.drop_participant(contributor1) {
        Ok(locators) => locators,
        Err(e) => {
            return Err(e);
        },
    };
    proof {
        assert(before.current_contributors@.remove(0) =~= seq![before.current_contributors@[1]]);
    }
    Ok(locators)
}

/// The observations after the drop: the first contributor is gone from
/// every set, while the second contributor and the verifier remain current.
fn check_dropped_stage(
    coordinator: &CoordinatorState,
    contributor1: &Participant,
    contributor2: &Participant,
    verifier: &Participant,
)
    requires
        coordinator.wf(),
        coordinator.queue@.len() == 0,
        coordinator.current_contributors@.len() == 1,
        coordinator.current_contributors@[0].participant.key() == contributor2.key(),
        coordinator.current_verifiers@.len() == 1,
        coordinator.current_verifiers@[0].key() == verifier.key(),
        coordinator.finished_contributors@.len() == 0,
        coordinator.finished_verifiers@.len() == 0,
        contributor1.is_contributor(),
        contributor2.is_contributor(),
        verifier.is_verifier(),
        contributor1.key() != contributor2.key(),
{
    let queued = coordinator.is_queue_contributor(contributor1);
    assert(!queued);
    let current = coordinator.is_current_contributor(contributor1);
    assert(!current);
    let current = coordinator.is_current_contributor(contributor2);
    assert(current);
    let current = coordinator.is_current_verifier(verifier);
    assert(current);
    let finished = coordinator.is_finished_contributor(contributor1);
    assert(!finished);
    let finished = coordinator.is_finished_contributor(contributor2);
    assert(!finished);
    let finished = coordinator.is_finished_verifier(verifier);
    assert(!finished);
}

/// A drop-recovery walkthrough with two contributors (priorities 10 and 9)
/// and one verifier: both contributors are admitted into round 2 on the
/// same update, run the protocol through every chunk but the last, and the
/// first contributor is then dropped. Since all of their contributions were
/// already verified, nothing is rolled back and no locator is invalidated;
/// the other contributor and the verifier stay current and unaffected.
/// Every step, and every intermediate observation, is proved rather than
/// checked at run time.
pub fn coordinator_drop_contributor_test() -> (r: Result<(), CoordinatorError>)
    ensures
        r is Ok,
{
    let environment = test_environment(ProvingSystem::Groth16, CurveKind::Bls12_377);
    let number_of_chunks = environment.number_of_chunks;

    // Initialize the ceremony to round 1.
    let mut coordinator = match start_ceremony(environment) {
        Ok(coordinator) => coordinator,
        Err(e) => {
            return Err(e);
        },
    };

    // Add two contributors and one verifier to the queue.
    let contributor1 = create_contributor("1");
    let contributor2 = create_contributor("2");
    let verifier = create_verifier("1");
    proof {
        reveal_strlit("test-contributor-");
        reveal_strlit("1");
        reveal_strlit("2");
        let prefix = "test-contributor-"@;
        assert(contributor1.name()[prefix.len() as int] == '1');
        assert(contributor2.name()[prefix.len() as int] == '2');
        assert(contributor1.key() != contributor2.key());
    }
    match queue_trio(&mut coordinator, &contributor1, &contributor2, &verifier) {
        Ok(_) => {},
        Err(e) => {
            return Err(e);
        },
    }
    check_queued_stage(&coordinator, &contributor1, &contributor2, &verifier);

    // Update the ceremony to round 2: both contributors are admitted on the
    // same update.
    match advance_trio(&mut coordinator, &contributor1, &contributor2, &verifier) {
        Ok(_) => {},
        Err(e) => {
            return Err(e);
        },
    }
    proof {
        lemma_num_queue_empty(coordinator.queue@);
    }
    let height = coordinator.current_round_height();
    assert(height == 2);
    let n = coordinator.number_of_queue_contributors();
    assert(n == 0);
    let n = coordinator.number_of_queue_verifiers();
    assert(n == 0);
    check_current_stage(&coordinator, &contributor1, &contributor2, &verifier);

    // Contribute and verify up to the penultimate chunk.
    let mut k: u64 = 0;
    while k < number_of_chunks - 1
        invariant
            two_contributor_round(
                coordinator,
                environment,
                2,
                contributor1,
                contributor2,
                verifier,
                k,
            ),
            number_of_chunks == environment.number_of_chunks,
            1 <= number_of_chunks,
            k <= number_of_chunks - 1,
            contributor1.is_contributor(),
            contributor2.is_contributor(),
            verifier.is_verifier(),
            contributor1.key() != contributor2.key(),
        decreases number_of_chunks - k,
    {
        match contribute_both_and_verify_both(
            &mut coordinator,
            &contributor1,
            &contributor2,
            &verifier,
            k,
        ) {
            Ok(_) => {},
            Err(e) => {
                return Err(e);
            },
        }
        k = k + 1;
    }
    check_current_stage(&coordinator, &contributor1, &contributor2, &verifier);

    // Drop the first contributor from the current round.
    let locators = match drop_first_contributor(
        &mut coordinator,
        &contributor1,
        &contributor2,
        &verifier,
    ) {
        Ok(locators) => locators,
        Err(e) => {
            return Err(e);
        },
    };
    assert(locators@.len() == 0);
    check_dropped_stage(&coordinator, &contributor1, &contributor2, &verifier);

    // Inspect the final state.
    let height = coordinator.current_round_height();
    assert(height == 2);

    Ok(())
}

} // verus!

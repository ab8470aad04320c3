use phase1_coordinator::coordinator::{CoordinatorError, CoordinatorState};
use phase1_coordinator::environment::{ContributionMode, CurveKind, Environment, ProvingSystem};
use phase1_coordinator::participant::Participant;
use phase1_coordinator::testing::{create_contributor, create_verifier, test_environment};

fn small_environment(number_of_chunks: u64, allow_requeue: bool) -> Environment {
    Environment::new(
        ContributionMode::Chunked,
        ProvingSystem::Groth16,
        CurveKind::Bls12_377,
        7,
        32,
        32,
        number_of_chunks,
        allow_requeue,
        allow_requeue,
    )
}

/// Opens a round holding the given participants, at the given chunk count.
fn round_with(
    number_of_chunks: u64,
    contributors: &[Participant],
    verifiers: &[Participant],
) -> CoordinatorState {
    let mut coordinator =
        CoordinatorState::new(small_environment(number_of_chunks, true));
    coordinator.initialize().unwrap();
    for c in contributors {
        coordinator.add_to_queue(c.clone(), 10).unwrap();
    }
    for v in verifiers {
        coordinator.add_to_queue(v.clone(), 10).unwrap();
    }
    coordinator.update().unwrap();
    assert_eq!(2, coordinator.current_round_height());
    coordinator
}

#[test]
fn create_participants_carry_the_full_identity() {
    // These fail if the identity were only the bare id or only the prefix.
    let expected = Participant::Contributor(String::from("test-contributor-7"));
    assert!(create_contributor("7") == expected);
    let expected = Participant::Verifier(String::from("test-verifier-7"));
    assert!(create_verifier("7") == expected);
    assert!(create_contributor("7") != create_contributor("8"));
    assert!(
        Participant::Contributor(String::from("x")) != Participant::Verifier(String::from("x"))
    );
}

#[test]
fn update_before_initialize_is_rejected() {
    let mut coordinator = CoordinatorState::new(small_environment(4, true));
    assert_eq!(Err(CoordinatorError::NotInitialized), coordinator.update());
    assert_eq!(0, coordinator.current_round_height());
}

#[test]
fn initialize_twice_is_rejected() {
    let mut coordinator = CoordinatorState::new(small_environment(4, true));
    coordinator.initialize().unwrap();
    assert_eq!(1, coordinator.current_round_height());
    assert_eq!(Err(CoordinatorError::AlreadyInitialized), coordinator.initialize());
    assert_eq!(1, coordinator.current_round_height());
}

#[test]
fn contribute_and_verify_before_initialize_are_rejected() {
    let mut coordinator = CoordinatorState::new(small_environment(4, true));
    let contributor = create_contributor("1");
    let verifier = create_verifier("1");
    assert_eq!(Err(CoordinatorError::NotInitialized), coordinator.contribute(&contributor));
    assert_eq!(Err(CoordinatorError::NotInitialized), coordinator.verify(&verifier));
    assert!(matches!(
        coordinator.drop_participant(&contributor),
        Err(CoordinatorError::NotInitialized)
    ));
}

#[test]
fn queueing_twice_is_rejected() {
    let mut coordinator = CoordinatorState::new(small_environment(4, true));
    coordinator.initialize().unwrap();
    let contributor = create_contributor("1");
    coordinator.add_to_queue(contributor.clone(), 10).unwrap();
    assert_eq!(
        Err(CoordinatorError::AlreadyQueued),
        coordinator.add_to_queue(contributor.clone(), 9)
    );
    assert_eq!(1, coordinator.number_of_queue_contributors());
}

#[test]
fn requeueing_active_participants_is_configuration_gated() {
    // With re-queueing forbidden, a current participant is turned away.
    let mut coordinator = CoordinatorState::new(small_environment(4, false));
    coordinator.initialize().unwrap();
    let contributor = create_contributor("1");
    let verifier = create_verifier("1");
    coordinator.add_to_queue(contributor.clone(), 10).unwrap();
    coordinator.add_to_queue(verifier.clone(), 10).unwrap();
    coordinator.update().unwrap();
    assert!(coordinator.is_current_contributor(&contributor));
    assert_eq!(
        Err(CoordinatorError::AlreadyActive),
        coordinator.add_to_queue(contributor.clone(), 10)
    );
    assert_eq!(
        Err(CoordinatorError::AlreadyActive),
        coordinator.add_to_queue(verifier.clone(), 10)
    );

    // With re-queueing permitted, the same call succeeds.
    let contributor = create_contributor("1");
    let verifier = create_verifier("1");
    let mut coordinator = round_with(4, &[contributor.clone()], &[verifier.clone()]);
    coordinator.add_to_queue(contributor.clone(), 10).unwrap();
    assert!(coordinator.is_queue_contributor(&contributor));
    assert!(coordinator.is_current_contributor(&contributor));
}

#[test]
fn contribute_by_a_non_current_participant_is_rejected() {
    let contributor = create_contributor("1");
    let verifier = create_verifier("1");
    let mut coordinator = round_with(4, &[contributor.clone()], &[verifier.clone()]);
    let outsider = create_contributor("2");
    assert_eq!(Err(CoordinatorError::NotActive), coordinator.contribute(&outsider));
    // A verifier is never a current contributor.
    assert_eq!(Err(CoordinatorError::NotActive), coordinator.contribute(&verifier));
    // And a contributor is never a current verifier.
    assert_eq!(Err(CoordinatorError::NotActive), coordinator.verify(&contributor));
}

#[test]
fn double_contribute_is_chunk_locked() {
    let contributor = create_contributor("1");
    let verifier = create_verifier("1");
    let mut coordinator = round_with(4, &[contributor.clone()], &[verifier.clone()]);
    coordinator.contribute(&contributor).unwrap();
    // No intervening verification: the same chunk is still locked.
    assert_eq!(Err(CoordinatorError::ChunkLocked), coordinator.contribute(&contributor));
    coordinator.verify(&verifier).unwrap();
    // After verification the next chunk opens.
    coordinator.contribute(&contributor).unwrap();
}

#[test]
fn contribute_past_the_last_chunk_is_rejected() {
    let contributor = create_contributor("1");
    let verifier = create_verifier("1");
    let mut coordinator = round_with(2, &[contributor.clone()], &[verifier.clone()]);
    for _ in 0..2 {
        coordinator.contribute(&contributor).unwrap();
        coordinator.verify(&verifier).unwrap();
    }
    assert_eq!(Err(CoordinatorError::NotYourTurn), coordinator.contribute(&contributor));
}

#[test]
fn verify_with_empty_backlog_is_rejected() {
    let contributor = create_contributor("1");
    let verifier = create_verifier("1");
    let mut coordinator = round_with(4, &[contributor.clone()], &[verifier.clone()]);
    assert_eq!(Err(CoordinatorError::NoPendingWork), coordinator.verify(&verifier));
}

#[test]
fn verification_backlog_is_first_in_first_out() {
    let contributor1 = create_contributor("1");
    let contributor2 = create_contributor("2");
    let verifier = create_verifier("1");
    let mut coordinator = round_with(
        4,
        &[contributor1.clone(), contributor2.clone()],
        &[verifier.clone()],
    );
    coordinator.contribute(&contributor1).unwrap();
    coordinator.contribute(&contributor2).unwrap();
    // The oldest entry is contributor 1's: their chunk unlocks first.
    coordinator.verify(&verifier).unwrap();
    coordinator.contribute(&contributor1).unwrap();
    assert_eq!(Err(CoordinatorError::ChunkLocked), coordinator.contribute(&contributor2));
}

#[test]
fn drop_of_a_non_current_participant_is_rejected() {
    let contributor = create_contributor("1");
    let verifier = create_verifier("1");
    let mut coordinator = round_with(4, &[contributor.clone()], &[verifier.clone()]);
    let outsider = create_contributor("2");
    // Entirely unknown to the coordinator.
    assert!(matches!(
        coordinator.drop_participant(&outsider),
        Err(CoordinatorError::NotFound)
    ));
    // Queued, but not current: known, yet still rejected.
    coordinator.add_to_queue(outsider.clone(), 10).unwrap();
    assert!(matches!(
        coordinator.drop_participant(&outsider),
        Err(CoordinatorError::NotActive)
    ));
}

#[test]
fn dropped_contributor_returns_exactly_the_pending_locators() {
    let contributor1 = create_contributor("1");
    let contributor2 = create_contributor("2");
    let verifier = create_verifier("1");
    let mut coordinator = round_with(
        4,
        &[contributor1.clone(), contributor2.clone()],
        &[verifier.clone()],
    );
    // One verified chunk, then one pending, unverified contribution.
    coordinator.contribute(&contributor1).unwrap();
    coordinator.verify(&verifier).unwrap();
    coordinator.contribute(&contributor1).unwrap();
    coordinator.contribute(&contributor2).unwrap();

    let chain_before = coordinator.verified.len();
    let locators = coordinator.drop_participant(&contributor1).unwrap();
    // Exactly the one unverified contribution is invalidated: chunk 1 of
    // round 2, by contributor 1. The verified chunk 0 stays in the chain,
    // which the drop leaves untouched.
    assert_eq!(chain_before, coordinator.verified.len());
    assert_eq!(1, locators.len());
    assert_eq!(2, locators[0].round);
    assert_eq!(1, locators[0].chunk);
    assert!(locators[0].contributor == contributor1);
    assert!(!coordinator.is_current_contributor(&contributor1));
    assert!(coordinator.is_current_contributor(&contributor2));
    assert!(coordinator.is_current_verifier(&verifier));

    // Contributor 2's pending work is unaffected: the backlog still holds
    // exactly their entry.
    coordinator.verify(&verifier).unwrap();
    assert_eq!(Err(CoordinatorError::NoPendingWork), coordinator.verify(&verifier));
    coordinator.contribute(&contributor2).unwrap();
}

#[test]
fn dropped_verifier_leaves_the_backlog_untouched() {
    let contributor = create_contributor("1");
    let verifier1 = create_verifier("1");
    let verifier2 = create_verifier("2");
    let mut coordinator = round_with(
        4,
        &[contributor.clone()],
        &[verifier1.clone(), verifier2.clone()],
    );
    coordinator.contribute(&contributor).unwrap();
    let locators = coordinator.drop_participant(&verifier1).unwrap();
    assert_eq!(0, locators.len());
    assert!(!coordinator.is_current_verifier(&verifier1));
    assert!(coordinator.is_current_verifier(&verifier2));
    // The contribution is still verifiable, by the other verifier.
    coordinator.verify(&verifier2).unwrap();
    coordinator.contribute(&contributor).unwrap();
}

#[test]
fn update_mid_round_admits_eligible_queued_participants() {
    let contributor1 = create_contributor("1");
    let verifier = create_verifier("1");
    let mut coordinator = round_with(4, &[contributor1.clone()], &[verifier.clone()]);
    // The round is under way and incomplete.
    coordinator.contribute(&contributor1).unwrap();
    let contributor2 = create_contributor("2");
    coordinator.add_to_queue(contributor2.clone(), 5).unwrap();
    // The current contributor may also wait for the next round already.
    coordinator.add_to_queue(contributor1.clone(), 5).unwrap();
    coordinator.update().unwrap();
    // No advance: the round grows instead. The newcomer is admitted and
    // starts at chunk 0; the still-current contributor keeps waiting.
    assert_eq!(2, coordinator.current_round_height());
    assert!(coordinator.is_current_contributor(&contributor2));
    assert!(!coordinator.is_queue_contributor(&contributor2));
    assert!(coordinator.is_current_contributor(&contributor1));
    assert!(coordinator.is_queue_contributor(&contributor1));
    coordinator.contribute(&contributor2).unwrap();
}

#[test]
fn round_height_is_monotone_and_steps_by_one() {
    let contributor = create_contributor("1");
    let verifier = create_verifier("1");
    let mut coordinator = CoordinatorState::new(small_environment(2, true));
    let mut last = coordinator.current_round_height();
    assert_eq!(0, last);
    coordinator.initialize().unwrap();
    assert_eq!(1, coordinator.current_round_height());
    last = 1;
    coordinator.add_to_queue(contributor.clone(), 10).unwrap();
    coordinator.add_to_queue(verifier.clone(), 10).unwrap();
    for _ in 0..3 {
        coordinator.update().unwrap();
        let h = coordinator.current_round_height();
        assert!(h == last || h == last + 1);
        assert!(h >= last);
        last = h;
    }
    assert_eq!(2, coordinator.current_round_height());
    for _ in 0..2 {
        coordinator.contribute(&contributor).unwrap();
        coordinator.verify(&verifier).unwrap();
    }
    // A complete round alone does not advance the height: the queue holds
    // no next round yet.
    coordinator.update().unwrap();
    assert_eq!(2, coordinator.current_round_height());
    coordinator.add_to_queue(contributor.clone(), 10).unwrap();
    coordinator.add_to_queue(verifier.clone(), 10).unwrap();
    coordinator.update().unwrap();
    assert_eq!(3, coordinator.current_round_height());
}

#[test]
fn never_queued_current_and_finished_at_once() {
    let contributor = create_contributor("1");
    let verifier = create_verifier("1");
    let mut coordinator = CoordinatorState::new(small_environment(1, true));
    coordinator.initialize().unwrap();
    coordinator.add_to_queue(contributor.clone(), 10).unwrap();
    coordinator.add_to_queue(verifier.clone(), 10).unwrap();
    let all_three = coordinator.is_queue_contributor(&contributor)
        && coordinator.is_current_contributor(&contributor)
        && coordinator.is_finished_contributor(&contributor);
    assert!(!all_three);
    coordinator.update().unwrap();
    coordinator.contribute(&contributor).unwrap();
    coordinator.verify(&verifier).unwrap();
    // Re-queue while current, and let the round-completion check run: at
    // every stage the three sets never hold the participant all at once.
    coordinator.add_to_queue(contributor.clone(), 10).unwrap();
    let all_three = coordinator.is_queue_contributor(&contributor)
        && coordinator.is_current_contributor(&contributor)
        && coordinator.is_finished_contributor(&contributor);
    assert!(!all_three);
    coordinator.update().unwrap();
    let all_three = coordinator.is_queue_verifier(&verifier)
        && coordinator.is_current_verifier(&verifier)
        && coordinator.is_finished_verifier(&verifier);
    assert!(!all_three);
}

#[test]
fn last_verification_makes_the_contributor_finished_after_update() {
    let contributor = create_contributor("1");
    let verifier = create_verifier("1");
    let mut coordinator = round_with(1, &[contributor.clone()], &[verifier.clone()]);
    coordinator.contribute(&contributor).unwrap();
    assert!(!coordinator.is_finished_contributor(&contributor));
    coordinator.verify(&verifier).unwrap();
    // The cursor has advanced past the last chunk; the round-completion
    // check then moves both participants to finished. With an empty queue
    // the round cannot advance, so the finished sets are observable.
    coordinator.update().unwrap();
    assert_eq!(2, coordinator.current_round_height());
    assert!(!coordinator.is_current_contributor(&contributor));
    assert!(coordinator.is_finished_contributor(&contributor));
    assert!(!coordinator.is_current_verifier(&verifier));
    assert!(coordinator.is_finished_verifier(&verifier));
}

#[test]
fn queue_counts_follow_roles() {
    let mut coordinator = CoordinatorState::new(small_environment(4, true));
    coordinator.initialize().unwrap();
    assert_eq!(0, coordinator.number_of_queue_contributors());
    assert_eq!(0, coordinator.number_of_queue_verifiers());
    coordinator.add_to_queue(create_contributor("1"), 10).unwrap();
    coordinator.add_to_queue(create_contributor("2"), 9).unwrap();
    coordinator.add_to_queue(create_verifier("1"), 10).unwrap();
    assert_eq!(2, coordinator.number_of_queue_contributors());
    assert_eq!(1, coordinator.number_of_queue_verifiers());
    assert!(coordinator.is_queue_contributor(&create_contributor("1")));
    assert!(!coordinator.is_queue_contributor(&create_contributor("3")));
    assert!(!coordinator.is_queue_verifier(&create_contributor("1")));
    assert!(coordinator.is_queue_verifier(&create_verifier("1")));
}

#[test]
fn test_environment_has_the_walkthrough_shape() {
    let environment = test_environment(ProvingSystem::Groth16, CurveKind::Bls12_377);
    assert_eq!(8, environment.number_of_chunks);
    assert!(environment.allow_current_contributors_in_queue);
    assert!(environment.allow_current_verifiers_in_queue);
    assert!(matches!(environment.contribution_mode, ContributionMode::Chunked));
    assert_eq!(7, environment.power);
    assert_eq!(32, environment.batch_size);
    assert_eq!(32, environment.chunk_size);
}

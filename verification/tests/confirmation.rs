use light_rpc::commitment::CommitmentLevel;
use light_rpc::confirmation::ConfirmationStatus;
use light_rpc::confirmation::ConfirmationTracker;
use light_rpc::transaction::SubmissionHandle;

fn handles(ids: &[u64]) -> Vec<SubmissionHandle> {
    ids.iter().map(|id| SubmissionHandle { id: *id }).collect()
}

#[test]
fn commitment_levels_are_strictly_ordered() {
    assert!(CommitmentLevel::Processed.rank() < CommitmentLevel::Confirmed.rank());
    assert!(CommitmentLevel::Confirmed.rank() < CommitmentLevel::Finalized.rank());
    assert!(CommitmentLevel::Finalized.meets(&CommitmentLevel::Confirmed));
    assert!(CommitmentLevel::Confirmed.meets(&CommitmentLevel::Confirmed));
    assert!(!CommitmentLevel::Processed.meets(&CommitmentLevel::Confirmed));
}

#[test]
fn polling_stops_after_max_attempts_and_times_out_the_rest() {
    let hs = handles(&[1, 2]);
    let mut tracker = ConfirmationTracker::new(&hs, CommitmentLevel::Confirmed, 3);
    let mut rounds = 0;
    while !tracker.is_finished() {
        tracker.record_round(&vec![None, None]);
        rounds += 1;
        assert!(rounds <= 3);
    }
    assert_eq!(rounds, 3);
    assert_eq!(tracker.attempts_used, 3);
    assert_eq!(
        tracker.status_of(SubmissionHandle { id: 1 }),
        Some(ConfirmationStatus::TimedOut)
    );
    assert_eq!(
        tracker.status_of(SubmissionHandle { id: 2 }),
        Some(ConfirmationStatus::TimedOut)
    );
}

#[test]
fn polling_finishes_early_once_every_handle_resolves() {
    let hs = handles(&[1, 2]);
    let mut tracker = ConfirmationTracker::new(&hs, CommitmentLevel::Confirmed, 300);
    assert!(!tracker.is_finished());
    tracker.record_round(&vec![
        Some(CommitmentLevel::Confirmed),
        Some(CommitmentLevel::Finalized),
    ]);
    assert!(tracker.is_finished());
    assert_eq!(tracker.attempts_used, 1);
    assert_eq!(
        tracker.status_of(SubmissionHandle { id: 1 }),
        Some(ConfirmationStatus::Confirmed(CommitmentLevel::Confirmed))
    );
    assert_eq!(
        tracker.status_of(SubmissionHandle { id: 2 }),
        Some(ConfirmationStatus::Confirmed(CommitmentLevel::Finalized))
    );
}

#[test]
fn observation_below_the_requested_level_does_not_resolve() {
    let hs = handles(&[1]);
    let mut tracker = ConfirmationTracker::new(&hs, CommitmentLevel::Confirmed, 5);
    tracker.record_round(&vec![Some(CommitmentLevel::Processed)]);
    assert_eq!(
        tracker.status_of(SubmissionHandle { id: 1 }),
        Some(ConfirmationStatus::Pending)
    );
    assert!(!tracker.is_finished());
}

#[test]
fn confirmed_handle_keeps_its_result_without_further_polling() {
    let hs = handles(&[1, 2]);
    let mut tracker = ConfirmationTracker::new(&hs, CommitmentLevel::Processed, 10);
    tracker.record_round(&vec![Some(CommitmentLevel::Confirmed), None]);
    let first = tracker.status_of(SubmissionHandle { id: 1 });
    assert_eq!(first, Some(ConfirmationStatus::Confirmed(CommitmentLevel::Confirmed)));
    // re-querying is a pure lookup: same result, no round recorded
    assert_eq!(tracker.status_of(SubmissionHandle { id: 1 }), first);
    assert_eq!(tracker.attempts_used, 1);
    // later rounds, whatever they observe, do not change a terminal result
    tracker.record_round(&vec![Some(CommitmentLevel::Finalized), None]);
    tracker.record_round(&vec![None, Some(CommitmentLevel::Processed)]);
    assert_eq!(tracker.status_of(SubmissionHandle { id: 1 }), first);
}

#[test]
fn partial_success_mixes_confirmed_and_timed_out() {
    let hs = handles(&[1, 2, 3]);
    let mut tracker = ConfirmationTracker::new(&hs, CommitmentLevel::Confirmed, 2);
    tracker.record_round(&vec![Some(CommitmentLevel::Confirmed), None, None]);
    tracker.record_round(&vec![None, Some(CommitmentLevel::Finalized), None]);
    assert!(tracker.is_finished());
    assert_eq!(
        tracker.status_of(SubmissionHandle { id: 1 }),
        Some(ConfirmationStatus::Confirmed(CommitmentLevel::Confirmed))
    );
    assert_eq!(
        tracker.status_of(SubmissionHandle { id: 2 }),
        Some(ConfirmationStatus::Confirmed(CommitmentLevel::Finalized))
    );
    assert_eq!(
        tracker.status_of(SubmissionHandle { id: 3 }),
        Some(ConfirmationStatus::TimedOut)
    );
}

#[test]
fn outstanding_shrinks_as_handles_resolve() {
    let hs = handles(&[1, 2, 3]);
    let mut tracker = ConfirmationTracker::new(&hs, CommitmentLevel::Confirmed, 10);
    assert_eq!(tracker.outstanding(), hs);
    tracker.record_round(&vec![None, Some(CommitmentLevel::Finalized), None]);
    assert_eq!(tracker.outstanding(), handles(&[1, 3]));
    tracker.record_round(&vec![Some(CommitmentLevel::Confirmed), None, None]);
    assert_eq!(tracker.outstanding(), handles(&[3]));
}

#[test]
fn unknown_handle_has_no_status() {
    let hs = handles(&[1]);
    let tracker = ConfirmationTracker::new(&hs, CommitmentLevel::Confirmed, 5);
    assert_eq!(tracker.status_of(SubmissionHandle { id: 99 }), None);
}

#[test]
fn expired_blockhash_times_out_and_is_never_confirmed() {
    // A transaction whose reference blockhash expired is never observed at
    // the requested level by the ledger: every poll reports nothing (or a
    // level below the threshold), so it can only time out.
    let hs = handles(&[77]);
    let mut tracker = ConfirmationTracker::new(&hs, CommitmentLevel::Confirmed, 8);
    let mut round = 0;
    while !tracker.is_finished() {
        let obs = if round % 2 == 0 {
            vec![None]
        } else {
            vec![Some(CommitmentLevel::Processed)]
        };
        tracker.record_round(&obs);
        round += 1;
        let status = tracker.status_of(SubmissionHandle { id: 77 }).unwrap();
        assert!(!matches!(status, ConfirmationStatus::Confirmed(_)));
    }
    assert_eq!(round, 8);
    assert_eq!(
        tracker.status_of(SubmissionHandle { id: 77 }),
        Some(ConfirmationStatus::TimedOut)
    );
}

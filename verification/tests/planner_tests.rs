use vnfs::compound::{CompoundRes, ResBody, ResOp};
use vnfs::planner::{
    recovery_action, ExecutionMap, FailureCause, ItemFailure, MalformedReply, RecoveryAction,
    RequestSafety,
};

fn reply(status: u32, ops: Vec<u32>) -> CompoundRes {
    CompoundRes {
        status,
        ops: ops
            .into_iter()
            .map(|status| ResOp { status, body: ResBody::Plain })
            .collect(),
    }
}

fn fixed_map(items: usize, ops_per_item: usize) -> ExecutionMap {
    let mut map = ExecutionMap::new();
    for caller in 0..items {
        map.begin(caller);
        map.note_ops(ops_per_item);
        map.end();
    }
    map
}

#[test]
fn reports_completed_failed_and_unexecuted_separately() {
    let map = fixed_map(4, 3);
    // SEQUENCE + item 0 + item 1's first two ops, the second one fails.
    let report = map.analyze(&reply(2, vec![0, 0, 0, 0, 0, 2])).unwrap();
    assert_eq!(report.completed, vec![0]);
    assert_eq!(
        report.failure,
        Some(ItemFailure {
            caller: 1,
            op_index: 5,
            status: 2,
        })
    );
    assert_eq!(report.unexecuted, vec![2, 3]);
    assert_eq!(report.compound_failure, None);
}

#[test]
fn exhaustive_failure_positions_preserve_prefix_and_suffix() {
    for items in 1..16 {
        for ops_per_item in 1..8 {
            let map = fixed_map(items, ops_per_item);
            for failed_item in 0..items {
                for within_item in 0..ops_per_item {
                    let failed_op = 1 + failed_item * ops_per_item + within_item;
                    let mut ops = vec![0; failed_op + 1];
                    ops[failed_op] = 5;
                    let report = map.analyze(&reply(5, ops)).unwrap();
                    assert_eq!(report.completed, (0..failed_item).collect::<Vec<_>>());
                    assert_eq!(report.failure.unwrap().caller, failed_item);
                    assert_eq!(
                        report.unexecuted,
                        (failed_item + 1..items).collect::<Vec<_>>()
                    );
                }
            }
        }
    }
}

#[test]
fn mock_executor_resumes_without_reexecuting_the_prefix() {
    let total = 6usize;
    let failures = [1usize, 4];
    let mut cursor = 0usize;
    let mut executed = vec![0usize; total];
    let mut observed_failures = Vec::new();
    let mut submissions = Vec::new();

    while cursor < total {
        submissions.push(cursor..total);
        let mut map = ExecutionMap::new();
        for caller in cursor..total {
            map.begin(caller);
            map.note_ops(2);
            map.end();
        }
        let next_failure = failures.iter().copied().find(|item| *item >= cursor);
        let answer = match next_failure {
            Some(item) => {
                let failed_op = 1 + (item - cursor) * 2;
                let mut ops = vec![0; failed_op + 1];
                ops[failed_op] = 2;
                reply(2, ops)
            }
            None => reply(0, vec![0; 1 + (total - cursor) * 2]),
        };
        let report = map.analyze(&answer).unwrap();
        for caller in report.completed {
            executed[caller] += 1;
        }
        if let Some(failure) = report.failure {
            executed[failure.caller] += 1;
            observed_failures.push(failure.caller);
            assert_eq!(
                recovery_action(RequestSafety::ReadOnly, FailureCause::ItemStatus, true),
                RecoveryAction::ContinueSuffix
            );
            cursor = failure.caller + 1;
        } else {
            cursor = total;
        }
    }

    assert_eq!(submissions, vec![0..6, 2..6, 5..6]);
    assert_eq!(observed_failures, failures);
    assert_eq!(executed, vec![1; total]);
}

#[test]
fn successful_reply_completes_every_item() {
    let map = fixed_map(3, 4);
    let report = map.analyze(&reply(0, vec![0; 13])).unwrap();
    assert_eq!(report.completed, vec![0, 1, 2]);
    assert!(report.failure.is_none());
    assert!(report.unexecuted.is_empty());
}

#[test]
fn sequence_failure_leaves_all_items_unexecuted() {
    let report = fixed_map(3, 2).analyze(&reply(10026, vec![10026])).unwrap();
    assert_eq!(report.compound_failure, Some(10026));
    assert_eq!(report.compound_failure_op, Some(0));
    assert_eq!(report.unexecuted, vec![0, 1, 2]);
}

#[test]
fn trailing_failure_does_not_erase_completed_items() {
    let map = fixed_map(2, 2);
    // One extra trailing operation, such as CLOSE, fails after both item
    // ranges completed successfully.
    let report = map.analyze(&reply(10025, vec![0, 0, 0, 0, 0, 10025])).unwrap();
    assert_eq!(report.completed, vec![0, 1]);
    assert_eq!(report.compound_failure, Some(10025));
    assert_eq!(report.compound_failure_op, Some(5));
    assert!(report.failure.is_none());
    assert!(report.unexecuted.is_empty());
}

#[test]
fn pre_sequence_resource_rejection_is_recoverable() {
    let report = fixed_map(4, 3).analyze(&reply(10070, vec![])).unwrap();
    assert_eq!(report.compound_failure, Some(10070));
    assert_eq!(report.compound_failure_op, None);
    assert_eq!(report.unexecuted, vec![0, 1, 2, 3]);
    assert!(report.completed.is_empty());
    assert!(report.failure.is_none());
}

#[test]
fn malformed_replies_are_rejected() {
    let map = fixed_map(2, 2);
    assert_eq!(
        map.analyze(&reply(0, vec![])),
        Err(MalformedReply::MissingSequence)
    );
    assert_eq!(
        map.analyze(&reply(5, vec![0, 0])),
        Err(MalformedReply::TruncatedItem {
            caller: 0,
            expected_end: 3,
            actual: 2,
        })
    );
    assert_eq!(
        map.analyze(&reply(5, vec![0, 5, 0])),
        Err(MalformedReply::OperationsAfterFailure {
            failed_op: 1,
            actual: 3,
        })
    );
    assert_eq!(
        map.analyze(&reply(6, vec![0, 5])),
        Err(MalformedReply::StatusMismatch {
            compound: 6,
            operation: 5,
        })
    );
}

#[test]
fn malformed_replies_say_what_is_wrong() {
    let text = MalformedReply::StatusMismatch { compound: 6, operation: 5 }.message();
    assert!(text.contains('6') && text.contains('5'), "{text}");
    assert!(!MalformedReply::MissingSequence.message().is_empty());
}

#[test]
fn recovery_policy_is_failure_and_side_effect_aware() {
    assert_eq!(
        recovery_action(RequestSafety::ReadOnly, FailureCause::ItemStatus, true),
        RecoveryAction::ContinueSuffix
    );
    assert_eq!(
        recovery_action(
            RequestSafety::NonIdempotentMutation,
            FailureCause::ItemStatus,
            false
        ),
        RecoveryAction::ReturnFailure
    );
    assert_eq!(
        recovery_action(
            RequestSafety::ReadOnly,
            FailureCause::Transport {
                exact_replay: false
            },
            false
        ),
        RecoveryAction::ReconnectAndRetry
    );
    for safety in [
        RequestSafety::IdempotentMutation,
        RequestSafety::NonIdempotentMutation,
    ] {
        assert_eq!(
            recovery_action(
                safety,
                FailureCause::Transport {
                    exact_replay: false
                },
                false
            ),
            RecoveryAction::Ambiguous
        );
        assert_eq!(
            recovery_action(
                safety,
                FailureCause::Transport { exact_replay: true },
                false
            ),
            RecoveryAction::ReplaySame
        );
    }
    assert_eq!(
        recovery_action(RequestSafety::ReadOnly, FailureCause::ResourceLimit, false),
        RecoveryAction::SplitAndRetry
    );
}

#[test]
fn ranges_are_found_by_caller() {
    let map = fixed_map(3, 2);
    assert_eq!(map.range(1), Some((1, 3, 5)));
    assert_eq!(map.range(3), None);
}

use bridge_core::relayer::block_listener::{BlockListener, ListenerAction};
use bridge_core::relayer::message_sender::{
    find_message, Era, EraError, MessageInBlock, MessageSender, RelayedMerkleRoot,
};
use bridge_core::historical_proxy::{EndpointList, ProxyState};
use bridge_core::relayer::replay_back::{
    execute, resume, slots_batches, ReplayBack, ReplayCall, ReplayPlan, SlotsError,
};

fn message(nonce: u8, block: u32) -> MessageInBlock {
    let mut nonce_le = [0u8; 32];
    nonce_le[0] = nonce;
    MessageInBlock {
        nonce_le,
        block,
        block_hash: [block as u8; 32],
    }
}

fn root(authority_set_id: u64, block: u32) -> RelayedMerkleRoot {
    RelayedMerkleRoot {
        block,
        block_hash: [block as u8; 32],
        authority_set_id,
        merkle_root: [0xA0 | block as u8; 32],
    }
}

fn nonces(messages: &[MessageInBlock]) -> Vec<u8> {
    messages.iter().map(|message| message.nonce_le[0]).collect()
}

#[test]
fn listener_announces_every_new_block_once() {
    let mut listener = BlockListener::new(100);
    assert_eq!(
        listener.run_inner(103),
        ListenerAction::Announce { from: 100, to: 103 }
    );
    assert_eq!(listener.from_block, 104);
    assert_eq!(listener.run_inner(103), ListenerAction::Wait);
    assert_eq!(listener.from_block, 104);
    assert_eq!(listener.run_inner(90), ListenerAction::Wait);
    assert_eq!(
        listener.run_inner(104),
        ListenerAction::Announce { from: 104, to: 104 }
    );
    assert_eq!(listener.from_block, 105);
}

#[test]
fn slots_are_cut_into_batches() {
    assert_eq!(
        slots_batches(10, 40, 10),
        Some(vec![(10, 20), (20, 30), (30, 40)])
    );
    assert_eq!(
        slots_batches(10, 35, 10),
        Some(vec![(10, 20), (20, 30), (30, 35)])
    );
    assert_eq!(slots_batches(10, 15, 10), Some(vec![(10, 15)]));
    assert_eq!(slots_batches(10, 11, 1), Some(vec![(10, 11)]));
    assert_eq!(
        slots_batches(u64::MAX - 3, u64::MAX, 2),
        Some(vec![(u64::MAX - 3, u64::MAX - 1), (u64::MAX - 1, u64::MAX)])
    );
    assert_eq!(slots_batches(10, 10, 10), None);
    assert_eq!(slots_batches(11, 10, 10), None);
    assert_eq!(slots_batches(10, 20, 0), None);
}

#[test]
fn replay_under_way_is_finished_first() {
    let resumed = resume(
        Some(ReplayBack {
            finalized_header: 8_000,
            last_header: 30,
        }),
        0,
        16,
    )
    .unwrap();
    assert_eq!(
        resumed.calls,
        vec![
            ReplayCall::Process {
                slot_start: 0,
                slot_end: 16
            },
            ReplayCall::Process {
                slot_start: 16,
                slot_end: 30
            }
        ]
    );
    assert_eq!(resumed.slot_start, 8_000);
    assert_eq!(resumed.period_start, 1);
}

#[test]
fn without_a_replay_under_way_updates_start_at_the_checkpoint() {
    let resumed = resume(None, 5_263_072, 960).unwrap();
    assert!(resumed.calls.is_empty());
    assert_eq!(resumed.slot_start, 5_263_072);
    assert_eq!(resumed.period_start, 643);
}

#[test]
fn replay_under_way_with_no_slots_left_fails() {
    let failed = resume(
        Some(ReplayBack {
            finalized_header: 8_000,
            last_header: 30,
        }),
        30,
        16,
    );
    assert_eq!(
        failed.err(),
        Some(SlotsError {
            slot_start: 30,
            slot_end: 30
        })
    );
}

#[test]
fn every_update_starts_a_replay_of_its_own() {
    let calls = execute(&vec![100, 130], 80, 150, 16).unwrap();
    assert_eq!(
        calls,
        vec![
            ReplayCall::Start {
                update: 0,
                slot_start: 80,
                slot_end: 96
            },
            ReplayCall::Process {
                slot_start: 96,
                slot_end: 100
            },
            ReplayCall::Start {
                update: 1,
                slot_start: 100,
                slot_end: 116
            },
            ReplayCall::Process {
                slot_start: 116,
                slot_end: 130
            },
            ReplayCall::StartLast {
                slot_start: 130,
                slot_end: 146
            },
            ReplayCall::Process {
                slot_start: 146,
                slot_end: 150
            },
        ]
    );
}

#[test]
fn update_that_ends_at_the_last_slot_ends_the_plan() {
    let calls = execute(&vec![100, 130, 170], 80, 130, 64).unwrap();
    assert_eq!(
        calls,
        vec![
            ReplayCall::Start {
                update: 0,
                slot_start: 80,
                slot_end: 100
            },
            ReplayCall::Start {
                update: 1,
                slot_start: 100,
                slot_end: 130
            },
        ]
    );
}

#[test]
fn plan_without_updates_replays_to_the_last_slot() {
    let calls = execute(&vec![], 80, 100, 64).unwrap();
    assert_eq!(
        calls,
        vec![ReplayCall::StartLast {
            slot_start: 80,
            slot_end: 100
        }]
    );
}

#[test]
fn plan_fails_on_a_range_without_slots() {
    assert_eq!(
        execute(&vec![100, 100], 80, 150, 16).err(),
        Some(SlotsError {
            slot_start: 100,
            slot_end: 100
        })
    );
    assert_eq!(
        execute(&vec![100], 80, 90, 16).err(),
        Some(SlotsError {
            slot_start: 100,
            slot_end: 90
        })
    );
    assert_eq!(
        execute(&vec![], 80, 80, 16).err(),
        Some(SlotsError {
            slot_start: 80,
            slot_end: 80
        })
    );
    assert_eq!(
        execute(&vec![100], 80, 150, 0).err(),
        Some(SlotsError {
            slot_start: 80,
            slot_end: 100
        })
    );
}

#[test]
fn era_sends_messages_that_a_root_covers() {
    let mut era = Era::new();
    era.push_message(message(1, 10));
    era.push_message(message(2, 30));
    era.push_message(message(3, 20));
    assert_eq!(
        era.covering_root(&message(1, 10)),
        Err(EraError::NoMatchingMerkleRoot)
    );
    assert!(era.process().is_empty());
    assert_eq!(nonces(&era.pending_messages), vec![1, 2, 3]);

    era.push_merkle_root(root(7, 25));
    era.push_merkle_root(root(7, 20));
    assert_eq!(era.covering_root(&message(1, 10)), Ok(0));
    assert_eq!(era.covering_root(&message(3, 25)), Ok(0));
    assert_eq!(
        era.covering_root(&message(2, 30)),
        Err(EraError::NoMatchingMerkleRoot)
    );
    let submissions = era.process();
    let sent: Vec<(u8, u32)> = submissions
        .iter()
        .map(|submission| (submission.message.nonce_le[0], submission.merkle_root.block))
        .collect();
    assert_eq!(sent, vec![(1, 25), (3, 25)]);
    assert_eq!(nonces(&era.pending_messages), vec![2]);
    assert_eq!(era.queued_merkle_roots.len(), 2);

    era.push_merkle_root(root(7, 30));
    let submissions = era.process();
    assert_eq!(submissions.len(), 1);
    assert_eq!(submissions[0].merkle_root.block, 30);
    assert!(era.pending_messages.is_empty());
}

#[test]
fn era_is_finalized_when_no_transaction_waits_and_a_later_era_is_known() {
    let mut era = Era::new();
    assert_eq!(era.try_finalize(3, 4), Ok(true));
    assert_eq!(era.try_finalize(3, 3), Ok(false));
    era.transaction_sent([1; 32]);
    era.transaction_sent([2; 32]);
    era.transaction_sent([1; 32]);
    assert_eq!(era.pending_tx_count(), 3);
    assert_eq!(era.try_finalize(3, 4), Err(EraError::TransactionPending));
    assert!(era.finalize_transaction(&[1; 32]));
    assert_eq!(era.pending_transactions, vec![[2; 32], [1; 32]]);
    assert!(!era.finalize_transaction(&[9; 32]));
    era.transaction_finalized(0);
    assert_eq!(era.pending_transactions, vec![[1; 32]]);
    assert!(era.finalize_transaction(&[1; 32]));
    assert_eq!(era.try_finalize(3, 4), Ok(true));
}

#[test]
fn sender_keeps_eras_in_the_order_of_their_ids() {
    let mut sender = MessageSender::new();
    assert_eq!(sender.latest_era(), None);
    sender.push_message(5, message(1, 10));
    sender.push_merkle_root(root(3, 8));
    sender.push_message(9, message(2, 10));
    sender.push_message(5, message(3, 12));
    sender.push_merkle_root(root(5, 11));
    assert_eq!(sender.len(), 3);
    assert_eq!(sender.latest_era(), Some(9));

    let submissions = sender.process();
    let sent: Vec<(u64, u8, u32)> = submissions
        .iter()
        .map(|(id, submission)| {
            (
                *id,
                submission.message.nonce_le[0],
                submission.merkle_root.block,
            )
        })
        .collect();
    assert_eq!(sent, vec![(5, 1, 11)]);
    sender.push_merkle_root(root(9, 10));
    sender.push_merkle_root(root(5, 12));
    let submissions = sender.process();
    let sent: Vec<(u64, u8)> = submissions
        .iter()
        .map(|(id, submission)| (*id, submission.message.nonce_le[0]))
        .collect();
    assert_eq!(sent, vec![(5, 3), (9, 2)]);
}

#[test]
fn sender_retires_finalized_eras_but_never_the_latest() {
    let mut sender = MessageSender::new();
    sender.push_merkle_root(root(3, 8));
    sender.push_merkle_root(root(5, 11));
    sender.push_merkle_root(root(9, 20));
    assert!(sender.transaction_sent(5, [0x55; 32]));
    assert!(!sender.transaction_sent(6, [0x66; 32]));
    assert_eq!(sender.pending_tx_count(), 1);

    assert_eq!(sender.retire_finalized(), vec![3]);
    assert_eq!(sender.len(), 2);
    assert_eq!(sender.retire_finalized(), Vec::<u64>::new());

    assert!(!sender.transaction_finalized(5, &[0x56; 32]));
    assert!(!sender.transaction_finalized(4, &[0x55; 32]));
    assert!(sender.transaction_finalized(5, &[0x55; 32]));
    assert_eq!(sender.pending_tx_count(), 0);
    assert_eq!(sender.retire_finalized(), vec![5]);
    assert_eq!(sender.len(), 1);
    assert_eq!(sender.latest_era(), Some(9));
    assert_eq!(sender.retire_finalized(), Vec::<u64>::new());
    assert_eq!(sender.len(), 1);

    let mut empty = MessageSender::new();
    assert_eq!(empty.retire_finalized(), Vec::<u64>::new());
    assert_eq!(empty.pending_tx_count(), 0);
}

#[test]
fn message_is_found_by_its_nonce() {
    let messages = vec![message(4, 1), message(7, 2), message(4, 3)];
    assert_eq!(find_message(&messages, &message(7, 0).nonce_le), Some(1));
    assert_eq!(find_message(&messages, &message(4, 0).nonce_le), Some(0));
    assert_eq!(find_message(&messages, &message(5, 0).nonce_le), None);
    assert_eq!(find_message(&vec![], &message(5, 0).nonce_le), None);
}

#[test]
fn plan_is_taken_update_by_update() {
    let mut plan = ReplayPlan::new(80, 150, 16);
    assert!(!plan.finished);
    let calls = plan.update(0, 100).unwrap();
    assert_eq!(
        calls,
        vec![
            ReplayCall::Start {
                update: 0,
                slot_start: 80,
                slot_end: 96
            },
            ReplayCall::Process {
                slot_start: 96,
                slot_end: 100
            },
        ]
    );
    assert_eq!(plan.slot_start, 100);
    assert!(!plan.finished);

    // a range without slots stops the plan where it stands
    assert_eq!(
        plan.update(1, 100).err(),
        Some(SlotsError {
            slot_start: 100,
            slot_end: 100
        })
    );
    assert_eq!(plan.slot_start, 100);

    let calls = plan.finish().unwrap();
    assert_eq!(
        calls,
        vec![
            ReplayCall::StartLast {
                slot_start: 100,
                slot_end: 116
            },
            ReplayCall::Process {
                slot_start: 116,
                slot_end: 132
            },
            ReplayCall::Process {
                slot_start: 132,
                slot_end: 148
            },
            ReplayCall::Process {
                slot_start: 148,
                slot_end: 150
            },
        ]
    );
}

#[test]
fn plan_ends_with_the_update_that_reaches_the_last_slot() {
    let mut plan = ReplayPlan::new(80, 130, 64);
    plan.update(0, 100).unwrap();
    assert!(!plan.finished);
    plan.update(1, 130).unwrap();
    assert!(plan.finished);
    assert_eq!(plan.slot_start, 130);
    assert_eq!(
        plan.finish().err(),
        Some(SlotsError {
            slot_start: 130,
            slot_end: 130
        })
    );
}

#[test]
fn steps_of_the_plan_make_up_the_whole_plan() {
    let update_slots = vec![100, 130];
    let whole = execute(&update_slots, 80, 150, 16).unwrap();
    let mut plan = ReplayPlan::new(80, 150, 16);
    let mut steps = Vec::new();
    for (update, slot) in update_slots.iter().enumerate() {
        steps.extend(plan.update(update, *slot).unwrap());
    }
    steps.extend(plan.finish().unwrap());
    assert_eq!(steps, whole);
}

#[test]
fn endpoints_serve_the_slots_from_their_first_slot_on() {
    let mut list = EndpointList::new();
    assert_eq!(list.endpoint_for(5), None);
    assert!(list.push(10, [1; 32]));
    assert!(list.push(20, [2; 32]));
    assert!(!list.push(20, [3; 32]));
    assert!(!list.push(15, [3; 32]));
    assert!(list.push(21, [3; 32]));
    assert_eq!(list.endpoint_for(9), None);
    assert_eq!(list.endpoint_for(10), Some([1; 32]));
    assert_eq!(list.endpoint_for(19), Some([1; 32]));
    assert_eq!(list.endpoint_for(20), Some([2; 32]));
    assert_eq!(list.endpoint_for(21), Some([3; 32]));
    assert_eq!(list.endpoint_for(u64::MAX), Some([3; 32]));
}

#[test]
fn only_the_administrator_adds_endpoints() {
    let mut state = ProxyState::new([7; 32]);
    assert!(!state.add_endpoint(&[8; 32], 10, [1; 32]));
    assert_eq!(state.endpoints.endpoint_for(10), None);
    assert!(state.add_endpoint(&[7; 32], 10, [1; 32]));
    assert!(!state.add_endpoint(&[7; 32], 10, [2; 32]));
    assert_eq!(state.endpoints.endpoint_for(11), Some([1; 32]));
    assert_eq!(state.admin, [7; 32]);
}

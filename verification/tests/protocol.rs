//! End-to-end checks of the guard pipeline, the gateway, block advancement
//! and the proof/fraud bridge.

use tig_core::advance::{advance_block, apply_advancement};
use tig_core::context::{
    AlgorithmsFilter, BlockFilter, ChallengesFilter, Ledger, PlayersFilter, TopUpsFilter,
};
use tig_core::error::ProtocolError;
use tig_core::model::{
    AlgorithmDetails, Block, BlockDetails, Challenge, ChallengeState, LifecycleState, Player,
    ProtocolConfig, TopUp, Transaction,
};
use tig_core::submit_algorithm::{execute, verify_challenge_exists, verify_submission_fee};
use tig_core::verification::{
    adjudicate_fraud, adjudicate_proof, resolve_fraud, settle_proof, verify_fraud_target,
};

fn config() -> ProtocolConfig {
    ProtocolConfig {
        burn_address: "0xBURN".to_string(),
        algorithm_submission_fee: 100,
        blocks_per_round: 10,
    }
}

fn block_at(height: u32, round: u32) -> Block {
    Block {
        id: 0,
        details: BlockDetails { height, round },
        config: config(),
    }
}

fn challenge(id: &str, round_active: Option<u32>) -> Challenge {
    Challenge {
        id: id.to_string(),
        name: format!("{}-name", id),
        state: ChallengeState {
            lifecycle: LifecycleState::Active,
            round_active,
        },
    }
}

fn player(id: &str) -> Player {
    Player {
        id: id.to_string(),
        name: id.to_string(),
        is_benchmarker: false,
        is_innovator: true,
    }
}

fn transaction(tx_hash: &str, sender: &str, receiver: &str, amount: u64) -> Transaction {
    Transaction {
        tx_hash: tx_hash.to_string(),
        sender: sender.to_string(),
        receiver: receiver.to_string(),
        amount,
    }
}

fn base_ledger() -> Ledger {
    Ledger {
        blocks: vec![block_at(50, 5)],
        block_data: vec![tig_core::model::BlockData {
            confirmed_algorithm_ids: vec![],
            rejected_algorithm_ids: vec![],
        }],
        algorithms: vec![],
        benchmarks: vec![],
        challenges: vec![challenge("chal1", Some(5))],
        frauds: vec![],
        players: vec![player("P1")],
        precommits: vec![],
        proofs: vec![],
        topups: vec![],
        wasms: vec![],
        transactions: vec![transaction("0xabc", "P1", "0xBURN", 100)],
        next_algorithm_id: 0,
        next_block_id: 1,
    }
}

fn details(challenge_id: &str, tx_hash: &str) -> AlgorithmDetails {
    AlgorithmDetails {
        name: "solver".to_string(),
        challenge_id: challenge_id.to_string(),
        tx_hash: tx_hash.to_string(),
    }
}

#[test]
fn submit_algorithm_succeeds_then_duplicate_rejected() {
    let mut ledger = base_ledger();
    let p = player("P1");
    let r = execute(&mut ledger, &p, details("chal1", "0xabc"), "code".to_string());
    assert_eq!(r.ok(), Some(0));
    assert_eq!(ledger.algorithms.len(), 1);
    assert_eq!(ledger.algorithms[0].state, LifecycleState::Mempool);
    assert_eq!(ledger.algorithms[0].details.tx_hash, "0xabc");

    let again = execute(&mut ledger, &p, details("chal1", "0xabc"), "code".to_string());
    match again {
        Err(ProtocolError::DuplicateTransaction { tx_hash }) => assert_eq!(tx_hash, "0xabc"),
        other => panic!("expected duplicate transaction, got {:?}", other.is_ok()),
    }
    assert_eq!(ledger.algorithms.len(), 1);
}

#[test]
fn wrong_amount_reports_expected_and_actual() {
    let mut ledger = base_ledger();
    ledger.transactions = vec![transaction("0xabc", "P1", "0xBURN", 99)];
    let p = player("P1");
    let r = execute(&mut ledger, &p, details("chal1", "0xabc"), "code".to_string());
    match r {
        Err(ProtocolError::InvalidTransactionAmount {
            tx_hash,
            expected_amount,
            actual_amount,
        }) => {
            assert_eq!(tx_hash, "0xabc");
            assert_eq!(expected_amount, 100);
            assert_eq!(actual_amount, 99);
        }
        _ => panic!("expected invalid amount"),
    }
    assert!(ledger.algorithms.is_empty());
}

#[test]
fn future_challenge_round_rejected() {
    let mut ledger = base_ledger();
    ledger.challenges = vec![challenge("chal1", Some(6))];
    let p = player("P1");
    let r = execute(&mut ledger, &p, details("chal1", "0xabc"), "code".to_string());
    match r {
        Err(ProtocolError::InvalidChallenge { challenge_id }) => {
            assert_eq!(challenge_id, "chal1")
        }
        _ => panic!("expected invalid challenge"),
    }
}

#[test]
fn unscheduled_challenge_rejected() {
    let ledger = {
        let mut l = base_ledger();
        l.challenges = vec![challenge("chal1", None)];
        l
    };
    let r = verify_challenge_exists(&ledger, &details("chal1", "0xabc"));
    assert!(matches!(r, Err(ProtocolError::InvalidChallenge { .. })));
}

#[test]
fn unknown_challenge_rejected() {
    let ledger = base_ledger();
    let r = verify_challenge_exists(&ledger, &details("chal9", "0xabc"));
    assert!(matches!(r, Err(ProtocolError::InvalidChallenge { .. })));
}

#[test]
fn missing_transaction_rejected() {
    let ledger = base_ledger();
    let p = player("P1");
    let r = verify_submission_fee(&ledger, &p, &details("chal1", "0xdef"));
    match r {
        Err(ProtocolError::InvalidTransaction { tx_hash }) => assert_eq!(tx_hash, "0xdef"),
        _ => panic!("expected invalid transaction"),
    }
}

#[test]
fn wrong_sender_reports_both_parties() {
    let mut ledger = base_ledger();
    ledger.transactions = vec![transaction("0xabc", "P2", "0xBURN", 100)];
    let p = player("P1");
    let r = verify_submission_fee(&ledger, &p, &details("chal1", "0xabc"));
    match r {
        Err(ProtocolError::InvalidTransactionSender {
            tx_hash,
            expected_sender,
            actual_sender,
        }) => {
            assert_eq!(tx_hash, "0xabc");
            assert_eq!(expected_sender, "P1");
            assert_eq!(actual_sender, "P2");
        }
        _ => panic!("expected invalid sender"),
    }
}

#[test]
fn wrong_receiver_reports_burn_address() {
    let mut ledger = base_ledger();
    ledger.transactions = vec![transaction("0xabc", "P1", "0xELSE", 100)];
    let p = player("P1");
    let r = verify_submission_fee(&ledger, &p, &details("chal1", "0xabc"));
    match r {
        Err(ProtocolError::InvalidTransactionReceiver {
            tx_hash,
            expected_receiver,
            actual_receiver,
        }) => {
            assert_eq!(tx_hash, "0xabc");
            assert_eq!(expected_receiver, "0xBURN");
            assert_eq!(actual_receiver, "0xELSE");
        }
        _ => panic!("expected invalid receiver"),
    }
}

#[test]
fn gateway_filters_select_exactly_the_matches() {
    let mut ledger = base_ledger();
    ledger.challenges.push(challenge("chal2", Some(1)));
    ledger.players.push(Player {
        id: "P2".to_string(),
        name: "bench".to_string(),
        is_benchmarker: true,
        is_innovator: false,
    });
    ledger.topups.push(TopUp {
        id: "0xt1".to_string(),
        player_id: "P1".to_string(),
        amount: 7,
        state: LifecycleState::Mempool,
    });

    let by_id = ledger.get_challenges(&ChallengesFilter::Id("chal2".to_string()));
    assert_eq!(by_id.len(), 1);
    assert_eq!(by_id[0].id, "chal2");

    let by_name = ledger.get_challenges(&ChallengesFilter::Name("chal1-name".to_string()));
    assert_eq!(by_name.len(), 1);
    assert_eq!(by_name[0].id, "chal1");

    let benchmarkers = ledger.get_players(&PlayersFilter::Benchmarkers);
    assert_eq!(benchmarkers.len(), 1);
    assert_eq!(benchmarkers[0].id, "P2");

    let pending = ledger.get_topups(&TopUpsFilter::Mempool);
    assert_eq!(pending.len(), 1);
    assert_eq!(pending[0].id, "0xt1");

    let latest = ledger.get_block(&BlockFilter::Latest).expect("latest block");
    assert_eq!(latest.details.round, 5);
    assert!(ledger.get_block(&BlockFilter::Height(7)).is_none());
    let by_height = ledger.get_block(&BlockFilter::Height(50)).expect("height");
    assert_eq!(by_height.id, 0);

    let tx = ledger.get_transaction(&"0xabc".to_string()).expect("tx");
    assert_eq!(tx.amount, 100);
    assert!(ledger.get_transaction(&"0xmissing".to_string()).is_none());
}

#[test]
fn gateway_mints_sequential_algorithm_ids() {
    let mut ledger = base_ledger();
    let a = ledger.add_algorithm_to_mempool(details("chal1", "0x1"), "a".to_string());
    let b = ledger.add_algorithm_to_mempool(details("chal1", "0x2"), "b".to_string());
    assert_eq!((a, b), (0, 1));
    let dup = ledger.get_algorithms(&AlgorithmsFilter::TxHash("0x2".to_string()));
    assert_eq!(dup.len(), 1);
    assert_eq!(dup[0].id, 1);
}

#[test]
fn advancement_confirms_eligible_and_rejects_the_rest() {
    let mut ledger = base_ledger();
    ledger.challenges.push(challenge("chal-future", Some(9)));
    ledger.add_algorithm_to_mempool(details("chal1", "0x1"), "a".to_string());
    ledger.add_algorithm_to_mempool(details("chal-future", "0x2"), "b".to_string());
    ledger.add_algorithm_to_mempool(details("chal-missing", "0x3"), "c".to_string());

    let adv = advance_block(&ledger);
    assert_eq!(adv.details.height, 51);
    assert_eq!(adv.details.round, 5);
    assert_eq!(adv.data.confirmed_algorithm_ids, vec![0]);
    assert_eq!(adv.data.rejected_algorithm_ids, vec![1, 2]);

    let block_id = apply_advancement(&mut ledger, adv);
    assert_eq!(block_id, 1);
    assert_eq!(ledger.blocks.len(), 2);
    assert_eq!(ledger.algorithms[0].state, LifecycleState::Confirmed);
    assert_eq!(ledger.algorithms[1].state, LifecycleState::Rejected);
    assert_eq!(ledger.algorithms[2].state, LifecycleState::Rejected);
    let latest = ledger.get_block(&BlockFilter::Latest).expect("latest");
    assert_eq!(latest.details.height, 51);
}

#[test]
fn advancement_rerun_is_identical() {
    let mut ledger = base_ledger();
    ledger.add_algorithm_to_mempool(details("chal1", "0x1"), "a".to_string());
    ledger.add_algorithm_to_mempool(details("chal1", "0x2"), "b".to_string());
    let first = advance_block(&ledger);
    let second = advance_block(&ledger);
    assert_eq!(first.details, second.details);
    assert_eq!(
        first.data.confirmed_algorithm_ids,
        second.data.confirmed_algorithm_ids
    );
    assert_eq!(
        first.data.rejected_algorithm_ids,
        second.data.rejected_algorithm_ids
    );
}

#[test]
fn proof_confirmation_requires_every_nonce() {
    assert_eq!(adjudicate_proof(&vec![true, true, true]), LifecycleState::Active);
    assert_eq!(adjudicate_proof(&vec![]), LifecycleState::Active);
    assert_eq!(
        adjudicate_proof(&vec![true, false, true]),
        LifecycleState::Rejected
    );
    assert_eq!(adjudicate_proof(&vec![false]), LifecycleState::Rejected);
}

#[test]
fn fraud_adjudication_demotes_on_disagreement() {
    let confirmed = adjudicate_fraud(&vec![true, false]);
    assert_eq!(confirmed.fraud_state, LifecycleState::Confirmed);
    assert_eq!(confirmed.proof_state, LifecycleState::Rejected);
    assert_eq!(confirmed.benchmark_state, LifecycleState::Rejected);

    let rejected = adjudicate_fraud(&vec![true, true]);
    assert_eq!(rejected.fraud_state, LifecycleState::Rejected);
    assert_eq!(rejected.proof_state, LifecycleState::Active);
    assert_eq!(rejected.benchmark_state, LifecycleState::Active);
}

#[test]
fn settle_proof_writes_the_decision() {
    let mut ledger = base_ledger();
    ledger.proofs.push(tig_core::model::Proof {
        benchmark_id: "bench1".to_string(),
        state: LifecycleState::Confirmed,
        block_started: 50,
    });
    ledger.proofs.push(tig_core::model::Proof {
        benchmark_id: "bench2".to_string(),
        state: LifecycleState::Confirmed,
        block_started: 50,
    });
    let r = settle_proof(&mut ledger, &"bench1".to_string(), &vec![true, true]);
    assert_eq!(r, LifecycleState::Active);
    assert_eq!(ledger.proofs[0].state, LifecycleState::Active);
    assert_eq!(ledger.proofs[1].state, LifecycleState::Confirmed);

    let r = settle_proof(&mut ledger, &"bench2".to_string(), &vec![true, false]);
    assert_eq!(r, LifecycleState::Rejected);
    assert_eq!(ledger.proofs[1].state, LifecycleState::Rejected);
}

#[test]
fn resolve_fraud_demotes_proof_and_benchmark_together() {
    let mut ledger = base_ledger();
    ledger.proofs.push(tig_core::model::Proof {
        benchmark_id: "bench1".to_string(),
        state: LifecycleState::Active,
        block_started: 50,
    });
    ledger.benchmarks.push(tig_core::model::Benchmark {
        id: "bench1".to_string(),
        state: LifecycleState::Active,
        block_started: 50,
        num_nonces: 4,
    });
    ledger.frauds.push(tig_core::model::Fraud {
        benchmark_id: "bench1".to_string(),
        allegation: "recomputed mismatch".to_string(),
        state: LifecycleState::Mempool,
        block_started: 51,
    });
    let r = resolve_fraud(&mut ledger, &"bench1".to_string(), &vec![true, false, true]);
    assert_eq!(r.fraud_state, LifecycleState::Confirmed);
    assert_eq!(ledger.proofs[0].state, LifecycleState::Rejected);
    assert_eq!(ledger.benchmarks[0].state, LifecycleState::Rejected);
    assert_eq!(ledger.frauds[0].state, LifecycleState::Confirmed);
}

#[test]
fn fraud_target_must_be_confirmed() {
    let mut ledger = base_ledger();
    let missing = verify_fraud_target(&ledger, &"bench1".to_string());
    match missing {
        Err(ProtocolError::FraudTargetNotConfirmed { benchmark_id }) => {
            assert_eq!(benchmark_id, "bench1")
        }
        _ => panic!("expected fraud target rejection"),
    }

    ledger.proofs.push(tig_core::model::Proof {
        benchmark_id: "bench1".to_string(),
        state: LifecycleState::Confirmed,
        block_started: 50,
    });
    assert!(verify_fraud_target(&ledger, &"bench1".to_string()).is_ok());
}

//! Guard pipeline for algorithm submissions.
//!
//! An ordered, short-circuiting sequence of independent checks against the
//! latest confirmed block: the eligibility guard (the referenced challenge
//! exists and accepts submissions as of the latest round) and the payment
//! guard (the fee transaction is unused, exists, and has the right sender,
//! receiver and amount, each checked independently). On success the pipeline
//! inserts the algorithm into the mempool and returns the freshly minted
//! identifier. Business rejections are typed; a missing latest block is an
//! infrastructure fault and is excluded by precondition instead of being
//! converted into a rejection.

use vstd::prelude::*;

use crate::context::{
    algorithm_matches, challenge_matches, lemma_matching_first, matching, transaction_matches,
    AlgorithmsFilter, BlockFilter, ChallengesFilter, Ledger,
};
use crate::error::ProtocolError;
use crate::model::{Algorithm, AlgorithmDetails, Challenge, LifecycleState, Player, Transaction};
use vstd::pervasive::unreached;

verus! {

/// Whether a challenge accepts submissions as of the given round: it must
/// have been scheduled (`round_active` set) and its activation round must
/// have been reached.
pub open spec fn challenge_accepting(c: Challenge, round: u32) -> bool {
    match c.state.round_active {
        Some(r) => r <= round,
        None => false,
    }
}

/// Decision of the eligibility guard: the first challenge with the requested
/// identifier must accept submissions as of the latest block's round.
pub open spec fn spec_verify_challenge_exists(l: Ledger, d: AlgorithmDetails) -> Result<
    (),
    ProtocolError,
> {
    let cs = matching(
        l.challenges@,
        |c: Challenge| challenge_matches(c, ChallengesFilter::Id(d.challenge_id)),
    );
    if cs.len() > 0 && challenge_accepting(cs[0], l.spec_latest_block().details.round) {
        Ok(())
    } else {
        Err(ProtocolError::InvalidChallenge { challenge_id: d.challenge_id })
    }
}

/// Decision of the payment guard, in check order: no existing algorithm may
/// reference the transaction, the transaction must exist, and its sender,
/// receiver and amount must each match expectations, each failure reported
/// by its own variant with expected and actual values.
pub open spec fn spec_verify_submission_fee(l: Ledger, player: Player, d: AlgorithmDetails) -> Result<
    (),
    ProtocolError,
> {
    let dupes = matching(
        l.algorithms@,
        |a: Algorithm| algorithm_matches(a, AlgorithmsFilter::TxHash(d.tx_hash)),
    );
    let txs = matching(l.transactions@, |t: Transaction| transaction_matches(t, d.tx_hash@));
    let cfg = l.spec_latest_block().config;
    if dupes.len() > 0 {
        Err(ProtocolError::DuplicateTransaction { tx_hash: d.tx_hash })
    } else if txs.len() == 0 {
        Err(ProtocolError::InvalidTransaction { tx_hash: d.tx_hash })
    } else if txs[0].sender@ != player.id@ {
        Err(
            ProtocolError::InvalidTransactionSender {
                tx_hash: d.tx_hash,
                expected_sender: player.id,
                actual_sender: txs[0].sender,
            },
        )
    } else if txs[0].receiver@ != cfg.burn_address@ {
        Err(
            ProtocolError::InvalidTransactionReceiver {
                tx_hash: d.tx_hash,
                expected_receiver: cfg.burn_address,
                actual_receiver: txs[0].receiver,
            },
        )
    } else if txs[0].amount != cfg.algorithm_submission_fee {
        Err(
            ProtocolError::InvalidTransactionAmount {
                tx_hash: d.tx_hash,
                expected_amount: cfg.algorithm_submission_fee,
                actual_amount: txs[0].amount,
            },
        )
    } else {
        Ok(())
    }
}

/// The whole pipeline decision: first business error wins, in guard order.
pub open spec fn spec_submit_algorithm(l: Ledger, player: Player, d: AlgorithmDetails) -> Result<
    (),
    ProtocolError,
> {
    match spec_verify_challenge_exists(l, d) {
        Ok(()) => spec_verify_submission_fee(l, player, d),
        Err(e) => Err(e),
    }
}

/// Eligibility guard: the referenced challenge must exist and accept
/// submissions as of the latest block's round.
pub fn verify_challenge_exists(ledger: &Ledger, details: &AlgorithmDetails) -> (r: Result<
    (),
    ProtocolError,
>)
    requires
        ledger.blocks@.len() > 0,
    ensures
        r == spec_verify_challenge_exists(*ledger, *details),
{
    let latest_block = match ledger.get_block(&BlockFilter::Latest) {
        Some(b) => b,
        None => unreached(),
    };
    let cs = ledger.get_challenges(&ChallengesFilter::Id(details.challenge_id.clone()));
    if cs.len() > 0 {
        let accepting = match cs[0].state.round_active {
            Some(r) => r <= latest_block.details.round,
            None => false,
        };
        if accepting {
            return Ok(());
        }
    }
    Err(ProtocolError::InvalidChallenge { challenge_id: details.challenge_id.clone() })
}

/// Payment guard: duplicate-transaction check, then existence, sender,
/// receiver and amount of the fee transaction, each reported independently.
pub fn verify_submission_fee(ledger: &Ledger, player: &Player, details: &AlgorithmDetails) -> (r:
    Result<(), ProtocolError>)
    requires
        ledger.blocks@.len() > 0,
    ensures
        r == spec_verify_submission_fee(*ledger, *player, *details),
{
    let block = match ledger.get_block(&BlockFilter::Latest) {
        Some(b) => b,
        None => unreached(),
    };
    let dupes = ledger.get_algorithms(&AlgorithmsFilter::TxHash(details.tx_hash.clone()));
    if dupes.len() > 0 {
        return Err(ProtocolError::DuplicateTransaction { tx_hash: details.tx_hash.clone() });
    }
    let transaction = match ledger.get_transaction(&details.tx_hash) {
        Some(t) => t,
        None => {
            return Err(ProtocolError::InvalidTransaction { tx_hash: details.tx_hash.clone() });
        },
    };
    if player.id != transaction.sender {
        return Err(
            ProtocolError::InvalidTransactionSender {
                tx_hash: details.tx_hash.clone(),
                expected_sender: player.id.clone(),
                actual_sender: transaction.sender.clone(),
            },
        );
    }
    if transaction.receiver != block.config.burn_address {
        return Err(
            ProtocolError::InvalidTransactionReceiver {
                tx_hash: details.tx_hash.clone(),
                expected_receiver: block.config.burn_address.clone(),
                actual_receiver: transaction.receiver.clone(),
            },
        );
    }
    if transaction.amount != block.config.algorithm_submission_fee {
        return Err(
            ProtocolError::InvalidTransactionAmount {
                tx_hash: details.tx_hash.clone(),
                expected_amount: block.config.algorithm_submission_fee,
                actual_amount: transaction.amount,
            },
        );
    }
    Ok(())
}

/// Runs the guard pipeline for an algorithm submission; on success the
/// algorithm enters the mempool and the minted identifier is returned, and
/// on any business rejection the ledger is left untouched.
pub fn execute(ledger: &mut Ledger, player: &Player, details: AlgorithmDetails, code: String) -> (r:
    Result<u64, ProtocolError>)
    requires
        old(ledger).wf(),
        old(ledger).blocks@.len() > 0,
        old(ledger).next_algorithm_id < u64::MAX,
    ensures
        final(ledger).wf(),
        match spec_submit_algorithm(*old(ledger), *player, details) {
            Ok(()) => {
                &&& r == Ok::<u64, ProtocolError>(old(ledger).next_algorithm_id)
                &&& final(ledger).algorithms@ == old(ledger).algorithms@.push(
                    (Algorithm {
                        id: old(ledger).next_algorithm_id,
                        details,
                        state: LifecycleState::Mempool,
                        code,
                    }),
                )
                &&& final(ledger).next_algorithm_id == old(ledger).next_algorithm_id + 1
                &&& final(ledger).blocks == old(ledger).blocks
                &&& final(ledger).block_data == old(ledger).block_data
                &&& final(ledger).benchmarks == old(ledger).benchmarks
                &&& final(ledger).challenges == old(ledger).challenges
                &&& final(ledger).frauds == old(ledger).frauds
                &&& final(ledger).players == old(ledger).players
                &&& final(ledger).precommits == old(ledger).precommits
                &&& final(ledger).proofs == old(ledger).proofs
                &&& final(ledger).topups == old(ledger).topups
                &&& final(ledger).wasms == old(ledger).wasms
                &&& final(ledger).transactions == old(ledger).transactions
                &&& final(ledger).next_block_id == old(ledger).next_block_id
            },
            Err(e) => r == Err::<u64, ProtocolError>(e) && *final(ledger) == *old(ledger),
        },
{
    if let Err(e) = verify_challenge_exists(ledger, &details) {
        return Err(e);
    }
    if let Err(e) = verify_submission_fee(ledger, player, &details) {
        return Err(e);
    }
    let algorithm_id = ledger.add_algorithm_to_mempool(details, code);
    Ok(algorithm_id)
}

/// Law: a submission whose fee transaction hash is already referenced by an
/// existing algorithm fails with the duplicate-transaction error, regardless
/// of every other field of the submission and of the ledger.
pub proof fn lemma_duplicate_transaction_rejected(
    l: Ledger,
    player: Player,
    d: AlgorithmDetails,
    i: int,
)
    requires
        0 <= i < l.algorithms@.len(),
        l.algorithms@[i].details.tx_hash@ == d.tx_hash@,
    ensures
        spec_verify_submission_fee(l, player, d) == Err::<(), ProtocolError>(
            (ProtocolError::DuplicateTransaction { tx_hash: d.tx_hash }),
        ),
{
    let pred = |a: Algorithm| algorithm_matches(a, AlgorithmsFilter::TxHash(d.tx_hash));
    assert(pred(l.algorithms@[i]));
    lemma_matching_first(l.algorithms@, pred);
}

/// Law: a submission targeting a challenge that is unknown, unscheduled
/// (`round_active` unset) or scheduled past the latest block's round fails
/// with the invalid-challenge error.
pub proof fn lemma_inactive_challenge_rejected(l: Ledger, d: AlgorithmDetails)
    requires
        forall|i: int|
            0 <= i < l.challenges@.len() && (#[trigger] l.challenges@[i]).id@ == d.challenge_id@
                ==> !challenge_accepting(l.challenges@[i], l.spec_latest_block().details.round),
    ensures
        spec_verify_challenge_exists(l, d) == Err::<(), ProtocolError>(
            (ProtocolError::InvalidChallenge { challenge_id: d.challenge_id }),
        ),
{
    let pred = |c: Challenge| challenge_matches(c, ChallengesFilter::Id(d.challenge_id));
    lemma_matching_first(l.challenges@, pred);
}

/// No existing algorithm references this transaction hash.
pub open spec fn no_duplicate(l: Ledger, h: Seq<char>) -> bool {
    forall|i: int|
        0 <= i < l.algorithms@.len() ==> (#[trigger] l.algorithms@[i]).details.tx_hash@ != h
}

/// The fee transaction for hash `h` is the ledger entry at index `i`: it
/// carries the hash and no earlier entry does.
pub open spec fn first_fee_transaction_at(l: Ledger, h: Seq<char>, i: int) -> bool {
    &&& 0 <= i < l.transactions@.len()
    &&& l.transactions@[i].tx_hash@ == h
    &&& forall|j: int| 0 <= j < i ==> (#[trigger] l.transactions@[j]).tx_hash@ != h
}

/// Establishes which branch of the payment guard fires when the fee
/// transaction is the entry at index `i` and no duplicate exists.
proof fn lemma_payment_guard_on_transaction(l: Ledger, player: Player, d: AlgorithmDetails, i: int)
    requires
        no_duplicate(l, d.tx_hash@),
        first_fee_transaction_at(l, d.tx_hash@, i),
    ensures
        ({
            let dupes = matching(
                l.algorithms@,
                |a: Algorithm| algorithm_matches(a, AlgorithmsFilter::TxHash(d.tx_hash)),
            );
            let txs = matching(
                l.transactions@,
                |t: Transaction| transaction_matches(t, d.tx_hash@),
            );
            dupes.len() == 0 && txs.len() > 0 && txs[0] == l.transactions@[i]
        }),
{
    let dup_pred = |a: Algorithm| algorithm_matches(a, AlgorithmsFilter::TxHash(d.tx_hash));
    lemma_matching_first(l.algorithms@, dup_pred);
    let tx_pred = |t: Transaction| transaction_matches(t, d.tx_hash@);
    assert(tx_pred(l.transactions@[i]));
    lemma_matching_first(l.transactions@, tx_pred);
}

/// Law: a submission with an accepting challenge, a fresh fee transaction,
/// and the expected sender, receiver and amount passes the whole pipeline.
pub proof fn lemma_valid_submission_accepted(
    l: Ledger,
    player: Player,
    d: AlgorithmDetails,
    ci: int,
    ti: int,
)
    requires
        0 <= ci < l.challenges@.len(),
        l.challenges@[ci].id@ == d.challenge_id@,
        forall|j: int| 0 <= j < ci ==> (#[trigger] l.challenges@[j]).id@ != d.challenge_id@,
        challenge_accepting(l.challenges@[ci], l.spec_latest_block().details.round),
        no_duplicate(l, d.tx_hash@),
        first_fee_transaction_at(l, d.tx_hash@, ti),
        l.transactions@[ti].sender@ == player.id@,
        l.transactions@[ti].receiver@ == l.spec_latest_block().config.burn_address@,
        l.transactions@[ti].amount == l.spec_latest_block().config.algorithm_submission_fee,
    ensures
        spec_submit_algorithm(l, player, d) == Ok::<(), ProtocolError>(()),
{
    let pred = |c: Challenge| challenge_matches(c, ChallengesFilter::Id(d.challenge_id));
    assert(pred(l.challenges@[ci]));
    lemma_matching_first(l.challenges@, pred);
    lemma_payment_guard_on_transaction(l, player, d, ti);
}

/// Law (payment-guard independence, sender): when the fee transaction has
/// the wrong sender but the right receiver and amount, and the hash is not a
/// duplicate, the guard fails with exactly the sender error, carrying the
/// expected and actual senders.
pub proof fn lemma_wrong_sender_sole_error(l: Ledger, player: Player, d: AlgorithmDetails, i: int)
    requires
        no_duplicate(l, d.tx_hash@),
        first_fee_transaction_at(l, d.tx_hash@, i),
        l.transactions@[i].sender@ != player.id@,
        l.transactions@[i].receiver@ == l.spec_latest_block().config.burn_address@,
        l.transactions@[i].amount == l.spec_latest_block().config.algorithm_submission_fee,
    ensures
        spec_verify_submission_fee(l, player, d) == Err::<(), ProtocolError>(
            (ProtocolError::InvalidTransactionSender {
                tx_hash: d.tx_hash,
                expected_sender: player.id,
                actual_sender: l.transactions@[i].sender,
            }),
        ),
{
    lemma_payment_guard_on_transaction(l, player, d, i);
}

/// Law (payment-guard independence, receiver): when the fee transaction has
/// the right sender and amount but pays the wrong receiver, the guard fails
/// with exactly the receiver error, carrying the burn address and the actual
/// receiver.
pub proof fn lemma_wrong_receiver_sole_error(l: Ledger, player: Player, d: AlgorithmDetails, i: int)
    requires
        no_duplicate(l, d.tx_hash@),
        first_fee_transaction_at(l, d.tx_hash@, i),
        l.transactions@[i].sender@ == player.id@,
        l.transactions@[i].receiver@ != l.spec_latest_block().config.burn_address@,
        l.transactions@[i].amount == l.spec_latest_block().config.algorithm_submission_fee,
    ensures
        spec_verify_submission_fee(l, player, d) == Err::<(), ProtocolError>(
            (ProtocolError::InvalidTransactionReceiver {
                tx_hash: d.tx_hash,
                expected_receiver: l.spec_latest_block().config.burn_address,
                actual_receiver: l.transactions@[i].receiver,
            }),
        ),
{
    lemma_payment_guard_on_transaction(l, player, d, i);
}

/// Law (payment-guard independence, amount): when the fee transaction has
/// the right sender and receiver but pays the wrong amount, the guard fails
/// with exactly the amount error, carrying the configured fee and the actual
/// amount.
pub proof fn lemma_wrong_amount_sole_error(l: Ledger, player: Player, d: AlgorithmDetails, i: int)
    requires
        no_duplicate(l, d.tx_hash@),
        first_fee_transaction_at(l, d.tx_hash@, i),
        l.transactions@[i].sender@ == player.id@,
        l.transactions@[i].receiver@ == l.spec_latest_block().config.burn_address@,
        l.transactions@[i].amount != l.spec_latest_block().config.algorithm_submission_fee,
    ensures
        spec_verify_submission_fee(l, player, d) == Err::<(), ProtocolError>(
            (ProtocolError::InvalidTransactionAmount {
                tx_hash: d.tx_hash,
                expected_amount: l.spec_latest_block().config.algorithm_submission_fee,
                actual_amount: l.transactions@[i].amount,
            }),
        ),
{
    lemma_payment_guard_on_transaction(l, player, d, i);
}

} // verus!

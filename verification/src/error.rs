use vstd::prelude::*;

verus! {

/// Business-rule rejections reported to a submitter.
///
/// Each variant carries the identifiers and expected/actual values needed to
/// reproduce the decision on another node. Infrastructure faults (a failing
/// ledger read) are deliberately not represented here: they mean the local
/// replica is inconsistent with protocol state and are escalated as fatal by
/// the caller instead of being converted into a typed rejection.
pub enum ProtocolError {
    /// The referenced challenge does not exist, or its `round_active` round
    /// has not been reached by the latest block's round.
    InvalidChallenge { challenge_id: String },
    /// An entity of the same kind already references this fee transaction.
    DuplicateTransaction { tx_hash: String },
    /// No fee transaction with this hash is known to the payment ledger.
    InvalidTransaction { tx_hash: String },
    /// The fee transaction was not sent by the submitting player.
    InvalidTransactionSender {
        tx_hash: String,
        expected_sender: String,
        actual_sender: String,
    },
    /// The fee transaction did not pay to the configured burn address.
    InvalidTransactionReceiver {
        tx_hash: String,
        expected_receiver: String,
        actual_receiver: String,
    },
    /// The fee transaction paid a different amount than the configured fee.
    InvalidTransactionAmount {
        tx_hash: String,
        expected_amount: u64,
        actual_amount: u64,
    },
    /// A fraud allegation referenced a benchmark without a currently
    /// confirmed proof.
    FraudTargetNotConfirmed { benchmark_id: String },
}

} // verus!

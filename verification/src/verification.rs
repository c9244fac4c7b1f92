//! Proof verifier and fraud adjudicator.
//!
//! Checking a single solution runs in an external sandboxed engine; the
//! functions here take the per-nonce outcomes of those checks, one boolean
//! per sampled nonce, and make the protocol decision. A verification timeout
//! is reported by the engine's driver as a failed outcome, never as
//! "pending", so every nonce always has exactly one outcome.

use vstd::prelude::*;

use crate::context::{is_confirmed, matching, proof_matches, Ledger, ProofsFilter};
use crate::error::ProtocolError;
use crate::model::{Benchmark, Fraud, LifecycleState, Proof};

verus! {

/// Whether every sampled nonce's solution verified.
pub open spec fn all_nonces_verified(outcomes: Seq<bool>) -> bool {
    forall|i: int| 0 <= i < outcomes.len() ==> outcomes[i]
}

/// The state a proof reaches once its verification outcomes are in: active
/// only when every sampled nonce verified, rejected otherwise. There is no
/// partial credit.
pub open spec fn spec_adjudicate_proof(outcomes: Seq<bool>) -> LifecycleState {
    if all_nonces_verified(outcomes) {
        LifecycleState::Active
    } else {
        LifecycleState::Rejected
    }
}

/// Decides a submitted proof from the verification outcome of each of its
/// sampled nonces.
pub fn adjudicate_proof(outcomes: &Vec<bool>) -> (r: LifecycleState)
    ensures
        r == spec_adjudicate_proof(outcomes@),
{
    let mut i: usize = 0;
    while i < outcomes.len()
        invariant
            0 <= i <= outcomes.len(),
            forall|j: int| 0 <= j < i ==> outcomes@[j],
        decreases outcomes.len() - i,
    {
        if !outcomes[i] {
            return LifecycleState::Rejected;
        }
        i = i + 1;
    }
    LifecycleState::Active
}

/// Law: a single failing nonce rejects the whole proof, whatever the other
/// outcomes are.
pub proof fn lemma_single_failure_rejects_proof(outcomes: Seq<bool>, i: int)
    requires
        0 <= i < outcomes.len(),
        !outcomes[i],
    ensures
        spec_adjudicate_proof(outcomes) == LifecycleState::Rejected,
{
}

/// Resolution of a fraud allegation: the new states of the allegation itself
/// and of the proof and benchmark it targets.
#[derive(Clone, Copy, Debug, PartialEq, Eq, Structural)]
pub struct FraudResolution {
    pub fraud_state: LifecycleState,
    pub proof_state: LifecycleState,
    pub benchmark_state: LifecycleState,
}

/// Adjudication of a fraud allegation against a confirmed proof. The proof
/// was confirmed, so every nonce verified at confirmation time; if the
/// independent re-verification disagrees (some nonce now fails), the proof
/// and its owning benchmark are demoted and the allegation is confirmed.
/// Otherwise the allegation itself is rejected and the target is untouched.
pub open spec fn spec_adjudicate_fraud(reverification: Seq<bool>) -> FraudResolution {
    if all_nonces_verified(reverification) {
        FraudResolution {
            fraud_state: LifecycleState::Rejected,
            proof_state: LifecycleState::Active,
            benchmark_state: LifecycleState::Active,
        }
    } else {
        FraudResolution {
            fraud_state: LifecycleState::Confirmed,
            proof_state: LifecycleState::Rejected,
            benchmark_state: LifecycleState::Rejected,
        }
    }
}

/// Decides a fraud allegation from the re-verification outcome of each
/// sampled nonce of the targeted proof.
pub fn adjudicate_fraud(reverification: &Vec<bool>) -> (r: FraudResolution)
    ensures
        r == spec_adjudicate_fraud(reverification@),
{
    let mut i: usize = 0;
    while i < reverification.len()
        invariant
            0 <= i <= reverification.len(),
            forall|j: int| 0 <= j < i ==> reverification@[j],
        decreases reverification.len() - i,
    {
        if !reverification[i] {
            return FraudResolution {
                fraud_state: LifecycleState::Confirmed,
                proof_state: LifecycleState::Rejected,
                benchmark_state: LifecycleState::Rejected,
            };
        }
        i = i + 1;
    }
    FraudResolution {
        fraud_state: LifecycleState::Rejected,
        proof_state: LifecycleState::Active,
        benchmark_state: LifecycleState::Active,
    }
}

/// Decides a submitted proof and writes the outcome: the benchmark's proofs
/// become active only when every sampled nonce verified, rejected otherwise.
pub fn settle_proof(ledger: &mut Ledger, benchmark_id: &String, outcomes: &Vec<bool>) -> (r:
    LifecycleState)
    ensures
        r == spec_adjudicate_proof(outcomes@),
        final(ledger).proofs@.len() == old(ledger).proofs@.len(),
        forall|k: int|
            0 <= k < old(ledger).proofs@.len() ==> final(ledger).proofs@[k] == if old(
                ledger,
            ).proofs@[k].benchmark_id@ == benchmark_id@ {
                (Proof { state: spec_adjudicate_proof(outcomes@), ..old(ledger).proofs@[k] })
            } else {
                old(ledger).proofs@[k]
            },
        final(ledger).benchmarks == old(ledger).benchmarks,
        final(ledger).frauds == old(ledger).frauds,
        final(ledger).algorithms == old(ledger).algorithms,
        final(ledger).blocks == old(ledger).blocks,
{
    let decision = adjudicate_proof(outcomes);
    ledger.update_proof_state(benchmark_id, decision);
    decision
}

/// Resolves a fraud allegation and writes the outcome: on disagreement with
/// the re-verification the targeted proof and its benchmark are demoted and
/// the allegation is confirmed; otherwise the allegation is rejected and the
/// target keeps its standing.
pub fn resolve_fraud(ledger: &mut Ledger, benchmark_id: &String, reverification: &Vec<bool>) -> (r:
    FraudResolution)
    ensures
        r == spec_adjudicate_fraud(reverification@),
        final(ledger).proofs@.len() == old(ledger).proofs@.len(),
        forall|k: int|
            0 <= k < old(ledger).proofs@.len() ==> final(ledger).proofs@[k] == if old(
                ledger,
            ).proofs@[k].benchmark_id@ == benchmark_id@ {
                (Proof {
                    state: spec_adjudicate_fraud(reverification@).proof_state,
                    ..old(ledger).proofs@[k]
                })
            } else {
                old(ledger).proofs@[k]
            },
        final(ledger).benchmarks@.len() == old(ledger).benchmarks@.len(),
        forall|k: int|
            0 <= k < old(ledger).benchmarks@.len() ==> final(ledger).benchmarks@[k] == if old(
                ledger,
            ).benchmarks@[k].id@ == benchmark_id@ {
                (Benchmark {
                    state: spec_adjudicate_fraud(reverification@).benchmark_state,
                    ..old(ledger).benchmarks@[k]
                })
            } else {
                old(ledger).benchmarks@[k]
            },
        final(ledger).frauds@.len() == old(ledger).frauds@.len(),
        forall|k: int|
            0 <= k < old(ledger).frauds@.len() ==> final(ledger).frauds@[k] == if old(
                ledger,
            ).frauds@[k].benchmark_id@ == benchmark_id@ {
                (Fraud {
                    state: spec_adjudicate_fraud(reverification@).fraud_state,
                    ..old(ledger).frauds@[k]
                })
            } else {
                old(ledger).frauds@[k]
            },
        final(ledger).algorithms == old(ledger).algorithms,
        final(ledger).blocks == old(ledger).blocks,
{
    let resolution = adjudicate_fraud(reverification);
    ledger.update_proof_state(benchmark_id, resolution.proof_state);
    ledger.update_benchmark_state(benchmark_id, resolution.benchmark_state);
    ledger.update_fraud_state(benchmark_id, resolution.fraud_state);
    resolution
}

/// A fraud allegation is admissible only against a currently confirmed
/// proof: the ledger must hold a proof for the benchmark whose state counts
/// as confirmed.
pub open spec fn spec_fraud_target_confirmed(l: Ledger, benchmark_id: String) -> bool {
    let m = matching(
        l.proofs@,
        |p: Proof| proof_matches(p, ProofsFilter::BenchmarkId(benchmark_id)),
    );
    m.len() > 0 && is_confirmed(m[0].state)
}

/// Semantic guard of the fraud pipeline: the allegation must reference a
/// currently confirmed proof, otherwise it is rejected.
pub fn verify_fraud_target(ledger: &Ledger, benchmark_id: &String) -> (r: Result<
    (),
    ProtocolError,
>)
    ensures
        r == if spec_fraud_target_confirmed(*ledger, *benchmark_id) {
            Ok::<(), ProtocolError>(())
        } else {
            Err(ProtocolError::FraudTargetNotConfirmed { benchmark_id: *benchmark_id })
        },
{
    let m = ledger.get_proofs(&ProofsFilter::BenchmarkId(benchmark_id.clone()));
    if m.len() > 0 && (m[0].state == LifecycleState::Confirmed || m[0].state
        == LifecycleState::Active) {
        Ok(())
    } else {
        Err(ProtocolError::FraudTargetNotConfirmed { benchmark_id: benchmark_id.clone() })
    }
}

} // verus!

//! Entity model owned by the ledger gateway.
//!
//! The core holds no long-lived state of its own: every function is a pure
//! transformation over gateway-visible snapshots of these types. Identifiers
//! supplied from outside the protocol (players, challenges, fee transactions,
//! benchmark commitments) are strings; identifiers minted by the gateway
//! itself (algorithms, blocks) are sequence numbers.

use vstd::prelude::*;

verus! {

/// Lifecycle of a submitted entity, uniform across kinds. Transitions are
/// driven exclusively by block advancement: `Mempool` on insertion, then
/// `Confirmed`, then `Active` or `Rejected`. `Expired` is reserved for
/// mempool entries that age out without promotion; the advancer here
/// promotes or rejects every pending entry and never produces it.
#[derive(Clone, Copy, Debug, PartialEq, Eq, Structural)]
pub enum LifecycleState {
    Mempool,
    Confirmed,
    Active,
    Rejected,
    Expired,
}

/// Protocol configuration valid as of a block: everything the guard
/// pipelines and the block advancer read as opaque parameters.
pub struct ProtocolConfig {
    /// Address that fee transactions must pay to.
    pub burn_address: String,
    /// Fee owed for an algorithm submission.
    pub algorithm_submission_fee: u64,
    /// Number of blocks in one round; a block's round is derived from its
    /// height by this divisor.
    pub blocks_per_round: u32,
}

impl Clone for ProtocolConfig {
    fn clone(&self) -> (res: Self)
        ensures
            res == *self,
    {
        ProtocolConfig {
            burn_address: self.burn_address.clone(),
            algorithm_submission_fee: self.algorithm_submission_fee,
            blocks_per_round: self.blocks_per_round,
        }
    }
}

/// Immutable details of a block.
#[derive(Clone, Copy, Debug, PartialEq, Eq, Structural)]
pub struct BlockDetails {
    /// Monotonically increasing position in the chain.
    pub height: u32,
    /// Coarse epoch derived from height; gates challenge activation.
    pub round: u32,
}

/// A block header: ordering information plus the protocol configuration
/// valid as of this block. The references the block confirms live in the
/// separate [`BlockData`] snapshot, which is immutable once written.
pub struct Block {
    /// Gateway-minted sequence number.
    pub id: u64,
    pub details: BlockDetails,
    pub config: ProtocolConfig,
}

impl Clone for Block {
    fn clone(&self) -> (res: Self)
        ensures
            res == *self,
    {
        Block { id: self.id, details: self.details, config: self.config.clone() }
    }
}

/// The block-scoped snapshot written when a block is created: the entities
/// confirmed by that advancement step. Written once, never mutated.
pub struct BlockData {
    /// Algorithms promoted from the mempool by this block, in mempool order.
    pub confirmed_algorithm_ids: Vec<u64>,
    /// Mempool algorithms that failed re-validation and were rejected by
    /// this block, in mempool order.
    pub rejected_algorithm_ids: Vec<u64>,
}

/// A participant identity with its protocol roles.
pub struct Player {
    pub id: String,
    pub name: String,
    /// Whether the player submits benchmarks.
    pub is_benchmarker: bool,
    /// Whether the player submits algorithms.
    pub is_innovator: bool,
}

impl Clone for Player {
    fn clone(&self) -> (res: Self)
        ensures
            res == *self,
    {
        Player {
            id: self.id.clone(),
            name: self.name.clone(),
            is_benchmarker: self.is_benchmarker,
            is_innovator: self.is_innovator,
        }
    }
}

/// Lifecycle state of a challenge.
pub struct ChallengeState {
    pub lifecycle: LifecycleState,
    /// Round from which the challenge accepts submissions; `None` while the
    /// challenge is not yet scheduled.
    pub round_active: Option<u32>,
}

impl Clone for ChallengeState {
    fn clone(&self) -> (res: Self)
        ensures
            res == *self,
    {
        ChallengeState { lifecycle: self.lifecycle, round_active: self.round_active }
    }
}

/// A problem family that algorithms target and benchmarks are solved
/// against.
pub struct Challenge {
    pub id: String,
    pub name: String,
    pub state: ChallengeState,
}

impl Clone for Challenge {
    fn clone(&self) -> (res: Self)
        ensures
            res == *self,
    {
        Challenge { id: self.id.clone(), name: self.name.clone(), state: self.state.clone() }
    }
}

/// Submitter-supplied details of an algorithm submission.
pub struct AlgorithmDetails {
    pub name: String,
    /// Challenge the algorithm targets.
    pub challenge_id: String,
    /// Fee transaction paying for this submission; single-use protocol-wide.
    pub tx_hash: String,
}

impl Clone for AlgorithmDetails {
    fn clone(&self) -> (res: Self)
        ensures
            res == *self,
    {
        AlgorithmDetails {
            name: self.name.clone(),
            challenge_id: self.challenge_id.clone(),
            tx_hash: self.tx_hash.clone(),
        }
    }
}

/// A submitted optimization algorithm.
pub struct Algorithm {
    /// Gateway-minted sequence number.
    pub id: u64,
    pub details: AlgorithmDetails,
    pub state: LifecycleState,
    /// Source code as submitted.
    pub code: String,
}

impl Clone for Algorithm {
    fn clone(&self) -> (res: Self)
        ensures
            res == *self,
    {
        Algorithm {
            id: self.id,
            details: self.details.clone(),
            state: self.state,
            code: self.code.clone(),
        }
    }
}

/// An external transfer record referenced by hash; used uniformly to pay
/// submission fees across all submission kinds.
pub struct Transaction {
    pub tx_hash: String,
    pub sender: String,
    pub receiver: String,
    pub amount: u64,
}

impl Clone for Transaction {
    fn clone(&self) -> (res: Self)
        ensures
            res == *self,
    {
        Transaction {
            tx_hash: self.tx_hash.clone(),
            sender: self.sender.clone(),
            receiver: self.receiver.clone(),
            amount: self.amount,
        }
    }
}

/// The committed benchmark settings submitted before solving. Committing to
/// parameters before computation prevents retroactive cherry-picking.
pub struct BenchmarkSettings {
    pub player_id: String,
    pub challenge_id: String,
    pub algorithm_id: u64,
    /// Block the commitment was made against.
    pub block_id: u64,
    /// Difficulty parameters: instance size and quality threshold,
    /// interpreted per challenge kind.
    pub difficulty: (u32, u32),
}

impl Clone for BenchmarkSettings {
    fn clone(&self) -> (res: Self)
        ensures
            res == *self,
    {
        BenchmarkSettings {
            player_id: self.player_id.clone(),
            challenge_id: self.challenge_id.clone(),
            algorithm_id: self.algorithm_id,
            block_id: self.block_id,
            difficulty: self.difficulty,
        }
    }
}

/// A declared intent to produce proofs for a set of sampled nonces under
/// committed settings.
pub struct Benchmark {
    /// Equals the identifier of the precommit it instantiates.
    pub id: String,
    pub state: LifecycleState,
    /// Height of the block at which the entry entered the mempool.
    pub block_started: u32,
    /// How many sampled nonces the benchmarker must prove.
    pub num_nonces: u32,
}

impl Clone for Benchmark {
    fn clone(&self) -> (res: Self)
        ensures
            res == *self,
    {
        Benchmark {
            id: self.id.clone(),
            state: self.state,
            block_started: self.block_started,
            num_nonces: self.num_nonces,
        }
    }
}

/// The precommit carrying committed settings for a future benchmark.
pub struct Precommit {
    pub benchmark_id: String,
    pub settings: BenchmarkSettings,
    pub state: LifecycleState,
    pub block_started: u32,
}

impl Clone for Precommit {
    fn clone(&self) -> (res: Self)
        ensures
            res == *self,
    {
        Precommit {
            benchmark_id: self.benchmark_id.clone(),
            settings: self.settings.clone(),
            state: self.state,
            block_started: self.block_started,
        }
    }
}

/// Merkle-proven solution outputs for the sampled nonces of a benchmark.
pub struct Proof {
    pub benchmark_id: String,
    pub state: LifecycleState,
    pub block_started: u32,
}

impl Clone for Proof {
    fn clone(&self) -> (res: Self)
        ensures
            res == *self,
    {
        Proof {
            benchmark_id: self.benchmark_id.clone(),
            state: self.state,
            block_started: self.block_started,
        }
    }
}

/// An allegation that a confirmed proof is invalid, subject to independent
/// re-verification.
pub struct Fraud {
    pub benchmark_id: String,
    pub allegation: String,
    pub state: LifecycleState,
    pub block_started: u32,
}

impl Clone for Fraud {
    fn clone(&self) -> (res: Self)
        ensures
            res == *self,
    {
        Fraud {
            benchmark_id: self.benchmark_id.clone(),
            allegation: self.allegation.clone(),
            state: self.state,
            block_started: self.block_started,
        }
    }
}

/// A player deposit-increase transaction.
pub struct TopUp {
    /// The fee transaction hash doubles as the identifier.
    pub id: String,
    pub player_id: String,
    pub amount: u64,
    pub state: LifecycleState,
}

impl Clone for TopUp {
    fn clone(&self) -> (res: Self)
        ensures
            res == *self,
    {
        TopUp {
            id: self.id.clone(),
            player_id: self.player_id.clone(),
            amount: self.amount,
            state: self.state,
        }
    }
}

/// A compiled artifact bound to a confirmed algorithm; compiled and
/// validated asynchronously from algorithm confirmation, so it has a
/// mempool/confirmed lifecycle of its own.
pub struct Wasm {
    pub algorithm_id: u64,
    pub state: LifecycleState,
}

impl Clone for Wasm {
    fn clone(&self) -> (res: Self)
        ensures
            res == *self,
    {
        Wasm { algorithm_id: self.algorithm_id, state: self.state }
    }
}

} // verus!

//! The ledger gateway: the sole interface to persisted protocol state.
//!
//! Every read is a filtered scan over one entity collection; filters are
//! closed enumerations, one constructor per filter shape, so that every
//! node's view is reproducible from the same filter semantics. Guard
//! pipelines and the block advancer may only query through these filters,
//! never via ad-hoc predicates. Mutation is append-only mempool insertion
//! plus per-entity state and block-data writes.

use vstd::prelude::*;

use crate::model::{
    Algorithm, AlgorithmDetails, Benchmark, BenchmarkSettings, Block, BlockData, BlockDetails,
    Challenge, Fraud, LifecycleState, Player, Precommit, Proof, ProtocolConfig, TopUp,
    Transaction, Wasm,
};

verus! {

/// The kinds of fee-bearing submissions the protocol accepts.
pub enum SubmissionType {
    Algorithm,
    Benchmark,
    Precommit,
    Proof,
    TopUp,
}

pub enum AlgorithmsFilter {
    Id(u64),
    Name(String),
    TxHash(String),
    Mempool,
    Confirmed,
}

pub enum BenchmarksFilter {
    Id(String),
    Mempool { from_block_started: u32 },
    Confirmed { from_block_started: u32 },
}

pub enum BlockFilter {
    Latest,
    Height(u32),
    Id(u64),
    Round(u32),
}

pub enum ChallengesFilter {
    Id(String),
    Name(String),
    Mempool,
    Confirmed,
}

pub enum FraudsFilter {
    BenchmarkId(String),
    Mempool { from_block_started: u32 },
    Confirmed { from_block_started: u32 },
}

pub enum PlayersFilter {
    Id(String),
    Name(String),
    Benchmarkers,
    Innovators,
}

pub enum PrecommitsFilter {
    BenchmarkId(String),
    Settings(BenchmarkSettings),
    Mempool { from_block_started: u32 },
    Confirmed { from_block_started: u32 },
}

pub enum ProofsFilter {
    BenchmarkId(String),
    Mempool { from_block_started: u32 },
    Confirmed { from_block_started: u32 },
}

pub enum TopUpsFilter {
    Id(String),
    PlayerId(String),
    Mempool,
    Confirmed,
}

pub enum WasmsFilter {
    AlgorithmId(u64),
    Mempool,
    Confirmed,
}

/// A lifecycle state counts as confirmed once block advancement has promoted
/// the entry out of the mempool and it has not been rejected.
pub open spec fn is_confirmed(s: LifecycleState) -> bool {
    s == LifecycleState::Confirmed || s == LifecycleState::Active
}

pub open spec fn algorithm_matches(a: Algorithm, f: AlgorithmsFilter) -> bool {
    match f {
        AlgorithmsFilter::Id(id) => a.id == id,
        AlgorithmsFilter::Name(n) => a.details.name@ == n@,
        AlgorithmsFilter::TxHash(h) => a.details.tx_hash@ == h@,
        AlgorithmsFilter::Mempool => a.state == LifecycleState::Mempool,
        AlgorithmsFilter::Confirmed => is_confirmed(a.state),
    }
}

pub open spec fn benchmark_matches(b: Benchmark, f: BenchmarksFilter) -> bool {
    match f {
        BenchmarksFilter::Id(id) => b.id@ == id@,
        BenchmarksFilter::Mempool { from_block_started } => b.state == LifecycleState::Mempool
            && b.block_started >= from_block_started,
        BenchmarksFilter::Confirmed { from_block_started } => is_confirmed(b.state)
            && b.block_started >= from_block_started,
    }
}

/// Pointwise block filters; `BlockFilter::Latest` is handled separately by
/// [`Ledger::get_block`] since it is not a property of a single block.
pub open spec fn block_matches(b: Block, f: BlockFilter) -> bool {
    match f {
        BlockFilter::Latest => true,
        BlockFilter::Height(h) => b.details.height == h,
        BlockFilter::Id(id) => b.id == id,
        BlockFilter::Round(r) => b.details.round == r,
    }
}

pub open spec fn challenge_matches(c: Challenge, f: ChallengesFilter) -> bool {
    match f {
        ChallengesFilter::Id(id) => c.id@ == id@,
        ChallengesFilter::Name(n) => c.name@ == n@,
        ChallengesFilter::Mempool => c.state.lifecycle == LifecycleState::Mempool,
        ChallengesFilter::Confirmed => is_confirmed(c.state.lifecycle),
    }
}

pub open spec fn fraud_matches(x: Fraud, f: FraudsFilter) -> bool {
    match f {
        FraudsFilter::BenchmarkId(id) => x.benchmark_id@ == id@,
        FraudsFilter::Mempool { from_block_started } => x.state == LifecycleState::Mempool
            && x.block_started >= from_block_started,
        FraudsFilter::Confirmed { from_block_started } => is_confirmed(x.state)
            && x.block_started >= from_block_started,
    }
}

pub open spec fn player_matches(p: Player, f: PlayersFilter) -> bool {
    match f {
        PlayersFilter::Id(id) => p.id@ == id@,
        PlayersFilter::Name(n) => p.name@ == n@,
        PlayersFilter::Benchmarkers => p.is_benchmarker,
        PlayersFilter::Innovators => p.is_innovator,
    }
}

pub open spec fn settings_equal(a: BenchmarkSettings, b: BenchmarkSettings) -> bool {
    a.player_id@ == b.player_id@ && a.challenge_id@ == b.challenge_id@ && a.algorithm_id
        == b.algorithm_id && a.block_id == b.block_id && a.difficulty == b.difficulty
}

pub open spec fn precommit_matches(p: Precommit, f: PrecommitsFilter) -> bool {
    match f {
        PrecommitsFilter::BenchmarkId(id) => p.benchmark_id@ == id@,
        PrecommitsFilter::Settings(s) => settings_equal(p.settings, s),
        PrecommitsFilter::Mempool { from_block_started } => p.state == LifecycleState::Mempool
            && p.block_started >= from_block_started,
        PrecommitsFilter::Confirmed { from_block_started } => is_confirmed(p.state)
            && p.block_started >= from_block_started,
    }
}

pub open spec fn proof_matches(p: Proof, f: ProofsFilter) -> bool {
    match f {
        ProofsFilter::BenchmarkId(id) => p.benchmark_id@ == id@,
        ProofsFilter::Mempool { from_block_started } => p.state == LifecycleState::Mempool
            && p.block_started >= from_block_started,
        ProofsFilter::Confirmed { from_block_started } => is_confirmed(p.state)
            && p.block_started >= from_block_started,
    }
}

pub open spec fn topup_matches(t: TopUp, f: TopUpsFilter) -> bool {
    match f {
        TopUpsFilter::Id(id) => t.id@ == id@,
        TopUpsFilter::PlayerId(id) => t.player_id@ == id@,
        TopUpsFilter::Mempool => t.state == LifecycleState::Mempool,
        TopUpsFilter::Confirmed => is_confirmed(t.state),
    }
}

pub open spec fn wasm_matches(w: Wasm, f: WasmsFilter) -> bool {
    match f {
        WasmsFilter::AlgorithmId(id) => w.algorithm_id == id,
        WasmsFilter::Mempool => w.state == LifecycleState::Mempool,
        WasmsFilter::Confirmed => is_confirmed(w.state),
    }
}

pub open spec fn transaction_matches(t: Transaction, h: Seq<char>) -> bool {
    t.tx_hash@ == h
}

/// The entries of `s` that satisfy `pred`, in order.
pub open spec fn matching<A>(s: Seq<A>, pred: spec_fn(A) -> bool) -> Seq<A> {
    s.filter(pred)
}

/// Filtering a one-longer prefix appends the new entry exactly when it
/// matches.
pub proof fn lemma_matching_take_step<A>(s: Seq<A>, pred: spec_fn(A) -> bool, i: int)
    requires
        0 <= i < s.len(),
    ensures
        matching(s.take(i + 1), pred) == if pred(s[i]) {
            matching(s.take(i), pred).push(s[i])
        } else {
            matching(s.take(i), pred)
        },
{
    reveal(Seq::filter);
    assert(s.take(i + 1).drop_last() =~= s.take(i));
    assert(s.take(i + 1).last() == s[i]);
}

/// A scan over all of `s` is a scan over the full-length prefix.
pub proof fn lemma_matching_take_all<A>(s: Seq<A>, pred: spec_fn(A) -> bool)
    ensures
        matching(s.take(s.len() as int), pred) == matching(s, pred),
{
    assert(s.take(s.len() as int) =~= s);
}

/// Nothing matches in `s` if and only if the scan comes back empty; and a
/// non-empty scan starts with the first matching entry.
pub proof fn lemma_matching_first<A>(s: Seq<A>, pred: spec_fn(A) -> bool)
    ensures
        matching(s, pred).len() == 0 <==> (forall|i: int|
            0 <= i < s.len() ==> !pred(#[trigger] s[i])),
        matching(s, pred).len() > 0 ==> (exists|i: int|
            {
                &&& 0 <= i < s.len()
                &&& #[trigger] pred(s[i])
                &&& matching(s, pred)[0] == s[i]
                &&& forall|j: int| 0 <= j < i ==> !pred(#[trigger] s[j])
            }),
    decreases s.len(),
{
    reveal(Seq::filter);
    if s.len() > 0 {
        let d = s.drop_last();
        lemma_matching_first(d, pred);
        assert(forall|i: int| 0 <= i < d.len() ==> #[trigger] s[i] == d[i]);
        if matching(d, pred).len() == 0 {
            if pred(s.last()) {
                let w = s.len() - 1;
                assert(pred(s[w]) && matching(s, pred)[0] == s[w]);
            }
        } else {
            let i = choose|i: int|
                {
                    &&& 0 <= i < d.len()
                    &&& #[trigger] pred(d[i])
                    &&& matching(d, pred)[0] == d[i]
                    &&& forall|j: int| 0 <= j < i ==> !pred(#[trigger] d[j])
                };
            assert(pred(s[i]) && matching(s, pred)[0] == s[i]);
        }
    }
}

/// In-memory snapshot of the persisted protocol state behind the gateway.
///
/// Entity collections are append-only under mempool insertion; blocks and
/// their data snapshots grow in lockstep, one data record per block.
pub struct Ledger {
    pub blocks: Vec<Block>,
    pub block_data: Vec<BlockData>,
    pub algorithms: Vec<Algorithm>,
    pub benchmarks: Vec<Benchmark>,
    pub challenges: Vec<Challenge>,
    pub frauds: Vec<Fraud>,
    pub players: Vec<Player>,
    pub precommits: Vec<Precommit>,
    pub proofs: Vec<Proof>,
    pub topups: Vec<TopUp>,
    pub wasms: Vec<Wasm>,
    pub transactions: Vec<Transaction>,
    /// Next gateway-minted algorithm identifier.
    pub next_algorithm_id: u64,
    /// Next gateway-minted block identifier.
    pub next_block_id: u64,
}

impl Ledger {
    /// Structural invariants the gateway maintains: minted identifiers are
    /// unique and below their mint counters, and every block has exactly one
    /// block-data snapshot.
    pub open spec fn wf(self) -> bool {
        &&& forall|i: int, j: int|
            0 <= i < j < self.algorithms@.len() ==> self.algorithms@[i].id
                != self.algorithms@[j].id
        &&& forall|i: int|
            0 <= i < self.algorithms@.len() ==> #[trigger] self.algorithms@[i].id
                < self.next_algorithm_id
        &&& forall|i: int, j: int|
            0 <= i < j < self.blocks@.len() ==> self.blocks@[i].id != self.blocks@[j].id
        &&& forall|i: int|
            0 <= i < self.blocks@.len() ==> #[trigger] self.blocks@[i].id < self.next_block_id
        &&& self.block_data@.len() == self.blocks@.len()
    }

    /// The latest confirmed block, which every guard decision is made
    /// against.
    pub open spec fn spec_latest_block(self) -> Block {
        self.blocks@.last()
    }

    /// The first block satisfying the filter, or the latest block for
    /// [`BlockFilter::Latest`]; `None` when no block satisfies it.
    pub open spec fn spec_get_block(self, f: BlockFilter) -> Option<Block> {
        match f {
            BlockFilter::Latest => if self.blocks@.len() == 0 {
                None
            } else {
                Some(self.blocks@.last())
            },
            _ => {
                let m = matching(self.blocks@, |b: Block| block_matches(b, f));
                if m.len() == 0 {
                    None
                } else {
                    Some(m[0])
                }
            },
        }
    }

    pub fn get_block(&self, filter: &BlockFilter) -> (r: Option<Block>)
        ensures
            r == self.spec_get_block(*filter),
    {
        if let BlockFilter::Latest = filter {
            if self.blocks.len() == 0 {
                return None;
            }
            return Some(self.blocks[self.blocks.len() - 1].clone());
        }
        let ghost pred = |b: Block| block_matches(b, *filter);
        let mut i: usize = 0;
        while i < self.blocks.len()
            invariant
                0 <= i <= self.blocks.len(),
                matching(self.blocks@.take(i as int), pred).len() == 0,
                pred == (|b: Block| block_matches(b, *filter)),
                !(*filter is Latest),
            decreases self.blocks.len() - i,
        {
            proof {
                lemma_matching_take_step(self.blocks@, pred, i as int);
            }
            let b = &self.blocks[i];
            if filter.matches(b) {
                proof {
                    lemma_matching_first(self.blocks@.take(i as int), pred);
                    assert(forall|j: int|
                        0 <= j < i ==> self.blocks@.take(i as int)[j] == #[trigger] self.blocks@[j]);
                    assert(forall|j: int| 0 <= j < i ==> !pred(#[trigger] self.blocks@[j]));
                    lemma_matching_first(self.blocks@, pred);
                }
                return Some(b.clone());
            }
            i = i + 1;
        }
        proof {
            lemma_matching_take_all(self.blocks@, pred);
            lemma_matching_first(self.blocks@, pred);
        }
        None
    }

    /// The first transfer record with this hash on the external fee ledger,
    /// if any.
    pub open spec fn spec_get_transaction(self, h: Seq<char>) -> Option<Transaction> {
        let m = matching(self.transactions@, |t: Transaction| transaction_matches(t, h));
        if m.len() == 0 {
            None
        } else {
            Some(m[0])
        }
    }

    pub fn get_transaction(&self, tx_hash: &String) -> (r: Option<Transaction>)
        ensures
            r == self.spec_get_transaction(tx_hash@),
    {
        let ghost pred = |t: Transaction| transaction_matches(t, tx_hash@);
        let mut i: usize = 0;
        while i < self.transactions.len()
            invariant
                0 <= i <= self.transactions.len(),
                matching(self.transactions@.take(i as int), pred).len() == 0,
                pred == (|t: Transaction| transaction_matches(t, tx_hash@)),
            decreases self.transactions.len() - i,
        {
            proof {
                lemma_matching_take_step(self.transactions@, pred, i as int);
            }
            let t = &self.transactions[i];
            if t.tx_hash == *tx_hash {
                proof {
                    lemma_matching_first(self.transactions@.take(i as int), pred);
                    assert(forall|j: int|
                        0 <= j < i ==> self.transactions@.take(i as int)[j]
                            == #[trigger] self.transactions@[j]);
                    assert(forall|j: int| 0 <= j < i ==> !pred(#[trigger] self.transactions@[j]));
                    lemma_matching_first(self.transactions@, pred);
                }
                return Some(t.clone());
            }
            i = i + 1;
        }
        proof {
            lemma_matching_take_all(self.transactions@, pred);
            lemma_matching_first(self.transactions@, pred);
        }
        None
    }

    /// Appends a fresh algorithm to the mempool and returns its minted
    /// identifier. The uniqueness of the identifier is the gateway's own
    /// guarantee; nothing else in the ledger changes.
    pub fn add_algorithm_to_mempool(&mut self, details: AlgorithmDetails, code: String) -> (id:
        u64)
        requires
            old(self).wf(),
            old(self).next_algorithm_id < u64::MAX,
        ensures
            final(self).wf(),
            id == old(self).next_algorithm_id,
            final(self).algorithms@ == old(self).algorithms@.push(
                (Algorithm { id, details, state: LifecycleState::Mempool, code }),
            ),
            final(self).next_algorithm_id == old(self).next_algorithm_id + 1,
            final(self).blocks == old(self).blocks,
            final(self).block_data == old(self).block_data,
            final(self).benchmarks == old(self).benchmarks,
            final(self).challenges == old(self).challenges,
            final(self).frauds == old(self).frauds,
            final(self).players == old(self).players,
            final(self).precommits == old(self).precommits,
            final(self).proofs == old(self).proofs,
            final(self).topups == old(self).topups,
            final(self).wasms == old(self).wasms,
            final(self).transactions == old(self).transactions,
            final(self).next_block_id == old(self).next_block_id,
    {
        let id = self.next_algorithm_id;
        self.algorithms.push(Algorithm { id, details, state: LifecycleState::Mempool, code });
        self.next_algorithm_id = id + 1;
        id
    }

    /// Sets the lifecycle state of the algorithm with this identifier.
    /// Identifiers are unique, so at most one entry changes.
    pub fn update_algorithm_state(&mut self, algorithm_id: u64, state: LifecycleState)
        ensures
            final(self).algorithms@.len() == old(self).algorithms@.len(),
            forall|k: int|
                0 <= k < old(self).algorithms@.len() ==> final(self).algorithms@[k] == if old(
                    self,
                ).algorithms@[k].id == algorithm_id {
                    (Algorithm { state, ..old(self).algorithms@[k] })
                } else {
                    old(self).algorithms@[k]
                },
            final(self).blocks == old(self).blocks,
            final(self).block_data == old(self).block_data,
            final(self).benchmarks == old(self).benchmarks,
            final(self).challenges == old(self).challenges,
            final(self).frauds == old(self).frauds,
            final(self).players == old(self).players,
            final(self).precommits == old(self).precommits,
            final(self).proofs == old(self).proofs,
            final(self).topups == old(self).topups,
            final(self).wasms == old(self).wasms,
            final(self).transactions == old(self).transactions,
            final(self).next_algorithm_id == old(self).next_algorithm_id,
            final(self).next_block_id == old(self).next_block_id,
    {
        let mut i: usize = 0;
        while i < self.algorithms.len()
            invariant
                0 <= i <= self.algorithms.len(),
                self.algorithms@.len() == old(self).algorithms@.len(),
                forall|k: int|
                    0 <= k < i ==> self.algorithms@[k] == if old(self).algorithms@[k].id
                        == algorithm_id {
                        (Algorithm { state, ..old(self).algorithms@[k] })
                    } else {
                        old(self).algorithms@[k]
                    },
                forall|k: int|
                    i <= k < old(self).algorithms@.len() ==> self.algorithms@[k] == old(
                        self,
                    ).algorithms@[k],
                self.blocks == old(self).blocks,
                self.block_data == old(self).block_data,
                self.benchmarks == old(self).benchmarks,
                self.challenges == old(self).challenges,
                self.frauds == old(self).frauds,
                self.players == old(self).players,
                self.precommits == old(self).precommits,
                self.proofs == old(self).proofs,
                self.topups == old(self).topups,
                self.wasms == old(self).wasms,
                self.transactions == old(self).transactions,
                self.next_algorithm_id == old(self).next_algorithm_id,
                self.next_block_id == old(self).next_block_id,
            decreases self.algorithms.len() - i,
        {
            if self.algorithms[i].id == algorithm_id {
                let updated = Algorithm {
                    id: self.algorithms[i].id,
                    details: self.algorithms[i].details.clone(),
                    state,
                    code: self.algorithms[i].code.clone(),
                };
                self.algorithms.set(i, updated);
            }
            i = i + 1;
        }
    }

    /// Sets the lifecycle state of every proof for this benchmark.
    pub fn update_proof_state(&mut self, benchmark_id: &String, state: LifecycleState)
        ensures
            final(self).proofs@.len() == old(self).proofs@.len(),
            forall|k: int|
                0 <= k < old(self).proofs@.len() ==> final(self).proofs@[k] == if old(
                    self,
                ).proofs@[k].benchmark_id@ == benchmark_id@ {
                    (Proof { state, ..old(self).proofs@[k] })
                } else {
                    old(self).proofs@[k]
                },
            final(self).blocks == old(self).blocks,
            final(self).block_data == old(self).block_data,
            final(self).algorithms == old(self).algorithms,
            final(self).benchmarks == old(self).benchmarks,
            final(self).challenges == old(self).challenges,
            final(self).frauds == old(self).frauds,
            final(self).players == old(self).players,
            final(self).precommits == old(self).precommits,
            final(self).topups == old(self).topups,
            final(self).wasms == old(self).wasms,
            final(self).transactions == old(self).transactions,
            final(self).next_algorithm_id == old(self).next_algorithm_id,
            final(self).next_block_id == old(self).next_block_id,
    {
        let mut i: usize = 0;
        while i < self.proofs.len()
            invariant
                0 <= i <= self.proofs.len(),
                self.proofs@.len() == old(self).proofs@.len(),
                forall|k: int|
                    0 <= k < i ==> self.proofs@[k] == if old(self).proofs@[k].benchmark_id@
                        == benchmark_id@ {
                        (Proof { state, ..old(self).proofs@[k] })
                    } else {
                        old(self).proofs@[k]
                    },
                forall|k: int|
                    i <= k < old(self).proofs@.len() ==> self.proofs@[k] == old(self).proofs@[k],
                self.blocks == old(self).blocks,
                self.block_data == old(self).block_data,
                self.algorithms == old(self).algorithms,
                self.benchmarks == old(self).benchmarks,
                self.challenges == old(self).challenges,
                self.frauds == old(self).frauds,
                self.players == old(self).players,
                self.precommits == old(self).precommits,
                self.topups == old(self).topups,
                self.wasms == old(self).wasms,
                self.transactions == old(self).transactions,
                self.next_algorithm_id == old(self).next_algorithm_id,
                self.next_block_id == old(self).next_block_id,
            decreases self.proofs.len() - i,
        {
            if self.proofs[i].benchmark_id == *benchmark_id {
                let updated = Proof {
                    benchmark_id: self.proofs[i].benchmark_id.clone(),
                    state,
                    block_started: self.proofs[i].block_started,
                };
                self.proofs.set(i, updated);
            }
            i = i + 1;
        }
    }

    /// Sets the lifecycle state of the benchmark with this identifier.
    pub fn update_benchmark_state(&mut self, benchmark_id: &String, state: LifecycleState)
        ensures
            final(self).benchmarks@.len() == old(self).benchmarks@.len(),
            forall|k: int|
                0 <= k < old(self).benchmarks@.len() ==> final(self).benchmarks@[k] == if old(
                    self,
                ).benchmarks@[k].id@ == benchmark_id@ {
                    (Benchmark { state, ..old(self).benchmarks@[k] })
                } else {
                    old(self).benchmarks@[k]
                },
            final(self).blocks == old(self).blocks,
            final(self).block_data == old(self).block_data,
            final(self).algorithms == old(self).algorithms,
            final(self).challenges == old(self).challenges,
            final(self).frauds == old(self).frauds,
            final(self).players == old(self).players,
            final(self).precommits == old(self).precommits,
            final(self).proofs == old(self).proofs,
            final(self).topups == old(self).topups,
            final(self).wasms == old(self).wasms,
            final(self).transactions == old(self).transactions,
            final(self).next_algorithm_id == old(self).next_algorithm_id,
            final(self).next_block_id == old(self).next_block_id,
    {
        let mut i: usize = 0;
        while i < self.benchmarks.len()
            invariant
                0 <= i <= self.benchmarks.len(),
                self.benchmarks@.len() == old(self).benchmarks@.len(),
                forall|k: int|
                    0 <= k < i ==> self.benchmarks@[k] == if old(self).benchmarks@[k].id@
                        == benchmark_id@ {
                        (Benchmark { state, ..old(self).benchmarks@[k] })
                    } else {
                        old(self).benchmarks@[k]
                    },
                forall|k: int|
                    i <= k < old(self).benchmarks@.len() ==> self.benchmarks@[k] == old(
                        self,
                    ).benchmarks@[k],
                self.blocks == old(self).blocks,
                self.block_data == old(self).block_data,
                self.algorithms == old(self).algorithms,
                self.challenges == old(self).challenges,
                self.frauds == old(self).frauds,
                self.players == old(self).players,
                self.precommits == old(self).precommits,
                self.proofs == old(self).proofs,
                self.topups == old(self).topups,
                self.wasms == old(self).wasms,
                self.transactions == old(self).transactions,
                self.next_algorithm_id == old(self).next_algorithm_id,
                self.next_block_id == old(self).next_block_id,
            decreases self.benchmarks.len() - i,
        {
            if self.benchmarks[i].id == *benchmark_id {
                let updated = Benchmark {
                    id: self.benchmarks[i].id.clone(),
                    state,
                    block_started: self.benchmarks[i].block_started,
                    num_nonces: self.benchmarks[i].num_nonces,
                };
                self.benchmarks.set(i, updated);
            }
            i = i + 1;
        }
    }

    /// Sets the lifecycle state of every fraud allegation against this
    /// benchmark.
    pub fn update_fraud_state(&mut self, benchmark_id: &String, state: LifecycleState)
        ensures
            final(self).frauds@.len() == old(self).frauds@.len(),
            forall|k: int|
                0 <= k < old(self).frauds@.len() ==> final(self).frauds@[k] == if old(
                    self,
                ).frauds@[k].benchmark_id@ == benchmark_id@ {
                    (Fraud { state, ..old(self).frauds@[k] })
                } else {
                    old(self).frauds@[k]
                },
            final(self).blocks == old(self).blocks,
            final(self).block_data == old(self).block_data,
            final(self).algorithms == old(self).algorithms,
            final(self).benchmarks == old(self).benchmarks,
            final(self).challenges == old(self).challenges,
            final(self).players == old(self).players,
            final(self).precommits == old(self).precommits,
            final(self).proofs == old(self).proofs,
            final(self).topups == old(self).topups,
            final(self).wasms == old(self).wasms,
            final(self).transactions == old(self).transactions,
            final(self).next_algorithm_id == old(self).next_algorithm_id,
            final(self).next_block_id == old(self).next_block_id,
    {
        let mut i: usize = 0;
        while i < self.frauds.len()
            invariant
                0 <= i <= self.frauds.len(),
                self.frauds@.len() == old(self).frauds@.len(),
                forall|k: int|
                    0 <= k < i ==> self.frauds@[k] == if old(self).frauds@[k].benchmark_id@
                        == benchmark_id@ {
                        (Fraud { state, ..old(self).frauds@[k] })
                    } else {
                        old(self).frauds@[k]
                    },
                forall|k: int|
                    i <= k < old(self).frauds@.len() ==> self.frauds@[k] == old(self).frauds@[k],
                self.blocks == old(self).blocks,
                self.block_data == old(self).block_data,
                self.algorithms == old(self).algorithms,
                self.benchmarks == old(self).benchmarks,
                self.challenges == old(self).challenges,
                self.players == old(self).players,
                self.precommits == old(self).precommits,
                self.proofs == old(self).proofs,
                self.topups == old(self).topups,
                self.wasms == old(self).wasms,
                self.transactions == old(self).transactions,
                self.next_algorithm_id == old(self).next_algorithm_id,
                self.next_block_id == old(self).next_block_id,
            decreases self.frauds.len() - i,
        {
            if self.frauds[i].benchmark_id == *benchmark_id {
                let updated = Fraud {
                    benchmark_id: self.frauds[i].benchmark_id.clone(),
                    allegation: self.frauds[i].allegation.clone(),
                    state,
                    block_started: self.frauds[i].block_started,
                };
                self.frauds.set(i, updated);
            }
            i = i + 1;
        }
    }

    /// Appends a new block header and its immutable block-data snapshot; the
    /// caller supplies details and data, the gateway mints the identifier.
    pub fn add_block(&mut self, details: BlockDetails, config: ProtocolConfig, data: BlockData) ->
        (id: u64)
        requires
            old(self).wf(),
            old(self).next_block_id < u64::MAX,
        ensures
            final(self).wf(),
            id == old(self).next_block_id,
            final(self).blocks@ == old(self).blocks@.push((Block { id, details, config })),
            final(self).block_data@ == old(self).block_data@.push(data),
            final(self).next_block_id == old(self).next_block_id + 1,
            final(self).algorithms == old(self).algorithms,
            final(self).benchmarks == old(self).benchmarks,
            final(self).challenges == old(self).challenges,
            final(self).frauds == old(self).frauds,
            final(self).players == old(self).players,
            final(self).precommits == old(self).precommits,
            final(self).proofs == old(self).proofs,
            final(self).topups == old(self).topups,
            final(self).wasms == old(self).wasms,
            final(self).transactions == old(self).transactions,
            final(self).next_algorithm_id == old(self).next_algorithm_id,
    {
        let id = self.next_block_id;
        self.blocks.push(Block { id, details, config });
        self.block_data.push(data);
        self.next_block_id = id + 1;
        id
    }

    pub fn get_algorithms(&self, filter: &AlgorithmsFilter) -> (r: Vec<Algorithm>)
        ensures
            r@ == matching(self.algorithms@, |a: Algorithm| algorithm_matches(a, *filter)),
    {
        let ghost pred = |a: Algorithm| algorithm_matches(a, *filter);
        let mut out: Vec<Algorithm> = Vec::new();
        let mut i: usize = 0;
        while i < self.algorithms.len()
            invariant
                0 <= i <= self.algorithms.len(),
                out@ == matching(self.algorithms@.take(i as int), pred),
                pred == (|a: Algorithm| algorithm_matches(a, *filter)),
            decreases self.algorithms.len() - i,
        {
            proof {
                lemma_matching_take_step(self.algorithms@, pred, i as int);
            }
            let a = &self.algorithms[i];
            if filter.matches(a) {
                out.push(a.clone());
            }
            i = i + 1;
        }
        proof {
            lemma_matching_take_all(self.algorithms@, pred);
        }
        out
    }

    pub fn get_benchmarks(&self, filter: &BenchmarksFilter) -> (r: Vec<Benchmark>)
        ensures
            r@ == matching(self.benchmarks@, |b: Benchmark| benchmark_matches(b, *filter)),
    {
        let ghost pred = |b: Benchmark| benchmark_matches(b, *filter);
        let mut out: Vec<Benchmark> = Vec::new();
        let mut i: usize = 0;
        while i < self.benchmarks.len()
            invariant
                0 <= i <= self.benchmarks.len(),
                out@ == matching(self.benchmarks@.take(i as int), pred),
                pred == (|b: Benchmark| benchmark_matches(b, *filter)),
            decreases self.benchmarks.len() - i,
        {
            proof {
                lemma_matching_take_step(self.benchmarks@, pred, i as int);
            }
            let b = &self.benchmarks[i];
            if filter.matches(b) {
                out.push(b.clone());
            }
            i = i + 1;
        }
        proof {
            lemma_matching_take_all(self.benchmarks@, pred);
        }
        out
    }

    pub fn get_challenges(&self, filter: &ChallengesFilter) -> (r: Vec<Challenge>)
        ensures
            r@ == matching(self.challenges@, |c: Challenge| challenge_matches(c, *filter)),
    {
        let ghost pred = |c: Challenge| challenge_matches(c, *filter);
        let mut out: Vec<Challenge> = Vec::new();
        let mut i: usize = 0;
        while i < self.challenges.len()
            invariant
                0 <= i <= self.challenges.len(),
                out@ == matching(self.challenges@.take(i as int), pred),
                pred == (|c: Challenge| challenge_matches(c, *filter)),
            decreases self.challenges.len() - i,
        {
            proof {
                lemma_matching_take_step(self.challenges@, pred, i as int);
            }
            let c = &self.challenges[i];
            if filter.matches(c) {
                out.push(c.clone());
            }
            i = i + 1;
        }
        proof {
            lemma_matching_take_all(self.challenges@, pred);
        }
        out
    }

    pub fn get_frauds(&self, filter: &FraudsFilter) -> (r: Vec<Fraud>)
        ensures
            r@ == matching(self.frauds@, |x: Fraud| fraud_matches(x, *filter)),
    {
        let ghost pred = |x: Fraud| fraud_matches(x, *filter);
        let mut out: Vec<Fraud> = Vec::new();
        let mut i: usize = 0;
        while i < self.frauds.len()
            invariant
                0 <= i <= self.frauds.len(),
                out@ == matching(self.frauds@.take(i as int), pred),
                pred == (|x: Fraud| fraud_matches(x, *filter)),
            decreases self.frauds.len() - i,
        {
            proof {
                lemma_matching_take_step(self.frauds@, pred, i as int);
            }
            let x = &self.frauds[i];
            if filter.matches(x) {
                out.push(x.clone());
            }
            i = i + 1;
        }
        proof {
            lemma_matching_take_all(self.frauds@, pred);
        }
        out
    }

    pub fn get_players(&self, filter: &PlayersFilter) -> (r: Vec<Player>)
        ensures
            r@ == matching(self.players@, |p: Player| player_matches(p, *filter)),
    {
        let ghost pred = |p: Player| player_matches(p, *filter);
        let mut out: Vec<Player> = Vec::new();
        let mut i: usize = 0;
        while i < self.players.len()
            invariant
                0 <= i <= self.players.len(),
                out@ == matching(self.players@.take(i as int), pred),
                pred == (|p: Player| player_matches(p, *filter)),
            decreases self.players.len() - i,
        {
            proof {
                lemma_matching_take_step(self.players@, pred, i as int);
            }
            let p = &self.players[i];
            if filter.matches(p) {
                out.push(p.clone());
            }
            i = i + 1;
        }
        proof {
            lemma_matching_take_all(self.players@, pred);
        }
        out
    }

    pub fn get_precommits(&self, filter: &PrecommitsFilter) -> (r: Vec<Precommit>)
        ensures
            r@ == matching(self.precommits@, |p: Precommit| precommit_matches(p, *filter)),
    {
        let ghost pred = |p: Precommit| precommit_matches(p, *filter);
        let mut out: Vec<Precommit> = Vec::new();
        let mut i: usize = 0;
        while i < self.precommits.len()
            invariant
                0 <= i <= self.precommits.len(),
                out@ == matching(self.precommits@.take(i as int), pred),
                pred == (|p: Precommit| precommit_matches(p, *filter)),
            decreases self.precommits.len() - i,
        {
            proof {
                lemma_matching_take_step(self.precommits@, pred, i as int);
            }
            let p = &self.precommits[i];
            if filter.matches(p) {
                out.push(p.clone());
            }
            i = i + 1;
        }
        proof {
            lemma_matching_take_all(self.precommits@, pred);
        }
        out
    }

    pub fn get_proofs(&self, filter: &ProofsFilter) -> (r: Vec<Proof>)
        ensures
            r@ == matching(self.proofs@, |p: Proof| proof_matches(p, *filter)),
    {
        let ghost pred = |p: Proof| proof_matches(p, *filter);
        let mut out: Vec<Proof> = Vec::new();
        let mut i: usize = 0;
        while i < self.proofs.len()
            invariant
                0 <= i <= self.proofs.len(),
                out@ == matching(self.proofs@.take(i as int), pred),
                pred == (|p: Proof| proof_matches(p, *filter)),
            decreases self.proofs.len() - i,
        {
            proof {
                lemma_matching_take_step(self.proofs@, pred, i as int);
            }
            let p = &self.proofs[i];
            if filter.matches(p) {
                out.push(p.clone());
            }
            i = i + 1;
        }
        proof {
            lemma_matching_take_all(self.proofs@, pred);
        }
        out
    }

    pub fn get_topups(&self, filter: &TopUpsFilter) -> (r: Vec<TopUp>)
        ensures
            r@ == matching(self.topups@, |t: TopUp| topup_matches(t, *filter)),
    {
        let ghost pred = |t: TopUp| topup_matches(t, *filter);
        let mut out: Vec<TopUp> = Vec::new();
        let mut i: usize = 0;
        while i < self.topups.len()
            invariant
                0 <= i <= self.topups.len(),
                out@ == matching(self.topups@.take(i as int), pred),
                pred == (|t: TopUp| topup_matches(t, *filter)),
            decreases self.topups.len() - i,
        {
            proof {
                lemma_matching_take_step(self.topups@, pred, i as int);
            }
            let t = &self.topups[i];
            if filter.matches(t) {
                out.push(t.clone());
            }
            i = i + 1;
        }
        proof {
            lemma_matching_take_all(self.topups@, pred);
        }
        out
    }

    pub fn get_wasms(&self, filter: &WasmsFilter) -> (r: Vec<Wasm>)
        ensures
            r@ == matching(self.wasms@, |w: Wasm| wasm_matches(w, *filter)),
    {
        let ghost pred = |w: Wasm| wasm_matches(w, *filter);
        let mut out: Vec<Wasm> = Vec::new();
        let mut i: usize = 0;
        while i < self.wasms.len()
            invariant
                0 <= i <= self.wasms.len(),
                out@ == matching(self.wasms@.take(i as int), pred),
                pred == (|w: Wasm| wasm_matches(w, *filter)),
            decreases self.wasms.len() - i,
        {
            proof {
                lemma_matching_take_step(self.wasms@, pred, i as int);
            }
            let w = &self.wasms[i];
            if filter.matches(w) {
                out.push(w.clone());
            }
            i = i + 1;
        }
        proof {
            lemma_matching_take_all(self.wasms@, pred);
        }
        out
    }
}

impl AlgorithmsFilter {
    /// Executable form of [`algorithm_matches`].
    pub fn matches(&self, a: &Algorithm) -> (b: bool)
        ensures
            b == algorithm_matches(*a, *self),
    {
        match self {
            AlgorithmsFilter::Id(id) => a.id == *id,
            AlgorithmsFilter::Name(n) => a.details.name == *n,
            AlgorithmsFilter::TxHash(h) => a.details.tx_hash == *h,
            AlgorithmsFilter::Mempool => a.state == LifecycleState::Mempool,
            AlgorithmsFilter::Confirmed => a.state == LifecycleState::Confirmed || a.state
                == LifecycleState::Active,
        }
    }
}

/// Executable form of [`is_confirmed`].
fn state_confirmed(s: LifecycleState) -> (b: bool)
    ensures
        b == is_confirmed(s),
{
    s == LifecycleState::Confirmed || s == LifecycleState::Active
}

impl BenchmarksFilter {
    /// Executable form of [`benchmark_matches`].
    pub fn matches(&self, b: &Benchmark) -> (r: bool)
        ensures
            r == benchmark_matches(*b, *self),
    {
        match self {
            BenchmarksFilter::Id(id) => b.id == *id,
            BenchmarksFilter::Mempool { from_block_started } => b.state == LifecycleState::Mempool
                && b.block_started >= *from_block_started,
            BenchmarksFilter::Confirmed { from_block_started } => state_confirmed(b.state)
                && b.block_started >= *from_block_started,
        }
    }
}

impl BlockFilter {
    /// Executable form of [`block_matches`].
    pub fn matches(&self, b: &Block) -> (r: bool)
        ensures
            r == block_matches(*b, *self),
    {
        match self {
            BlockFilter::Latest => true,
            BlockFilter::Height(h) => b.details.height == *h,
            BlockFilter::Id(id) => b.id == *id,
            BlockFilter::Round(r) => b.details.round == *r,
        }
    }
}

impl ChallengesFilter {
    /// Executable form of [`challenge_matches`].
    pub fn matches(&self, c: &Challenge) -> (r: bool)
        ensures
            r == challenge_matches(*c, *self),
    {
        match self {
            ChallengesFilter::Id(id) => c.id == *id,
            ChallengesFilter::Name(n) => c.name == *n,
            ChallengesFilter::Mempool => c.state.lifecycle == LifecycleState::Mempool,
            ChallengesFilter::Confirmed => state_confirmed(c.state.lifecycle),
        }
    }
}

impl FraudsFilter {
    /// Executable form of [`fraud_matches`].
    pub fn matches(&self, x: &Fraud) -> (r: bool)
        ensures
            r == fraud_matches(*x, *self),
    {
        match self {
            FraudsFilter::BenchmarkId(id) => x.benchmark_id == *id,
            FraudsFilter::Mempool { from_block_started } => x.state == LifecycleState::Mempool
                && x.block_started >= *from_block_started,
            FraudsFilter::Confirmed { from_block_started } => state_confirmed(x.state)
                && x.block_started >= *from_block_started,
        }
    }
}

impl PlayersFilter {
    /// Executable form of [`player_matches`].
    pub fn matches(&self, p: &Player) -> (r: bool)
        ensures
            r == player_matches(*p, *self),
    {
        match self {
            PlayersFilter::Id(id) => p.id == *id,
            PlayersFilter::Name(n) => p.name == *n,
            PlayersFilter::Benchmarkers => p.is_benchmarker,
            PlayersFilter::Innovators => p.is_innovator,
        }
    }
}

impl PrecommitsFilter {
    /// Executable form of [`precommit_matches`].
    pub fn matches(&self, p: &Precommit) -> (r: bool)
        ensures
            r == precommit_matches(*p, *self),
    {
        match self {
            PrecommitsFilter::BenchmarkId(id) => p.benchmark_id == *id,
            PrecommitsFilter::Settings(s) => p.settings.player_id == s.player_id
                && p.settings.challenge_id == s.challenge_id && p.settings.algorithm_id
                == s.algorithm_id && p.settings.block_id == s.block_id && p.settings.difficulty.0
                == s.difficulty.0 && p.settings.difficulty.1 == s.difficulty.1,
            PrecommitsFilter::Mempool { from_block_started } => p.state == LifecycleState::Mempool
                && p.block_started >= *from_block_started,
            PrecommitsFilter::Confirmed { from_block_started } => state_confirmed(p.state)
                && p.block_started >= *from_block_started,
        }
    }
}

impl ProofsFilter {
    /// Executable form of [`proof_matches`].
    pub fn matches(&self, p: &Proof) -> (r: bool)
        ensures
            r == proof_matches(*p, *self),
    {
        match self {
            ProofsFilter::BenchmarkId(id) => p.benchmark_id == *id,
            ProofsFilter::Mempool { from_block_started } => p.state == LifecycleState::Mempool
                && p.block_started >= *from_block_started,
            ProofsFilter::Confirmed { from_block_started } => state_confirmed(p.state)
                && p.block_started >= *from_block_started,
        }
    }
}

impl TopUpsFilter {
    /// Executable form of [`topup_matches`].
    pub fn matches(&self, t: &TopUp) -> (r: bool)
        ensures
            r == topup_matches(*t, *self),
    {
        match self {
            TopUpsFilter::Id(id) => t.id == *id,
            TopUpsFilter::PlayerId(id) => t.player_id == *id,
            TopUpsFilter::Mempool => t.state == LifecycleState::Mempool,
            TopUpsFilter::Confirmed => state_confirmed(t.state),
        }
    }
}

impl WasmsFilter {
    /// Executable form of [`wasm_matches`].
    pub fn matches(&self, w: &Wasm) -> (r: bool)
        ensures
            r == wasm_matches(*w, *self),
    {
        match self {
            WasmsFilter::AlgorithmId(id) => w.algorithm_id == *id,
            WasmsFilter::Mempool => w.state == LifecycleState::Mempool,
            WasmsFilter::Confirmed => state_confirmed(w.state),
        }
    }
}

} // verus!

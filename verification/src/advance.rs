//! Block advancement: the state-transition engine.
//!
//! Executed once per new block by a single logical writer. Given the latest
//! confirmed block and the mempool contents, it deterministically selects
//! which pending entries are promoted: every mempool algorithm is
//! re-validated against the *new* block's round (eligibility may have
//! changed since insertion), entries failing re-validation are rejected,
//! entries passing are confirmed, and the new block's immutable data
//! snapshot references both groups in mempool order. Entries of one kind are
//! processed in the deterministic total order of the mempool (submission
//! sequence), so independent replayers select and process identically.

use vstd::prelude::*;

use crate::context::{
    algorithm_matches, challenge_matches, lemma_matching_first, lemma_matching_take_all,
    lemma_matching_take_step, matching, AlgorithmsFilter, ChallengesFilter, Ledger,
};
use crate::model::{
    Algorithm, Block, BlockData, BlockDetails, Challenge, LifecycleState, ProtocolConfig,
};
use crate::submit_algorithm::challenge_accepting;
use vstd::pervasive::unreached;

verus! {

/// The outcome of one advancement pass: the next block's details and
/// configuration, and the block-data snapshot recording which mempool
/// algorithms were confirmed and which were rejected.
pub struct Advancement {
    pub details: BlockDetails,
    pub config: ProtocolConfig,
    pub data: BlockData,
}

/// Details of the block following `prev`: height grows by one and the round
/// is derived from the new height by the configured round length.
pub open spec fn spec_next_details(prev: Block) -> BlockDetails {
    BlockDetails {
        height: (prev.details.height + 1) as u32,
        round: ((prev.details.height + 1) as u32 / prev.config.blocks_per_round) as u32,
    }
}

/// Re-validation of one mempool algorithm against the new round: the first
/// challenge it references must accept submissions as of that round.
pub open spec fn algorithm_eligible(challenges: Seq<Challenge>, a: Algorithm, round: u32) -> bool {
    let cs = matching(
        challenges,
        |c: Challenge| challenge_matches(c, ChallengesFilter::Id(a.details.challenge_id)),
    );
    cs.len() > 0 && challenge_accepting(cs[0], round)
}

/// The algorithms of `mempool` passing re-validation, as identifiers in
/// mempool order.
pub open spec fn spec_confirmed_ids(challenges: Seq<Challenge>, mempool: Seq<Algorithm>, round: u32) -> Seq<
    u64,
> {
    matching(mempool, |a: Algorithm| algorithm_eligible(challenges, a, round)).map_values(
        |a: Algorithm| a.id,
    )
}

/// The algorithms of `mempool` failing re-validation, as identifiers in
/// mempool order.
pub open spec fn spec_rejected_ids(challenges: Seq<Challenge>, mempool: Seq<Algorithm>, round: u32) -> Seq<
    u64,
> {
    matching(mempool, |a: Algorithm| !algorithm_eligible(challenges, a, round)).map_values(
        |a: Algorithm| a.id,
    )
}

/// What an advancement pass over this ledger snapshot must produce. Every
/// field of the result is a function of the snapshot alone, which is what
/// makes advancement reproducible across nodes.
pub open spec fn advancement_of(l: Ledger, r: Advancement) -> bool {
    let mempool = matching(
        l.algorithms@,
        |a: Algorithm| algorithm_matches(a, AlgorithmsFilter::Mempool),
    );
    let round = spec_next_details(l.spec_latest_block()).round;
    &&& r.details == spec_next_details(l.spec_latest_block())
    &&& r.config == l.spec_latest_block().config
    &&& r.data.confirmed_algorithm_ids@ == spec_confirmed_ids(l.challenges@, mempool, round)
    &&& r.data.rejected_algorithm_ids@ == spec_rejected_ids(l.challenges@, mempool, round)
}

/// Executable re-validation of one algorithm against a round.
fn check_eligible(ledger: &Ledger, a: &Algorithm, round: u32) -> (b: bool)
    ensures
        b == algorithm_eligible(ledger.challenges@, *a, round),
{
    let cs = ledger.get_challenges(&ChallengesFilter::Id(a.details.challenge_id.clone()));
    if cs.len() == 0 {
        return false;
    }
    match cs[0].state.round_active {
        Some(r) => r <= round,
        None => false,
    }
}

/// Computes one advancement pass over the ledger snapshot, without applying
/// it. The result is uniquely determined by the snapshot (see
/// [`lemma_advancement_deterministic`]).
pub fn advance_block(ledger: &Ledger) -> (r: Advancement)
    requires
        ledger.blocks@.len() > 0,
        ledger.spec_latest_block().details.height < u32::MAX,
        ledger.spec_latest_block().config.blocks_per_round > 0,
    ensures
        advancement_of(*ledger, r),
{
    let prev = match ledger.get_block(&crate::context::BlockFilter::Latest) {
        Some(b) => b,
        None => unreached(),
    };
    let height = prev.details.height + 1;
    let round = height / prev.config.blocks_per_round;
    let details = BlockDetails { height, round };

    let mempool = ledger.get_algorithms(&AlgorithmsFilter::Mempool);
    let ghost eligible = |a: Algorithm| algorithm_eligible(ledger.challenges@, a, round);
    let ghost ineligible = |a: Algorithm| !algorithm_eligible(ledger.challenges@, a, round);
    let ghost to_id = |a: Algorithm| a.id;
    let mut confirmed: Vec<u64> = Vec::new();
    let mut rejected: Vec<u64> = Vec::new();
    let mut i: usize = 0;
    while i < mempool.len()
        invariant
            0 <= i <= mempool.len(),
            confirmed@ == matching(mempool@.take(i as int), eligible).map_values(to_id),
            rejected@ == matching(mempool@.take(i as int), ineligible).map_values(to_id),
            eligible == (|a: Algorithm| algorithm_eligible(ledger.challenges@, a, round)),
            ineligible == (|a: Algorithm| !algorithm_eligible(ledger.challenges@, a, round)),
            to_id == (|a: Algorithm| a.id),
        decreases mempool.len() - i,
    {
        proof {
            lemma_matching_take_step(mempool@, eligible, i as int);
            lemma_matching_take_step(mempool@, ineligible, i as int);
        }
        let a = &mempool[i];
        if check_eligible(ledger, a, round) {
            confirmed.push(a.id);
            proof {
                assert(matching(mempool@.take(i as int + 1), eligible).map_values(to_id)
                    =~= matching(mempool@.take(i as int), eligible).map_values(to_id).push(
                    mempool@[i as int].id,
                ));
            }
        } else {
            rejected.push(a.id);
            proof {
                assert(matching(mempool@.take(i as int + 1), ineligible).map_values(to_id)
                    =~= matching(mempool@.take(i as int), ineligible).map_values(to_id).push(
                    mempool@[i as int].id,
                ));
            }
        }
        i = i + 1;
    }
    proof {
        lemma_matching_take_all(mempool@, eligible);
        lemma_matching_take_all(mempool@, ineligible);
    }
    Advancement {
        details,
        config: prev.config,
        data: BlockData { confirmed_algorithm_ids: confirmed, rejected_algorithm_ids: rejected },
    }
}

/// Law: block advancement is idempotent. Any two advancement passes over the
/// same ledger snapshot produce identical block details, configuration and
/// block data, so re-running advancement against an unchanged mempool
/// snapshot and previous block cannot diverge.
pub proof fn lemma_advancement_deterministic(l: Ledger, r1: Advancement, r2: Advancement)
    requires
        advancement_of(l, r1),
        advancement_of(l, r2),
    ensures
        r1.details == r2.details,
        r1.config == r2.config,
        r1.data.confirmed_algorithm_ids@ == r2.data.confirmed_algorithm_ids@,
        r1.data.rejected_algorithm_ids@ == r2.data.rejected_algorithm_ids@,
{
}

/// The lifecycle state an algorithm holds after an advancement pass is
/// applied: rejected entries are demoted, confirmed entries promoted, and
/// everything else keeps its state.
pub open spec fn state_after_advancement(a: Algorithm, adv: Advancement) -> LifecycleState {
    if adv.data.rejected_algorithm_ids@.contains(a.id) {
        LifecycleState::Rejected
    } else if adv.data.confirmed_algorithm_ids@.contains(a.id) {
        LifecycleState::Confirmed
    } else {
        a.state
    }
}

/// Applies one advancement pass to the ledger: promotes and demotes the
/// selected mempool algorithms and appends the new block with its immutable
/// data snapshot. The new block is then the latest block.
pub fn apply_advancement(ledger: &mut Ledger, adv: Advancement) -> (block_id: u64)
    requires
        old(ledger).wf(),
        old(ledger).next_block_id < u64::MAX,
    ensures
        final(ledger).wf(),
        block_id == old(ledger).next_block_id,
        final(ledger).blocks@ == old(ledger).blocks@.push(
            (Block { id: block_id, details: adv.details, config: adv.config }),
        ),
        final(ledger).block_data@ == old(ledger).block_data@.push(adv.data),
        final(ledger).algorithms@.len() == old(ledger).algorithms@.len(),
        forall|k: int|
            0 <= k < old(ledger).algorithms@.len() ==> final(ledger).algorithms@[k] == (Algorithm {
                state: state_after_advancement(old(ledger).algorithms@[k], adv),
                ..old(ledger).algorithms@[k]
            }),
        final(ledger).challenges == old(ledger).challenges,
        final(ledger).transactions == old(ledger).transactions,
        final(ledger).next_algorithm_id == old(ledger).next_algorithm_id,
{
    let confirmed_len = adv.data.confirmed_algorithm_ids.len();
    let mut p: usize = 0;
    while p < confirmed_len
        invariant
            0 <= p <= confirmed_len,
            confirmed_len == adv.data.confirmed_algorithm_ids@.len(),
            ledger.algorithms@.len() == old(ledger).algorithms@.len(),
            forall|k: int|
                0 <= k < old(ledger).algorithms@.len() ==> ledger.algorithms@[k] == (Algorithm {
                    state: if adv.data.confirmed_algorithm_ids@.take(p as int).contains(
                        old(ledger).algorithms@[k].id,
                    ) {
                        LifecycleState::Confirmed
                    } else {
                        old(ledger).algorithms@[k].state
                    },
                    ..old(ledger).algorithms@[k]
                }),
            ledger.blocks == old(ledger).blocks,
            ledger.block_data == old(ledger).block_data,
            ledger.benchmarks == old(ledger).benchmarks,
            ledger.challenges == old(ledger).challenges,
            ledger.frauds == old(ledger).frauds,
            ledger.players == old(ledger).players,
            ledger.precommits == old(ledger).precommits,
            ledger.proofs == old(ledger).proofs,
            ledger.topups == old(ledger).topups,
            ledger.wasms == old(ledger).wasms,
            ledger.transactions == old(ledger).transactions,
            ledger.next_algorithm_id == old(ledger).next_algorithm_id,
            ledger.next_block_id == old(ledger).next_block_id,
        decreases confirmed_len - p,
    {
        let id = adv.data.confirmed_algorithm_ids[p];
        ledger.update_algorithm_state(id, LifecycleState::Confirmed);
        proof {
            assert(adv.data.confirmed_algorithm_ids@.take(p as int + 1) =~= adv.data.confirmed_algorithm_ids@.take(
                p as int,
            ).push(id));
            assert forall|k: int| 0 <= k < old(ledger).algorithms@.len() implies adv.data.confirmed_algorithm_ids@.take(
                p as int + 1,
            ).contains(old(ledger).algorithms@[k].id) == (adv.data.confirmed_algorithm_ids@.take(
                p as int,
            ).contains(old(ledger).algorithms@[k].id) || old(ledger).algorithms@[k].id == id) by {
                let s = adv.data.confirmed_algorithm_ids@.take(p as int);
                let x = old(ledger).algorithms@[k].id;
                if s.push(id).contains(x) {
                    let w = choose|w: int| 0 <= w < s.push(id).len() && s.push(id)[w] == x;
                    if w < s.len() {
                        assert(s[w] == x);
                    } else {
                        assert(x == id);
                    }
                }
                if s.contains(x) {
                    let w = choose|w: int| 0 <= w < s.len() && s[w] == x;
                    assert(s.push(id)[w] == x);
                }
                if x == id {
                    assert(s.push(id)[s.len() as int] == x);
                }
            }
        }
        p = p + 1;
    }
    proof {
        assert(adv.data.confirmed_algorithm_ids@.take(confirmed_len as int)
            =~= adv.data.confirmed_algorithm_ids@);
    }
    let rejected_len = adv.data.rejected_algorithm_ids.len();
    let ghost mid = ledger.algorithms@;
    let mut q: usize = 0;
    while q < rejected_len
        invariant
            0 <= q <= rejected_len,
            rejected_len == adv.data.rejected_algorithm_ids@.len(),
            ledger.algorithms@.len() == mid.len(),
            mid.len() == old(ledger).algorithms@.len(),
            forall|k: int|
                0 <= k < mid.len() ==> #[trigger] mid[k].id == old(ledger).algorithms@[k].id,
            forall|k: int|
                0 <= k < mid.len() ==> ledger.algorithms@[k] == (Algorithm {
                    state: if adv.data.rejected_algorithm_ids@.take(q as int).contains(
                        mid[k].id,
                    ) {
                        LifecycleState::Rejected
                    } else {
                        mid[k].state
                    },
                    ..mid[k]
                }),
            ledger.blocks == old(ledger).blocks,
            ledger.block_data == old(ledger).block_data,
            ledger.benchmarks == old(ledger).benchmarks,
            ledger.challenges == old(ledger).challenges,
            ledger.frauds == old(ledger).frauds,
            ledger.players == old(ledger).players,
            ledger.precommits == old(ledger).precommits,
            ledger.proofs == old(ledger).proofs,
            ledger.topups == old(ledger).topups,
            ledger.wasms == old(ledger).wasms,
            ledger.transactions == old(ledger).transactions,
            ledger.next_algorithm_id == old(ledger).next_algorithm_id,
            ledger.next_block_id == old(ledger).next_block_id,
        decreases rejected_len - q,
    {
        let id = adv.data.rejected_algorithm_ids[q];
        ledger.update_algorithm_state(id, LifecycleState::Rejected);
        proof {
            assert(adv.data.rejected_algorithm_ids@.take(q as int + 1) =~= adv.data.rejected_algorithm_ids@.take(
                q as int,
            ).push(id));
            assert forall|k: int| 0 <= k < mid.len() implies adv.data.rejected_algorithm_ids@.take(
                q as int + 1,
            ).contains(mid[k].id) == (adv.data.rejected_algorithm_ids@.take(q as int).contains(
                mid[k].id,
            ) || mid[k].id == id) by {
                let s = adv.data.rejected_algorithm_ids@.take(q as int);
                let x = mid[k].id;
                if s.push(id).contains(x) {
                    let w = choose|w: int| 0 <= w < s.push(id).len() && s.push(id)[w] == x;
                    if w < s.len() {
                        assert(s[w] == x);
                    } else {
                        assert(x == id);
                    }
                }
                if s.contains(x) {
                    let w = choose|w: int| 0 <= w < s.len() && s[w] == x;
                    assert(s.push(id)[w] == x);
                }
                if x == id {
                    assert(s.push(id)[s.len() as int] == x);
                }
            }
        }
        q = q + 1;
    }
    proof {
        assert(adv.data.rejected_algorithm_ids@.take(rejected_len as int)
            =~= adv.data.rejected_algorithm_ids@);
    }
    ledger.add_block(adv.details, adv.config, adv.data)
}

} // verus!

//! The decision logic of peer synchronization. Fetching a chain over the
//! network is outside work; this module takes the per-peer fetch outcomes,
//! in peer order, applies the replacement rule to each, and counts how many
//! peers' chains were actually adopted. A failed fetch never blocks the
//! remaining peers.

use vstd::prelude::*;
use crate::models::{Block, Blockchain, BlockView, JournalError, chain_valid, views_of};

verus! {

/// What one peer's fetch came to: either its full chain, or a failure —
/// `NetworkError` for an unreachable or timed-out peer, `SerializationError`
/// for a malformed answer. Either failure only skips that peer.
pub enum FetchOutcome {
    Fetched(Vec<Block>),
    FetchFailed(JournalError),
}

impl View for FetchOutcome {
    type V = Option<Seq<BlockView>>;

    open spec fn view(&self) -> Option<Seq<BlockView>> {
        match self {
            FetchOutcome::Fetched(blocks) => Some(views_of(blocks@)),
            FetchOutcome::FetchFailed(_) => None,
        }
    }
}

/// The mathematical values of a sequence of fetch outcomes.
pub open spec fn outcome_views(outcomes: Seq<FetchOutcome>) -> Seq<Option<Seq<BlockView>>> {
    outcomes.map_values(|o: FetchOutcome| o@)
}

/// What one outcome does to the local chain: a fetched candidate is adopted
/// if and only if it is strictly longer and valid; a failed fetch changes
/// nothing.
pub open spec fn sync_step(
    chain: Seq<BlockView>,
    outcome: Option<Seq<BlockView>>,
) -> (Seq<BlockView>, bool) {
    match outcome {
        Some(candidate) => if candidate.len() > chain.len() && chain_valid(candidate) {
            (candidate, true)
        } else {
            (chain, false)
        },
        None => (chain, false),
    }
}

/// The chain left after applying every outcome in order, and the number of
/// outcomes that were adopted.
pub open spec fn sync_fold(
    chain: Seq<BlockView>,
    outcomes: Seq<Option<Seq<BlockView>>>,
) -> (Seq<BlockView>, int)
    decreases outcomes.len(),
{
    if outcomes.len() == 0 {
        (chain, 0)
    } else {
        let (next, adopted) = sync_step(chain, outcomes[0]);
        let (fin, count) = sync_fold(next, outcomes.drop_first());
        (fin, count + if adopted {
            1int
        } else {
            0int
        })
    }
}

/// The count of a fold never exceeds the number of outcomes, and an empty
/// outcome list changes nothing.
pub proof fn lemma_sync_fold_count(chain: Seq<BlockView>, outcomes: Seq<Option<Seq<BlockView>>>)
    ensures
        0 <= sync_fold(chain, outcomes).1 <= outcomes.len(),
        outcomes.len() == 0 ==> sync_fold(chain, outcomes).0 == chain,
    decreases outcomes.len(),
{
    if outcomes.len() > 0 {
        let (next, adopted) = sync_step(chain, outcomes[0]);
        lemma_sync_fold_count(next, outcomes.drop_first());
    }
}

impl Blockchain {
    /// Applies one peer's fetch outcome to this chain under the replacement
    /// rule, and reports whether the fetched chain was adopted. A failed
    /// fetch is never adopted and leaves the chain unchanged.
    pub fn apply_fetch_outcome(&mut self, outcome: FetchOutcome) -> (adopted: bool)
        ensures
            (final(self)@, adopted) == sync_step(old(self)@, outcome@),
    {
        match outcome {
            FetchOutcome::Fetched(blocks) => self.replace_chain(blocks),
            FetchOutcome::FetchFailed(_) => false,
        }
    }

    /// Applies every peer's fetch outcome in peer order and returns how many
    /// were adopted — fetched, strictly longer and valid. A peer whose fetch
    /// failed, or whose chain was rejected, does not count and does not
    /// disturb the remaining peers. An empty outcome list leaves the chain
    /// unchanged and counts zero.
    pub fn sync_with_outcomes(&mut self, outcomes: Vec<FetchOutcome>) -> (count: usize)
        ensures
            (final(self)@, count as int) == sync_fold(old(self)@, outcome_views(outcomes@)),
            count <= outcomes@.len(),
    {
        let ghost all = outcome_views(outcomes@);
        let mut count: usize = 0;
        let mut i: usize = 0;
        let n = outcomes.len();
        let mut rest = outcomes;
        // Consume the outcomes front to back.
        proof {
            lemma_sync_fold_count(self@, all);
        }
        while i < n
            invariant
                i <= n,
                n == all.len(),
                count <= i,
                rest@.len() == n - i,
                outcome_views(rest@) == all.skip(i as int),
                sync_fold(old(self)@, all) == {
                    let (fin, c) = sync_fold(self@, all.skip(i as int));
                    (fin, c + count as int)
                },
            decreases n - i,
        {
            proof {
                assert(all.skip(i as int).len() > 0);
                assert(all.skip(i as int)[0] == outcome_views(rest@)[0]);
                assert(all.skip(i as int).drop_first() =~= all.skip(i + 1 as int));
            }
            let outcome = rest.remove(0);
            proof {
                assert(outcome_views(rest@) =~= all.skip(i + 1 as int));
            }
            let adopted = self.apply_fetch_outcome(outcome);
            if adopted {
                count = count + 1;
            }
            i = i + 1;
        }
        proof {
            assert(all.skip(n as int) =~= Seq::<Option<Seq<BlockView>>>::empty());
        }
        count
    }
}

/// The in-band status a peer is told after submitting a candidate chain:
/// acceptance and rejection are reported in the body, never as a transport
/// failure.
pub fn sync_reply(adopted: bool) -> (r: String)
    ensures
        adopted ==> r@ == "SYNC SUCCESSFUL!"@,
        !adopted ==> r@ == "SYNC FAILED!"@,
{
    if adopted {
        "SYNC SUCCESSFUL!".to_owned()
    } else {
        "SYNC FAILED!".to_owned()
    }
}

} // verus!

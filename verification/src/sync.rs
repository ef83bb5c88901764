//! Chain-synchronisation decisions: consensus-tip agreement between the two
//! header sources, the per-cycle plan, the reorg walk, and linkage-checked
//! batch acceptance.  Fetching itself is the caller's work; every rule is
//! decided here on plain values.

use vstd::prelude::*;
use crate::block_store::{BlockStore, BlockHeader, BlockError};
use crate::engine::Engine;
use crate::types::{str_eq, AdminEventType};
use crate::config::{MAX_BLOCKS_TO_KEEP, MAX_REORG_CHECK_PER_CALL};

verus! {

/// A chain tip as a source reports it.
#[derive(Debug)]
pub struct TipInfo {
    pub height: u64,
    pub hash: String,
}

/// Why no consensus tip could be decided this cycle.
#[derive(Clone, Copy, Debug, PartialEq, Eq, Structural)]
pub enum SyncError {
    BothSourcesFailed,
    SourcesDisagree,
}

/// What one synchronisation cycle should do next.
#[derive(Clone, Copy, Debug, PartialEq, Eq, Structural)]
pub enum SyncAction {
    InitialSync,
    AlreadySynced,
    FetchFrom { start: u64 },
    SkipCycle,
    StartReorgCheck { height: u64 },
}

/// The outcome of one step of the backward reorg walk.
#[derive(Clone, Copy, Debug, PartialEq, Eq, Structural)]
pub enum ReorgDecision {
    AgreeRemoveAbove { height: u64 },
    CheckDeeper { height: u64 },
    BatchLimit { remove_from: u64 },
    Fatal,
}

/// Two reported tips that name the same block.
pub open spec fn tips_agree(a: TipInfo, b: TipInfo) -> bool {
    a.height == b.height && a.hash@ == b.hash@
}

/// Whether the second source's list holds an entry agreeing with the tip.
pub open spec fn has_agreeing(bs: Seq<TipInfo>, t: TipInfo) -> bool {
    exists|j: int| 0 <= j < bs.len() && tips_agree(#[trigger] bs[j], t)
}

/// Decide the consensus tip from the two sources' answers.  Matching tips
/// are used directly; differing tips fall back to the first agreement among
/// the ten most recent entries, since each hash commits to every ancestor;
/// a single working source is used with the archive-fallback flag set; when
/// both are silent the archival companion's tip, if one was fetched, is used
/// the same way, and only with all three silent is there nothing to decide.
#[verifier::loop_isolation(false)]
pub fn find_consensus_tip(
    a: Option<&TipInfo>,
    b: Option<&TipInfo>,
    a_recent: &Vec<TipInfo>,
    b_recent: &Vec<TipInfo>,
    archive: Option<&TipInfo>,
) -> (r: Result<(TipInfo, bool), SyncError>)
    ensures
        match r {
            Ok((tip, fallback)) => {
                if a is Some && b is Some {
                    &&& !fallback
                    &&& (tips_agree(*a.unwrap(), *b.unwrap()) && tip.height == a.unwrap().height
                        && tip.hash@ == a.unwrap().hash@) || (exists|i: int|
                        0 <= i < a_recent@.len() && i < 10 && tips_agree(
                            #[trigger] a_recent@[i],
                            tip,
                        ) && has_agreeing(b_recent@, tip))
                } else if a is Some {
                    fallback && tip.height == a.unwrap().height && tip.hash@
                        == a.unwrap().hash@ && b is None
                } else if b is Some {
                    fallback && tip.height == b.unwrap().height && tip.hash@
                        == b.unwrap().hash@
                } else {
                    fallback && (archive matches Some(t) && tip.height == t.height && tip.hash@
                        == t.hash@)
                }
            },
            Err(SyncError::BothSourcesFailed) => a is None && b is None && archive is None,
            Err(SyncError::SourcesDisagree) => {
                &&& a is Some && b is Some
                &&& !tips_agree(*a.unwrap(), *b.unwrap())
                &&& forall|i: int|
                    0 <= i < a_recent@.len() && i < 10 ==> !has_agreeing(
                        b_recent@,
                        #[trigger] a_recent@[i],
                    )
            },
        },
{
    match (a, b) {
        (None, None) => match archive {
            // Both live header sources are silent: the archival companion's
            // tip keeps the sync moving, with the fallback flag set.
            Some(at) => Ok(
                (
                    TipInfo {
                        height: at.height,
                        hash: crate::block_store::clone_str(&at.hash),
                    },
                    true,
                ),
            ),
            None => Err(SyncError::BothSourcesFailed),
        },
        (Some(at), None) => Ok(
            (TipInfo { height: at.height, hash: crate::block_store::clone_str(&at.hash) }, true),
        ),
        (None, Some(bt)) => Ok(
            (TipInfo { height: bt.height, hash: crate::block_store::clone_str(&bt.hash) }, true),
        ),
        (Some(at), Some(bt)) => {
            if at.height == bt.height && str_eq(at.hash.as_str(), bt.hash.as_str()) {
                return Ok(
                    (
                        TipInfo {
                            height: at.height,
                            hash: crate::block_store::clone_str(&at.hash),
                        },
                        false,
                    ),
                );
            }
            let mut i: usize = 0;
            while i < a_recent.len() && i < 10
                invariant
                    i <= a_recent@.len(),
                    i <= 10,
                    forall|i2: int| 0 <= i2 < i ==> !has_agreeing(
                        b_recent@,
                        #[trigger] a_recent@[i2],
                    ),
                decreases a_recent@.len() - i,
            {
                let cand = &a_recent[i];
                let mut j: usize = 0;
                while j < b_recent.len()
                    invariant
                        j <= b_recent@.len(),
                        i < a_recent@.len(),
                        forall|j2: int| 0 <= j2 < j ==> !tips_agree(
                            #[trigger] b_recent@[j2],
                            a_recent@[i as int],
                        ),
                    decreases b_recent@.len() - j,
                {
                    if b_recent[j].height == cand.height && str_eq(
                        b_recent[j].hash.as_str(),
                        cand.hash.as_str(),
                    ) {
                        proof {
                            assert(b_recent@[j as int].height == a_recent@[i as int].height);
                            assert(b_recent@[j as int].hash@ == a_recent@[i as int].hash@);
                            assert(tips_agree(b_recent@[j as int], a_recent@[i as int]));
                        }
                        return Ok(
                            (
                                TipInfo {
                                    height: cand.height,
                                    hash: crate::block_store::clone_str(&cand.hash),
                                },
                                false,
                            ),
                        );
                    }
                    j = j + 1;
                }
                i = i + 1;
            }
            Err(SyncError::SourcesDisagree)
        },
    }
}

/// Decide what this cycle does, given the consensus tip and the second
/// source's view of our local tip: an empty store starts the initial sync;
/// a silent source skips the cycle; a matching tip hash continues forward;
/// a mismatch starts the backward reorg walk.
pub fn plan_sync_step(
    store: &BlockStore,
    consensus_height: u64,
    b_at_local_tip: Option<&TipInfo>,
) -> (r: SyncAction)
    requires
        store.inv(),
    ensures
        store.headers@.len() == 0 ==> r == SyncAction::InitialSync,
        store.headers@.len() > 0 ==> match r {
            SyncAction::SkipCycle => b_at_local_tip is None,
            SyncAction::AlreadySynced => (b_at_local_tip matches Some(t) && t.hash@
                == store.spec_get(store.spec_highest()).hash@) && consensus_height
                <= store.spec_highest(),
            SyncAction::FetchFrom { start } => (b_at_local_tip matches Some(t) && t.hash@
                == store.spec_get(store.spec_highest()).hash@) && consensus_height
                > store.spec_highest() && start == store.spec_highest() + 1,
            SyncAction::StartReorgCheck { height } => (b_at_local_tip matches Some(t) && t.hash@
                != store.spec_get(store.spec_highest()).hash@) && height == store.spec_highest(),
            _ => false,
        },
{
    if store.get_block_count() == 0 {
        return SyncAction::InitialSync;
    }
    let top = store.get_highest_block();
    let local = match store.get_block_by_height(top) {
        Some(h) => h,
        None => {
            proof {
                assert(store.spec_has(store.spec_highest()));
                assert(false);
            }
            return SyncAction::SkipCycle;
        },
    };
    match b_at_local_tip {
        None => SyncAction::SkipCycle,
        Some(t) => {
            if str_eq(t.hash.as_str(), local.hash.as_str()) {
                if consensus_height > top {
                    SyncAction::FetchFrom { start: top + 1 }
                } else {
                    SyncAction::AlreadySynced
                }
            } else {
                SyncAction::StartReorgCheck { height: top }
            }
        },
    }
}

/// One step of the backward reorg walk at `check_height`, comparing the
/// source's hash there against ours.  Agreement ends the walk; the per-call
/// batch limit pauses it; a walk deeper than the retention window is fatal.
pub fn reorg_step(
    store: &BlockStore,
    check_height: u64,
    source_hash: &str,
    blocks_checked: u64,
) -> (r: ReorgDecision)
    requires
        store.inv(),
        check_height < u64::MAX,
    ensures
        match r {
            ReorgDecision::AgreeRemoveAbove { height } => height == check_height && store.spec_has(
                check_height as int,
            ) && store.spec_get(check_height as int).hash@ == source_hash@,
            ReorgDecision::CheckDeeper { height } => store.spec_has(check_height as int)
                && store.spec_get(check_height as int).hash@ != source_hash@ && height
                == check_height - 1 && check_height > 0,
            ReorgDecision::BatchLimit { remove_from } => blocks_checked
                >= MAX_REORG_CHECK_PER_CALL && remove_from == check_height + 1,
            ReorgDecision::Fatal => !store.spec_has(check_height as int) || (store.spec_highest()
                - check_height >= MAX_BLOCKS_TO_KEEP) || check_height == 0,
        },
{
    if blocks_checked >= MAX_REORG_CHECK_PER_CALL {
        return ReorgDecision::BatchLimit { remove_from: check_height + 1 };
    }
    let top = store.get_highest_block();
    if top >= check_height && top - check_height >= MAX_BLOCKS_TO_KEEP {
        return ReorgDecision::Fatal;
    }
    let ours = match store.get_block_by_height(check_height) {
        Some(h) => h,
        None => {
            return ReorgDecision::Fatal;
        },
    };
    if str_eq(ours.hash.as_str(), source_hash) {
        ReorgDecision::AgreeRemoveAbove { height: check_height }
    } else if check_height == 0 {
        ReorgDecision::Fatal
    } else {
        ReorgDecision::CheckDeeper { height: check_height - 1 }
    }
}

/// Whether the batch's header at position `i` links onto the chain formed by
/// the stored headers followed by the batch's first `i` headers: a nonzero
/// height, one above the chain's top, carrying the top's hash.
pub open spec fn batch_link_ok(base: Seq<BlockHeader>, hs: Seq<BlockHeader>, i: int) -> bool {
    let chain = base + hs.take(i);
    &&& hs[i].height >= 1
    &&& chain.len() > 0 ==> hs[i].height == chain.last().height + 1 && hs[i].previous_hash@
        == chain.last().hash@
}

/// Accept a fetched batch of headers, ascending, each verified against its
/// stored predecessor before it is kept.  The batch is stored whole exactly
/// when every header links; a broken link stops it at the first offender, and
/// what came before stays stored, as the next cycle resumes from there.
#[verifier::loop_isolation(false)]
#[verifier::rlimit(100)]
#[verifier::spinoff_prover]
pub fn accept_batch(store: &mut BlockStore, headers: Vec<BlockHeader>) -> (r: Result<
    u64,
    BlockError,
>)
    requires
        old(store).inv(),
    ensures
        final(store).inv(),
        match r {
            Ok(n) => {
                &&& n == headers@.len()
                &&& final(store).headers@.len() == old(store).headers@.len() + headers@.len()
                &&& final(store).headers@.subrange(0, old(store).headers@.len() as int) == old(
                    store,
                ).headers@
                &&& forall|i: int|
                    0 <= i < headers@.len() ==> final(store).headers@[old(store).headers@.len()
                        + i] == #[trigger] headers@[i]
            },
            Err(_) => exists|k: int|
                {
                    &&& 0 <= k < headers@.len()
                    &&& !(#[trigger] batch_link_ok(old(store).headers@, headers@, k))
                    &&& forall|j: int|
                        0 <= j < k ==> batch_link_ok(old(store).headers@, headers@, j)
                    &&& final(store).headers@ == old(store).headers@ + headers@.take(k)
                },
        },
        r is Ok <==> forall|i: int|
            0 <= i < headers@.len() ==> #[trigger] batch_link_ok(
                old(store).headers@,
                headers@,
                i,
            ),
{
    let n = headers.len();
    let mut accepted: u64 = 0;
    let ghost pre = *old(store);
    for idx in it: 0..n
        invariant
            store.inv(),
            n == headers@.len(),
            accepted == idx,
            store.headers@ == pre.headers@ + headers@.take(idx as int),
            forall|j: int| 0 <= j < idx ==> #[trigger] batch_link_ok(pre.headers@, headers@, j),
    {
        let h = headers[idx].duplicate();
        proof {
            assert(store.headers@.len() == pre.headers@.len() + idx);
            if store.headers@.len() > 0 {
                assert((pre.headers@ + headers@.take(idx as int)).last()
                    == store.headers@[store.headers@.len() - 1]);
            }
        }
        if h.height == 0 {
            proof {
                assert(!batch_link_ok(pre.headers@, headers@, idx as int));
            }
            return Err(BlockError::InvalidRange);
        }
        if store.get_block_count() > 0 {
            let top = store.get_highest_block();
            if h.height - 1 != top {
                proof {
                    assert(!batch_link_ok(pre.headers@, headers@, idx as int));
                }
                return Err(BlockError::ChainBroken { height: h.height });
            }
            let prev = match store.get_block_by_height(top) {
                Some(p) => p,
                None => {
                    proof {
                        assert(store.spec_has(store.spec_highest()));
                        assert(false);
                    }
                    return Err(BlockError::BlockNotFound { height: top });
                },
            };
            if !str_eq(h.previous_hash.as_str(), prev.hash.as_str()) {
                proof {
                    assert(prev == store.headers@[store.headers@.len() - 1]);
                    assert(!batch_link_ok(pre.headers@, headers@, idx as int));
                }
                return Err(BlockError::ChainBroken { height: h.height });
            }
        }
        let ghost before = *store;
        proof {
            assert(batch_link_ok(pre.headers@, headers@, idx as int));
        }
        store.store_block(h);
        accepted = accepted + 1;
        proof {
            assert(store.headers@ =~= pre.headers@ + headers@.take(idx + 1 as int));
        }
    }
    proof {
        assert(store.headers@ =~= pre.headers@ + headers@);
        assert(headers@.take(n as int) =~= headers@);
        assert(store.headers@.subrange(0, pre.headers@.len() as int) =~= pre.headers@);
    }
    Ok(accepted)
}

/// Accept a batch as `accept_batch` does, and when a header fails the
/// linkage check, record a block-insertion error in the engine's audit log
/// at the height the error names before handing the error on.
pub fn accept_batch_logged(
    engine: &mut Engine,
    store: &mut BlockStore,
    headers: Vec<BlockHeader>,
    now: u64,
) -> (r: Result<u64, BlockError>)
    requires
        old(store).inv(),
        old(engine).inv(),
        old(engine).next_admin_event_id < u64::MAX,
    ensures
        final(store).inv(),
        final(engine).inv(),
        r is Ok <==> forall|i: int|
            0 <= i < headers@.len() ==> #[trigger] batch_link_ok(
                old(store).headers@,
                headers@,
                i,
            ),
        match r {
            Ok(n) => {
                &&& *final(engine) == *old(engine)
                &&& n == headers@.len()
                &&& final(store).headers@.len() == old(store).headers@.len() + headers@.len()
                &&& final(store).headers@.subrange(0, old(store).headers@.len() as int) == old(
                    store,
                ).headers@
                &&& forall|i: int|
                    0 <= i < headers@.len() ==> final(store).headers@[old(store).headers@.len()
                        + i] == #[trigger] headers@[i]
            },
            Err(e) => {
                &&& exists|k: int|
                    {
                        &&& 0 <= k < headers@.len()
                        &&& !(#[trigger] batch_link_ok(old(store).headers@, headers@, k))
                        &&& forall|j: int|
                            0 <= j < k ==> batch_link_ok(old(store).headers@, headers@, j)
                        &&& final(store).headers@ == old(store).headers@ + headers@.take(k)
                    }
                &&& final(engine).admin_events@.len() >= 1
                &&& final(engine).admin_events@.last().timestamp == now
                &&& (final(engine).admin_events@.last().event_type
                    matches AdminEventType::BlockInsertionError { block_height } && (
                match e {
                    BlockError::ChainBroken { height } => block_height == height,
                    BlockError::BlockNotFound { height } => block_height == height,
                    _ => block_height == 0,
                }))
                &&& final(engine).orders@ == old(engine).orders@
                &&& final(engine).chunks@ == old(engine).chunks@
                &&& final(engine).trades@ == old(engine).trades@
                &&& final(engine).used_txids@ == old(engine).used_txids@
                &&& final(engine).filler_accounts@ == old(engine).filler_accounts@
            },
        },
{
    let ghost pre = *engine;
    match accept_batch(store, headers) {
        Ok(n) => Ok(n),
        Err(e) => {
            let block_height: u64 = match &e {
                BlockError::ChainBroken { height } => *height,
                BlockError::BlockNotFound { height } => *height,
                _ => 0,
            };
            engine.create_admin_event(
                AdminEventType::BlockInsertionError { block_height },
                now,
            );
            proof {
                crate::engine::lemma_txids_carry(pre, *engine);
                crate::engine::lemma_locking_carry(pre, *engine);
            }
            Err(e)
        },
    }
}

/// The synchronisation status a caller reports.
#[derive(Debug)]
pub struct SyncStatus {
    pub highest_block: u64,
    pub block_count: usize,
    pub min_stored_height: u64,
    pub max_stored_height: u64,
    pub last_sync_time: u64,
    pub is_syncing: bool,
}

/// Summarise the store and the caller's in-progress flag.
pub fn get_sync_status(store: &BlockStore, is_syncing: bool) -> (r: SyncStatus)
    ensures
        r.highest_block == store.spec_highest(),
        r.block_count == store.headers@.len(),
        r.last_sync_time == store.last_sync_time,
        r.is_syncing == is_syncing,
        store.headers@.len() > 0 ==> r.min_stored_height == store.headers@[0].height
            && r.max_stored_height == store.spec_highest(),
{
    let (min_h, max_h) = store.get_stored_range();
    SyncStatus {
        highest_block: store.get_highest_block(),
        block_count: store.get_block_count(),
        min_stored_height: min_h,
        max_stored_height: max_h,
        last_sync_time: store.get_last_sync_time(),
        is_syncing,
    }
}

} // verus!

//! Sync engine decisions: the pure transition function of the per-tip state
//! machine. The surrounding process performs the chosen action (fetch,
//! apply, undo, wait) against the upstream node and the store, and hands
//! the resulting event back; the decisions themselves are verified here.

use vstd::prelude::*;

verus! {

/// The engine's state for one tracked chain tip.
#[derive(Debug, Clone, Copy, PartialEq, Eq, Structural)]
pub enum SyncState {
    /// Steady state: the index may lag the upstream tip.
    Behind,
    /// A block at the given height was requested.
    Fetching { next_height: i32 },
    /// A fetched block at the given height is being applied.
    Applying { height: i32 },
    /// Walking back to the common ancestor of a competing branch.
    Reorganizing { ancestor: i32 },
}

/// What the outside world reports to the engine.
#[derive(Debug, Clone, Copy, PartialEq, Eq, Structural)]
pub enum SyncEvent {
    /// The upstream tip stands at this height.
    TipSeen { best_height: i32 },
    /// A requested block arrived, for this height.
    BlockFetched { height: i32 },
    /// The store applied the block at this height.
    BlockApplied { height: i32 },
    /// The upstream reports a competing branch; undo down to this height.
    ReorgSignal { ancestor: i32 },
    /// The store retracted its top block; the new next height is given.
    UndoneTo { next_height: i32 },
    /// A transient upstream failure.
    UpstreamError,
}

/// What the engine asks the outside world to do next.
#[derive(Debug, Clone, Copy, PartialEq, Eq, Structural)]
pub enum SyncAction {
    /// Nothing to do; retry after the upstream's notification or backoff.
    Wait,
    /// Request the block at this height.
    FetchBlock { height: i32 },
    /// Apply the fetched block to the store.
    ApplyFetched,
    /// Retract the store's top block.
    UndoBlock,
}

/// The transition function: from state and event to the next state and the
/// action to perform, given the height the store expects next. A reorg
/// signal always preempts; a transient upstream failure always falls back
/// to `Behind` and is retried; an unexpected event is ignored.
pub open spec fn spec_sync_step(
    state: SyncState,
    event: SyncEvent,
    store_next_height: i32,
) -> (SyncState, SyncAction) {
    match event {
        SyncEvent::ReorgSignal { ancestor } => (
            SyncState::Reorganizing { ancestor },
            SyncAction::UndoBlock,
        ),
        SyncEvent::UpstreamError => (SyncState::Behind, SyncAction::Wait),
        SyncEvent::TipSeen { best_height } => match state {
            SyncState::Behind => if best_height >= store_next_height {
                (
                    SyncState::Fetching { next_height: store_next_height },
                    SyncAction::FetchBlock { height: store_next_height },
                )
            } else {
                (SyncState::Behind, SyncAction::Wait)
            },
            _ => (state, SyncAction::Wait),
        },
        SyncEvent::BlockFetched { height } => match state {
            SyncState::Fetching { next_height } => if height == next_height {
                (SyncState::Applying { height }, SyncAction::ApplyFetched)
            } else {
                (SyncState::Behind, SyncAction::Wait)
            },
            _ => (state, SyncAction::Wait),
        },
        SyncEvent::BlockApplied { .. } => match state {
            SyncState::Applying { .. } => (SyncState::Behind, SyncAction::Wait),
            _ => (state, SyncAction::Wait),
        },
        SyncEvent::UndoneTo { next_height } => match state {
            SyncState::Reorganizing { ancestor } => if next_height > ancestor {
                (SyncState::Reorganizing { ancestor }, SyncAction::UndoBlock)
            } else {
                (SyncState::Behind, SyncAction::Wait)
            },
            _ => (state, SyncAction::Wait),
        },
    }
}

/// Decides the engine's next state and action.
pub fn sync_step(state: SyncState, event: SyncEvent, store_next_height: i32) -> (r: (
    SyncState,
    SyncAction,
))
    ensures
        r == spec_sync_step(state, event, store_next_height),
{
    match event {
        SyncEvent::ReorgSignal { ancestor } => (
            SyncState::Reorganizing { ancestor },
            SyncAction::UndoBlock,
        ),
        SyncEvent::UpstreamError => (SyncState::Behind, SyncAction::Wait),
        SyncEvent::TipSeen { best_height } => match state {
            SyncState::Behind => if best_height >= store_next_height {
                (
                    SyncState::Fetching { next_height: store_next_height },
                    SyncAction::FetchBlock { height: store_next_height },
                )
            } else {
                (SyncState::Behind, SyncAction::Wait)
            },
            _ => (state, SyncAction::Wait),
        },
        SyncEvent::BlockFetched { height } => match state {
            SyncState::Fetching { next_height } => if height == next_height {
                (SyncState::Applying { height }, SyncAction::ApplyFetched)
            } else {
                (SyncState::Behind, SyncAction::Wait)
            },
            _ => (state, SyncAction::Wait),
        },
        SyncEvent::BlockApplied { .. } => match state {
            SyncState::Applying { .. } => (SyncState::Behind, SyncAction::Wait),
            _ => (state, SyncAction::Wait),
        },
        SyncEvent::UndoneTo { next_height } => match state {
            SyncState::Reorganizing { ancestor } => if next_height > ancestor {
                (SyncState::Reorganizing { ancestor }, SyncAction::UndoBlock)
            } else {
                (SyncState::Behind, SyncAction::Wait)
            },
            _ => (state, SyncAction::Wait),
        },
    }
}

} // verus!

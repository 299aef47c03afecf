//! Provisioning of the structured reference string (SRS): the only state
//! with a lifecycle longer than a single call.
//!
//! The cache is keyed by size. A request first plans: if the cached
//! parameters already cover the required size, there is nothing to do;
//! otherwise parameters of the required size are derived or downloaded (the
//! one step only the cryptographic backend can perform) and the cache is
//! settled to cover them. Planning the same size twice therefore never
//! provisions twice.

use vstd::prelude::*;

verus! {

/// What the SRS cache currently covers: the largest provisioned size, zero
/// while nothing was provisioned yet.
#[derive(Clone, Copy, PartialEq, Eq, Structural, Debug)]
pub struct SrsState {
    pub covered_size: u32,
}

impl SrsState {
    /// The state before any provisioning.
    pub fn empty() -> (s: SrsState)
        ensures
            s.covered_size == 0,
    {
        SrsState { covered_size: 0 }
    }
}

/// What one provisioning request decides.
#[derive(Clone, Copy, PartialEq, Eq, Structural, Debug)]
pub enum SrsAction {
    /// The cache already covers the required size: nothing to fetch.
    AlreadyCovered,
    /// Derive or download parameters of this size and persist them.
    Provision { size: u32 },
}

/// The decision for one request: new parameters are fetched exactly when
/// the cache falls short of the required size.
pub open spec fn plan_spec(state: SrsState, required: u32) -> SrsAction {
    if required <= state.covered_size {
        SrsAction::AlreadyCovered
    } else {
        SrsAction::Provision { size: required }
    }
}

/// The cache after parameters of `size` were provisioned: it never shrinks.
pub open spec fn settle_spec(state: SrsState, size: u32) -> SrsState {
    if size <= state.covered_size {
        state
    } else {
        SrsState { covered_size: size }
    }
}

/// Plans one provisioning request.
pub fn plan_srs(state: &SrsState, required: u32) -> (a: SrsAction)
    ensures
        a == plan_spec(*state, required),
        (a is AlreadyCovered) <==> required <= state.covered_size,
        (a matches SrsAction::Provision { size } ==> size == required),
{
    if required <= state.covered_size {
        SrsAction::AlreadyCovered
    } else {
        SrsAction::Provision { size: required }
    }
}

/// Records that parameters of `size` were provisioned and persisted.
pub fn settle_provision(state: &mut SrsState, size: u32)
    ensures
        *final(state) == settle_spec(*old(state), size),
        final(state).covered_size >= size,
        final(state).covered_size >= old(state).covered_size,
{
    if size > state.covered_size {
        state.covered_size = size;
    }
}

/// Setting up the same size twice is idempotent: once a size was
/// provisioned, planning it again finds the cache already covering and
/// fetches nothing.
pub proof fn lemma_srs_setup_idempotent(state: SrsState, size: u32)
    ensures
        plan_spec(settle_spec(state, size), size) == SrsAction::AlreadyCovered,
{
}

} // verus!

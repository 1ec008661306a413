//! Update policy: which update strategy is in force, and whether an update may
//! be applied under it.

use vstd::prelude::*;

verus! {

/// The three selectable update strategies.
#[derive(Debug, Clone, Copy, PartialEq, Eq, Structural)]
pub enum UpdateStrategy {
    /// Stay on the exact pinned version.
    Pin,
    /// Trust the latest version and update in place.
    AutoBump,
    /// Update only after an external verification pass reports success.
    AutoBumpWithGate,
}

/// Whether an update may be applied under `strategy`, given the result of the
/// verification pass.
pub open spec fn update_allowed(strategy: UpdateStrategy, rsi_verified: bool) -> bool {
    match strategy {
        UpdateStrategy::Pin => false,
        UpdateStrategy::AutoBump => true,
        UpdateStrategy::AutoBumpWithGate => rsi_verified,
    }
}

/// Common interface for an update policy.
pub trait UpdatePolicy {
    /// The strategy this policy stands for.
    spec fn spec_strategy(&self) -> UpdateStrategy;

    fn strategy(&self) -> (s: UpdateStrategy)
        ensures
            s == self.spec_strategy(),
    ;
}

/// Stays on the pinned version.
pub struct PinnedPolicy;

impl UpdatePolicy for PinnedPolicy {
    open spec fn spec_strategy(&self) -> UpdateStrategy {
        UpdateStrategy::Pin
    }

    fn strategy(&self) -> (s: UpdateStrategy) {
        UpdateStrategy::Pin
    }
}

/// Updates to the latest version unconditionally.
pub struct AutoBumpPolicy;

impl UpdatePolicy for AutoBumpPolicy {
    open spec fn spec_strategy(&self) -> UpdateStrategy {
        UpdateStrategy::AutoBump
    }

    fn strategy(&self) -> (s: UpdateStrategy) {
        UpdateStrategy::AutoBump
    }
}

/// Updates only after the verification pass accepts the new version.
pub struct GatedPolicy;

impl UpdatePolicy for GatedPolicy {
    open spec fn spec_strategy(&self) -> UpdateStrategy {
        UpdateStrategy::AutoBumpWithGate
    }

    fn strategy(&self) -> (s: UpdateStrategy) {
        UpdateStrategy::AutoBumpWithGate
    }
}

/// Decide whether an update may be applied under a policy and the result of
/// the verification pass. A verified caller that holds its policy as a
/// generic or `dyn` value relates the answer to that policy's strategy through
/// `may_update_under`, whose contract is the same.
pub fn may_update(policy: &dyn UpdatePolicy, rsi_verified: bool) -> (allowed: bool)
    ensures
        allowed == update_allowed(policy.spec_strategy(), rsi_verified),
{
    may_update_under(policy, rsi_verified)
}

/// `may_update` for a policy of any type, known or not at compile time; a
/// verified caller holding a policy of a generic type relates the answer to
/// that policy's strategy through this contract.
pub fn may_update_under<P: UpdatePolicy + ?Sized>(policy: &P, rsi_verified: bool) -> (allowed:
    bool)
    ensures
        allowed == update_allowed(policy.spec_strategy(), rsi_verified),
{
    match policy.strategy() {
        UpdateStrategy::Pin => false,
        UpdateStrategy::AutoBump => true,
        UpdateStrategy::AutoBumpWithGate => rsi_verified,
    }
}

/// A passed verification pass never takes away an update that a failed one
/// would allow, whatever the strategy, and only a gated strategy answers
/// differently for the two; a pinned policy never updates, an
/// auto-bumping one always does, and a gated one exactly when verified.
pub proof fn lemma_verification_only_unlocks(strategy: UpdateStrategy, rsi_verified: bool)
    ensures
        update_allowed(strategy, false) ==> update_allowed(strategy, true),
        update_allowed(strategy, false) != update_allowed(strategy, true) ==> strategy
            == UpdateStrategy::AutoBumpWithGate,
        strategy == UpdateStrategy::Pin ==> !update_allowed(strategy, rsi_verified),
        strategy == UpdateStrategy::AutoBump ==> update_allowed(strategy, rsi_verified),
        strategy == UpdateStrategy::AutoBumpWithGate ==> (update_allowed(strategy, rsi_verified)
            == rsi_verified),
{
}

/// For any policy, a passed verification pass never takes away an update
/// that a failed one would allow, and the two answers differ only under a
/// gated strategy.
pub proof fn lemma_policy_verification_only_unlocks<P: UpdatePolicy + ?Sized>(policy: &P)
    ensures
        update_allowed(policy.spec_strategy(), false) ==> update_allowed(
            policy.spec_strategy(),
            true,
        ),
        update_allowed(policy.spec_strategy(), false) != update_allowed(policy.spec_strategy(), true)
            ==> policy.spec_strategy() == UpdateStrategy::AutoBumpWithGate,
{
    lemma_verification_only_unlocks(policy.spec_strategy(), false);
}

} // verus!

use vstd::prelude::*;

use crate::model::Challenge;

verus! {

/// How many times the next challenge is fetched before the round fails.
pub const MAX_ROTATION_ATTEMPTS: u32 = 10;

/// The compute-unit limit of the submission transaction.
pub const COMPUTE_UNIT_LIMIT: u32 = 1_500_000;

/// The priority fee of the submission transaction, in micro-lamports per unit.
pub const COMPUTE_UNIT_PRICE: u64 = 500_000;

/// What the driver does once the cutoff has passed.
#[derive(Clone, Copy, Debug, PartialEq, Eq, Structural)]
pub enum CutoffAction {
    /// Contributions were accepted: submit the round.
    Submit,
    /// Nothing was accepted: wait for the first contribution, then submit.
    AwaitFirst,
}

/// What the rotation does after one look at the chain.
#[derive(Clone, Copy, Debug, PartialEq, Eq, Structural)]
pub enum RotationStep {
    /// The pool's `last_hash_at` advanced: take the new challenge.
    Advance,
    /// It did not: wait a second and look again.
    Retry,
    /// It did not, and the attempts are used up: the round fails.
    GiveUp,
}

/// How many seconds before the operator's own margin clients stop submitting.
pub const CLIENT_EXTRA_BUFFER: u64 = 2;

/// The cutoff that clients are shown: the round's cutoff less the client
/// buffer `2 + buffer_operator`, never below 0, so that a client's last
/// submission still lands before the server's cutoff.
pub fn client_cutoff(cutoff_time: u64, buffer_operator: u64) -> (r: u64)
    ensures
        r == if cutoff_time >= CLIENT_EXTRA_BUFFER + buffer_operator {
            cutoff_time - CLIENT_EXTRA_BUFFER - buffer_operator
        } else {
            0
        },
{
    if buffer_operator > u64::MAX - CLIENT_EXTRA_BUFFER {
        return 0;
    }
    let buffer = CLIENT_EXTRA_BUFFER + buffer_operator;
    if cutoff_time >= buffer {
        cutoff_time - buffer
    } else {
        0
    }
}

/// Seconds left before the cutoff, `cutoff_time - elapsed`, never below 0.
pub fn remaining_secs(cutoff_time: u64, elapsed_secs: u64) -> (r: u64)
    ensures
        r == if elapsed_secs >= cutoff_time {
            0
        } else {
            cutoff_time - elapsed_secs
        },
{
    if elapsed_secs >= cutoff_time {
        0
    } else {
        cutoff_time - elapsed_secs
    }
}

/// Submits once the cutoff passed when anything was accepted; otherwise
/// waits for the first contribution.
pub fn after_cutoff(total_score: u64) -> (r: CutoffAction)
    ensures
        total_score > 0 ==> r == CutoffAction::Submit,
        total_score == 0 ==> r == CutoffAction::AwaitFirst,
{
    if total_score > 0 {
        CutoffAction::Submit
    } else {
        CutoffAction::AwaitFirst
    }
}

/// Whether the chain recorded a hash that this round did not see: the
/// pool's `last_hash_at` differs from the challenge's, so the round must
/// rotate without submitting.
pub fn check_for_reset(challenge: &Challenge, pool_last_hash_at: i64) -> (r: bool)
    ensures
        r == (pool_last_hash_at != challenge.last_hash_at),
{
    pool_last_hash_at != challenge.last_hash_at
}

/// The rotation's decision after a look at the chain, given how many
/// earlier looks found the pool unchanged.
pub fn rotation_step(stored_last_hash_at: i64, pool_last_hash_at: i64, failed_attempts: u32) -> (r:
    RotationStep)
    requires
        failed_attempts < MAX_ROTATION_ATTEMPTS,
    ensures
        pool_last_hash_at != stored_last_hash_at ==> r == RotationStep::Advance,
        pool_last_hash_at == stored_last_hash_at && failed_attempts + 1 == MAX_ROTATION_ATTEMPTS
            ==> r == RotationStep::GiveUp,
        pool_last_hash_at == stored_last_hash_at && failed_attempts + 1 < MAX_ROTATION_ATTEMPTS
            ==> r == RotationStep::Retry,
{
    if pool_last_hash_at != stored_last_hash_at {
        RotationStep::Advance
    } else if failed_attempts + 1 == MAX_ROTATION_ATTEMPTS {
        RotationStep::GiveUp
    } else {
        RotationStep::Retry
    }
}

} // verus!

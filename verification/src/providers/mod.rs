//! Chat messages and the providers that answer them.
use vstd::prelude::*;

pub mod local;
pub mod remote;

verus! {

/// Who wrote a chat message.
#[derive(Clone, Copy, Debug, PartialEq, Eq, Structural)]
pub enum Role {
    System,
    User,
    Assistant,
}

/// One chat message.
#[derive(Debug)]
pub struct Message {
    pub role: Role,
    pub content: String,
}

/// A failed provider call (rate limit, timeout) is retried at most this
/// many times.
pub const MAX_PROVIDER_RETRIES: u32 = 3;

/// The backoff before the first retry, in milliseconds; it doubles with each
/// further retry.
pub const BACKOFF_BASE_MS: u64 = 500;

/// `2` to the power `n`.
pub open spec fn doubling(n: nat) -> nat
    decreases n,
{
    if n == 0 {
        1
    } else {
        2 * doubling((n - 1) as nat)
    }
}

/// The wait before retry number `retries_done + 1`: exponential backoff,
/// plus a jitter below the base delay.
pub open spec fn backoff_ms(retries_done: nat, jitter_ms: nat) -> nat {
    (BACKOFF_BASE_MS as nat) * doubling(retries_done) + jitter_ms % (BACKOFF_BASE_MS as nat)
}

/// After a provider call failed with `retries_done` retries already made:
/// how long to wait before retrying, or `None` once the retries are used up.
/// `jitter_ms` is a random number that spreads the retries of concurrent
/// callers.
pub fn provider_retry_delay(retries_done: u32, jitter_ms: u64) -> (d: Option<u64>)
    ensures
        retries_done >= MAX_PROVIDER_RETRIES ==> d is None,
        retries_done < MAX_PROVIDER_RETRIES ==> d == Some(
            backoff_ms(retries_done as nat, jitter_ms as nat) as u64,
        ),
{
    if retries_done >= MAX_PROVIDER_RETRIES {
        return None;
    }
    let mut delay: u64 = BACKOFF_BASE_MS;
    let mut k: u32 = 0;
    while k < retries_done
        invariant
            k <= retries_done,
            retries_done < MAX_PROVIDER_RETRIES,
            delay == BACKOFF_BASE_MS * doubling(k as nat),
            delay <= BACKOFF_BASE_MS * 4,
        decreases retries_done - k,
    {
        proof {
            assert(doubling((k + 1) as nat) == 2 * doubling(k as nat));
            if k == 0 {
                assert(doubling(0) == 1);
            } else {
                assert(doubling(1) == 2) by {
                    assert(doubling(0) == 1);
                }
            }
        }
        delay = delay * 2;
        k += 1;
    }
    Some(delay + jitter_ms % BACKOFF_BASE_MS)
}

/// Provider calls are retried three times, after 500, 1000 and 2000
/// milliseconds plus a jitter below 500 milliseconds.
pub proof fn law_backoff_schedule(jitter_ms: nat)
    ensures
        MAX_PROVIDER_RETRIES == 3,
        backoff_ms(0, jitter_ms) == 500 + jitter_ms % 500,
        backoff_ms(1, jitter_ms) == 1000 + jitter_ms % 500,
        backoff_ms(2, jitter_ms) == 2000 + jitter_ms % 500,
        forall|r: nat| #[trigger] backoff_ms(r, jitter_ms) < 500 * doubling(r) + 500,
{
    assert(doubling(0) == 1);
    assert(doubling(1) == 2);
    assert(doubling(2) == 4);
}

} // verus!

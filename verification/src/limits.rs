//! The open-file budget checked before any work is accepted.

use crate::text::{decimal, u128_to_decimal};
use vstd::prelude::*;

verus! {

/// Files that are open before the worker does anything: the three standard streams.
pub const EXISTING_OPEN_FILES: u64 = 3;

/// Files a running job holds besides its pending file-system requests: a
/// socket, the file-system connection, and two ends for each captured stream.
pub const PER_SLOT_FIXED_FILES: u32 = 6;

/// File-system requests that one job may have pending, each with a file open.
pub const MAX_PENDING_REQUESTS: u32 = 1024;

/// Layer readers kept open; each holds a socket and a file.
pub const READER_CACHE_SIZE: u32 = 256;

/// Files one layer build holds open.
pub const LAYER_BUILDING_FILE_MAX: u32 = 3;

/// Layer builds that may run at once.
pub const MAX_PENDING_LAYERS_BUILDS: u16 = 10;

/// Artifact fetches that may run at once over a socket transport.
pub const MAX_ARTIFACT_FETCHES: u32 = 10;

/// Artifact fetches that may run at once over the queue transport.
pub const MAX_ARTIFACT_FETCHES_QUEUE: u32 = 1;

/// The granularity to which a suggested limit is rounded up.
pub const LIMIT_GRANULARITY: u64 = 1024;

/// What the worker needs to know to estimate how many files it will open.
#[derive(Clone, Copy, Debug, PartialEq, Eq, Structural)]
pub struct FileBudget {
    pub reader_cache: u32,
    pub max_fetches: u32,
    pub per_slot: u32,
    pub max_layer_builds: u16,
    pub per_build: u32,
}

impl FileBudget {
    /// The estimate for `slots` slots, as a mathematical integer.
    pub open spec fn estimate(self, slots: u16) -> int {
        EXISTING_OPEN_FILES + 2 * self.reader_cache + self.max_fetches + self.per_slot * slots
            + self.max_layer_builds * self.per_build
    }

    /// The budget of a worker that fetches over a socket.
    pub fn standard() -> (b: FileBudget)
        ensures
            b == (FileBudget {
                reader_cache: READER_CACHE_SIZE,
                max_fetches: MAX_ARTIFACT_FETCHES,
                per_slot: (PER_SLOT_FIXED_FILES + MAX_PENDING_REQUESTS) as u32,
                max_layer_builds: MAX_PENDING_LAYERS_BUILDS,
                per_build: LAYER_BUILDING_FILE_MAX,
            }),
    {
        FileBudget {
            reader_cache: READER_CACHE_SIZE,
            max_fetches: MAX_ARTIFACT_FETCHES,
            per_slot: PER_SLOT_FIXED_FILES + MAX_PENDING_REQUESTS,
            max_layer_builds: MAX_PENDING_LAYERS_BUILDS,
            per_build: LAYER_BUILDING_FILE_MAX,
        }
    }

    /// The budget of a worker that fetches through the queue transport.
    pub fn for_queue() -> (b: FileBudget)
        ensures
            b == (FileBudget {
                reader_cache: READER_CACHE_SIZE,
                max_fetches: MAX_ARTIFACT_FETCHES_QUEUE,
                per_slot: (PER_SLOT_FIXED_FILES + MAX_PENDING_REQUESTS) as u32,
                max_layer_builds: MAX_PENDING_LAYERS_BUILDS,
                per_build: LAYER_BUILDING_FILE_MAX,
            }),
    {
        let mut b = FileBudget::standard();
        b.max_fetches = MAX_ARTIFACT_FETCHES_QUEUE;
        b
    }

    /// The number of files the worker may have open at once with `slots` slots.
    pub fn open_file_max(&self, slots: u16) -> (n: u64)
        ensures
            n == self.estimate(slots),
    {
        let reader_cache: u64 = self.reader_cache.into();
        let max_fetches: u64 = self.max_fetches.into();
        let per_slot: u64 = self.per_slot.into();
        let max_layer_builds: u64 = self.max_layer_builds.into();
        let per_build: u64 = self.per_build.into();
        let slots: u64 = slots.into();
        assert(per_slot * slots <= 0xffff_ffff * 0xffff) by (nonlinear_arith)
            requires
                per_slot <= 0xffff_ffff,
                slots <= 0xffff,
        ;
        assert(max_layer_builds * per_build <= 0xffff * 0xffff_ffff) by (nonlinear_arith)
            requires
                max_layer_builds <= 0xffff,
                per_build <= 0xffff_ffff,
        ;
        EXISTING_OPEN_FILES + 2 * reader_cache + max_fetches + per_slot * slots + max_layer_builds
            * per_build
    }
}

/// The least multiple of `k` that is not below `n`.
pub open spec fn spec_round_to_multiple(n: int, k: int) -> int
    recommends
        k > 0,
{
    if n % k == 0 {
        n
    } else {
        n + (k - n % k)
    }
}

/// Rounds `n` up to a multiple of `k`.
pub fn round_to_multiple(n: u64, k: u64) -> (r: u64)
    requires
        k > 0,
        spec_round_to_multiple(n as int, k as int) <= u64::MAX,
    ensures
        r == spec_round_to_multiple(n as int, k as int),
        r % k == 0,
        n <= r < n + k,
{
    proof {
        lemma_round_to_multiple(n as int, k as int);
    }
    if n % k == 0 {
        n
    } else {
        n + (k - (n % k))
    }
}

/// Rounding up lands on a multiple, at a distance below the step.
pub proof fn lemma_round_to_multiple(n: int, k: int)
    requires
        n >= 0,
        k > 0,
    ensures
        spec_round_to_multiple(n, k) % k == 0,
        n <= spec_round_to_multiple(n, k) < n + k,
        forall|m: int| #[trigger] (m % k) == 0 && m >= n ==> m >= spec_round_to_multiple(n, k),
{
    let r = spec_round_to_multiple(n, k);
    assert(r % k == 0) by (nonlinear_arith)
        requires
            n >= 0,
            k > 0,
            r == if n % k == 0 {
                n
            } else {
                n + (k - n % k)
            },
    ;
    assert forall|m: int| #[trigger] (m % k) == 0 && m >= n implies m >= r by {
        if m < r {
            assert(false) by (nonlinear_arith)
                requires
                    m % k == 0,
                    r % k == 0,
                    n <= m < r,
                    r < n + k,
                    k > 0,
            ;
        }
    }
}

/// What the worker says when the limit on open files is too low: the limit
/// to ask for is the need, rounded up to the next multiple of 1024.
pub open spec fn spec_limit_too_low(need: int) -> Seq<char> {
    "Open file limit is too low. Increase limit by running `ulimit -n "@ + decimal(
        spec_round_to_multiple(need, LIMIT_GRANULARITY as int) as nat,
    ) + "`"@
}

/// Checks that the limit on open files, `limit`, covers what a worker with
/// `slots` slots may open and `extra` files more. If it does not, the error
/// says which limit to ask for.
pub fn check_open_file_limit(limit: u64, budget: &FileBudget, slots: u16, extra: u64) -> (r: Result<
    (),
    String,
>)
    ensures
        r is Ok <==> limit >= budget.estimate(slots) + extra,
        r matches Err(message) ==> message@ == spec_limit_too_low(budget.estimate(slots) + extra),
{
    let need: u128 = budget.open_file_max(slots) as u128 + extra as u128;
    if (limit as u128) < need {
        proof {
            lemma_round_to_multiple(need as int, 1024);
        }
        let rounded: u128 = if need % 1024 == 0 {
            need
        } else {
            need + (1024 - need % 1024)
        };
        let mut message = String::from_str(
            "Open file limit is too low. Increase limit by running `ulimit -n ",
        );
        let number = u128_to_decimal(rounded);
        message.append(number.as_str());
        message.append("`");
        Err(message)
    } else {
        Ok(())
    }
}

} // verus!

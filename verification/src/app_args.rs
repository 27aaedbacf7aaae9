//! The settings of a command-line tool that works on a repository.

use vstd::prelude::*;

verus! {

/// What kind of tool is being built. The settings decide the defaults of
/// its arguments.
#[derive(Debug, Clone, Copy, PartialEq, Eq, Structural)]
pub struct MononokeApp {
    /// Whether writes go to a place for tests by default.
    pub safe_writes: bool,
    /// Whether the advanced storage arguments are left out of the help.
    pub hide_advanced_args: bool,
    /// Whether the tool can work on local instances.
    pub local_instances: bool,
    /// Whether the tool logs in the glog style by default.
    pub default_glog: bool,
}

impl MononokeApp {
    /// The storage prefix that the tool uses where none is given: the test
    /// prefix for a tool with safe writes, none otherwise.
    pub fn default_manifold_prefix(&self) -> (prefix: &'static str)
        ensures
            self.safe_writes ==> prefix@ == "mononoke_test"@,
            !self.safe_writes ==> prefix@ == ""@,
    {
        if self.safe_writes {
            "mononoke_test"
        } else {
            ""
        }
    }

    /// The log style that the tool uses where none is given.
    pub fn default_log_style(&self) -> (style: &'static str)
        ensures
            self.default_glog ==> style@ == "glog"@,
            !self.default_glog ==> style@ == "compact"@,
    {
        if self.default_glog {
            "glog"
        } else {
            "compact"
        }
    }
}

/// What becomes of the process when a panic happens.
#[derive(Debug, Clone, Copy, PartialEq, Eq, Structural)]
pub enum Fate {
    /// The process goes on.
    Continue,
    /// The process exits with this code.
    Exit(i32),
    /// The process aborts.
    Abort,
}

/// The exit code of a process that exits on a panic.
pub const PANIC_EXIT_CODE: i32 = 101;

/// What the words for the fate of a panic mean: `none` sets no handler,
/// `continue`, `exit` and `abort` set one, and any other word means
/// nothing.
pub open spec fn fate_for(word: Seq<char>) -> Option<Option<Fate>> {
    if word == "none"@ {
        Some(None)
    } else if word == "continue"@ {
        Some(Some(Fate::Continue))
    } else if word == "exit"@ {
        Some(Some(Fate::Exit(PANIC_EXIT_CODE)))
    } else if word == "abort"@ {
        Some(Some(Fate::Abort))
    } else {
        None
    }
}

/// Reads the word for the fate of a panic. The outer `None` is a word that
/// means nothing.
pub fn panic_fate(word: &str) -> (fate: Option<Option<Fate>>)
    ensures
        fate == fate_for(word@),
{
    let word = word.to_owned();
    if word == "none".to_owned() {
        Some(None)
    } else if word == "continue".to_owned() {
        Some(Some(Fate::Continue))
    } else if word == "exit".to_owned() {
        Some(Some(Fate::Exit(PANIC_EXIT_CODE)))
    } else if word == "abort".to_owned() {
        Some(Some(Fate::Abort))
    } else {
        None
    }
}

/// How much a tool logs.
#[derive(Debug, Clone, Copy, PartialEq, Eq, Structural)]
pub enum Severity {
    Debug,
    Info,
}

/// How much a tool logs: everything with the debug flag, else what informs.
pub fn severity(debug: bool) -> (s: Severity)
    ensures
        debug ==> s is Debug,
        !debug ==> s is Info,
{
    if debug {
        Severity::Debug
    } else {
        Severity::Info
    }
}

/// Two to the power of `p`.
pub open spec fn two_to(p: nat) -> nat
    decreases p,
{
    if p == 0 {
        1
    } else {
        2 * two_to((p - 1) as nat)
    }
}

/// Whether `p` is the exponent of the least power of two that is not below
/// `n`.
pub open spec fn is_ceil_log2(n: nat, p: nat) -> bool {
    two_to(p) >= n && (p == 0 || two_to((p - 1) as nat) < n)
}

/// How many bytes a cache item is expected to have.
pub const EXPECTED_ITEM_SIZE_BYTES: usize = 200;

/// The largest power that is handed to the cache for its buckets.
pub const MAX_BUCKETS_POWER: u32 = 32;

/// The bytes of a gibibyte.
pub const GIB: usize = 1073741824;

/// How many items a cache of the given size is expected to hold.
pub open spec fn expected_items(cache_size_gb: nat) -> nat {
    (cache_size_gb * GIB as nat) / (EXPECTED_ITEM_SIZE_BYTES as nat)
}

/// The power of two that says how many buckets the cache gets for a cache
/// of the given size in gibibytes: one more than the exponent of the least
/// power of two that holds the expected number of items, and 32 at most.
/// There is none where the size in bytes, or that power of two, does not
/// fit the machine's word.
pub fn buckets_power(cache_size_gb: usize) -> (power: Option<u32>)
    ensures
        match power {
            Some(power) => exists|p: nat|
                #![trigger is_ceil_log2(expected_items(cache_size_gb as nat), p)]
                is_ceil_log2(expected_items(cache_size_gb as nat), p) && two_to(p) <= usize::MAX
                    && cache_size_gb * GIB <= usize::MAX && power as nat == (if p + 1 < 32 {
                    p + 1
                } else {
                    32
                }),
            None => cache_size_gb * GIB > usize::MAX || exists|p: nat|
                #![trigger is_ceil_log2(expected_items(cache_size_gb as nat), p)]
                is_ceil_log2(expected_items(cache_size_gb as nat), p) && two_to(p) > usize::MAX,
        },
{
    let cache_size_bytes: usize = match cache_size_gb.checked_mul(GIB) {
        Some(bytes) => bytes,
        None => {
            return None;
        },
    };
    let item_count: usize = cache_size_bytes / EXPECTED_ITEM_SIZE_BYTES;
    let mut exponent: u128 = 0;
    let mut bucket_count: u128 = 1;
    while bucket_count < item_count as u128
        invariant
            bucket_count == two_to(exponent as nat),
            exponent < bucket_count,
            exponent == 0 || two_to((exponent - 1) as nat) < item_count,
        decreases
                (if bucket_count < item_count {
                    item_count - bucket_count
                } else {
                    0
                }),
    {
        bucket_count = bucket_count * 2;
        exponent = exponent + 1;
    }
    assert(is_ceil_log2(item_count as nat, exponent as nat));
    assert(item_count as nat == expected_items(cache_size_gb as nat));
    if bucket_count > usize::MAX as u128 {
        return None;
    }
    if exponent + 1 < 32 {
        Some((exponent + 1) as u32)
    } else {
        Some(MAX_BUCKETS_POWER)
    }
}

/// The share of the cache that a pool gets where no size is given for it:
/// a twentieth of the space that is left.
pub fn default_pool_size(available_space: usize) -> (size: usize)
    ensures
        size == available_space / 20,
{
    available_space / 20
}

/// How the cache shrinks when the process grows.
#[derive(Debug, Clone, Copy, PartialEq, Eq, Structural)]
pub enum Shrinker {
    /// It does not shrink.
    Off,
    /// The shrinker of the container platform decides.
    Platform,
    /// It shrinks above the first size and grows back below the second,
    /// both in gibibytes.
    ProcessSize(u32, u32),
}

/// Why the arguments for the shrinker make no sense.
#[derive(Debug, Clone, Copy, PartialEq, Eq, Structural)]
pub enum ShrinkerError {
    /// The platform's shrinker and process sizes were both asked for.
    BothKinds,
    /// Only one of the two process sizes was given.
    OneLimitOnly,
}

/// The shrinker that the arguments ask for. The platform's shrinker goes
/// with no process size; process sizes are given both or not at all.
pub fn choose_shrinker(
    use_platform_shrinker: bool,
    max_process_size_gib: Option<u32>,
    min_process_size_gib: Option<u32>,
) -> (r: Result<Shrinker, ShrinkerError>)
    ensures
        r == (if use_platform_shrinker {
            if max_process_size_gib.is_some() || min_process_size_gib.is_some() {
                Err::<Shrinker, ShrinkerError>(ShrinkerError::BothKinds)
            } else {
                Ok::<Shrinker, ShrinkerError>(Shrinker::Platform)
            }
        } else {
            match (max_process_size_gib, min_process_size_gib) {
                (None, None) => Ok::<Shrinker, ShrinkerError>(Shrinker::Off),
                (Some(max), Some(min)) => Ok::<Shrinker, ShrinkerError>(
                    Shrinker::ProcessSize(max, min),
                ),
                _ => Err::<Shrinker, ShrinkerError>(ShrinkerError::OneLimitOnly),
            }
        }),
{
    if use_platform_shrinker {
        if max_process_size_gib.is_some() || min_process_size_gib.is_some() {
            Err(ShrinkerError::BothKinds)
        } else {
            Ok(Shrinker::Platform)
        }
    } else {
        match (max_process_size_gib, min_process_size_gib) {
            (None, None) => Ok(Shrinker::Off),
            (Some(max), Some(min)) => Ok(Shrinker::ProcessSize(max, min)),
            _ => Err(ShrinkerError::OneLimitOnly),
        }
    }
}

} // verus!

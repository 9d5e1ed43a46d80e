//! Error taxonomy of the library.

use vstd::prelude::*;
use vstd::string::StringExecFns;

verus! {

/// Invalid construction parameters for the chunked processor.
#[derive(Clone, Copy, Debug, PartialEq, Eq, Structural)]
pub enum ConfigError {
    /// The requested worker-pool size was zero.
    ZeroMaxTasks,
    /// The requested chunk size was zero.
    ZeroChunkSize,
}

/// Failures of a rewrite step.
#[derive(Clone, Debug, PartialEq, Eq)]
pub enum RewriteError {
    /// A size computation (allocation estimate or length accumulation)
    /// exceeds the range of `usize`.
    Overflow,
    /// A chunked rewrite was asked for a zero-length state.
    EmptyState,
    /// One or more parallel chunk tasks failed; carries the indices of the
    /// failing chunks, in increasing order.
    AggregatedChunks(Vec<usize>),
}

/// The description carried by an `Overflow` error.
pub open spec fn overflow_message() -> Seq<char> {
    "usize overflow when computing the new state size"@
}

/// The description carried by an `EmptyState` error.
pub open spec fn empty_state_message() -> Seq<char> {
    "cannot iterate an empty state"@
}

/// The description carried by an `AggregatedChunks` error with `n` failing
/// chunks: a header line followed by each failed chunk's own failure
/// description (a per-chunk rewrite can only fail with an overflow), one
/// line per chunk, concatenated in chunk order.
pub open spec fn aggregated_message(n: nat) -> Seq<char>
    decreases n,
{
    if n == 0 {
        "iteration error(s) in one or more chunks:"@
    } else {
        aggregated_message((n - 1) as nat) + "\n"@ + overflow_message()
    }
}

impl RewriteError {
    /// The failure description of this error.
    pub open spec fn message_spec(&self) -> Seq<char> {
        match self {
            RewriteError::Overflow => overflow_message(),
            RewriteError::EmptyState => empty_state_message(),
            RewriteError::AggregatedChunks(idxs) => aggregated_message(idxs@.len()),
        }
    }

    /// A human-readable description of the failure. For an aggregated
    /// chunk error this concatenates the underlying failure descriptions,
    /// one for each failed chunk.
    pub fn describe(&self) -> (r: String)
        ensures
            r@ == self.message_spec(),
    {
        broadcast use vstd::string::to_string_from_display_ensures_for_str;

        match self {
            RewriteError::Overflow => "usize overflow when computing the new state size".to_string(),
            RewriteError::EmptyState => "cannot iterate an empty state".to_string(),
            RewriteError::AggregatedChunks(idxs) => {
                let mut r: String = "iteration error(s) in one or more chunks:".to_string();
                let n: usize = idxs.len();
                let mut i: usize = 0;
                while i < n
                    invariant
                        i <= n,
                        r@ == aggregated_message(i as nat),
                    decreases n - i,
                {
                    r.append("\n");
                    r.append("usize overflow when computing the new state size");
                    proof {
                        assert(aggregated_message((i + 1) as nat) == aggregated_message(i as nat)
                            + "\n"@ + overflow_message());
                    }
                    i = i + 1;
                }
                r
            },
        }
    }
}

impl ConfigError {
    /// The failure description of this error.
    pub closed spec fn message_spec(&self) -> Seq<char> {
        match self {
            ConfigError::ZeroMaxTasks => "invalid maximum tasks number (0)"@,
            ConfigError::ZeroChunkSize => "invalid chunks size (0)"@,
        }
    }

    /// A human-readable description of the failure.
    pub fn describe(&self) -> (r: String)
        ensures
            r@ == self.message_spec(),
    {
        broadcast use vstd::string::to_string_from_display_ensures_for_str;

        match self {
            ConfigError::ZeroMaxTasks => "invalid maximum tasks number (0)".to_string(),
            ConfigError::ZeroChunkSize => "invalid chunks size (0)".to_string(),
        }
    }
}

} // verus!

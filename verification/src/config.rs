//! Service configuration: operating-mode presets and the CPU budget that
//! keeps evaluators from oversubscribing the cores.

use vstd::prelude::*;

verus! {

/// Operating mode of the server, controlling the pool, permit and thread
/// presets.
#[derive(Debug, Clone, Copy, PartialEq, Eq, Structural)]
pub enum OperatingMode {
    /// Optimized for single requests with low latency: one evaluator with
    /// all compute threads.
    Single,
    /// Optimized for concurrent requests with high throughput: many
    /// evaluators with few threads each.
    Concurrent,
    /// Every setting taken from its own configuration value.
    Custom,
}

impl OperatingMode {
    /// The mode a configuration label names.  Labels are matched after the
    /// caller lowercases them; anything unrecognized means `Custom`.
    pub fn from_label(label: &String) -> (m: OperatingMode)
        ensures
            (label@ == "single"@ || label@ == "low-latency"@ || label@ == "single-request"@) ==> m
                == OperatingMode::Single,
            (label@ == "concurrent"@ || label@ == "high-throughput"@ || label@ == "multi"@) ==> m
                == OperatingMode::Concurrent,
            !(label@ == "single"@ || label@ == "low-latency"@ || label@ == "single-request"@
                || label@ == "concurrent"@ || label@ == "high-throughput"@ || label@ == "multi"@)
                ==> m == OperatingMode::Custom,
    {
        proof {
            broadcast use vstd::string::group_string_axioms;

            reveal_strlit("single");
            reveal_strlit("low-latency");
            reveal_strlit("single-request");
            reveal_strlit("concurrent");
            reveal_strlit("high-throughput");
            reveal_strlit("multi");
            assert(("single")@.len() == 6 && ("low-latency")@.len() == 11 && (
            "single-request")@.len() == 14 && ("concurrent")@.len() == 10 && (
            "high-throughput")@.len() == 15 && ("multi")@.len() == 5);
        }
        let single = String::from_str("single");
        let low_latency = String::from_str("low-latency");
        let single_request = String::from_str("single-request");
        let concurrent = String::from_str("concurrent");
        let high_throughput = String::from_str("high-throughput");
        let multi = String::from_str("multi");
        if *label == single || *label == low_latency || *label == single_request {
            OperatingMode::Single
        } else if *label == concurrent || *label == high_throughput || *label == multi {
            OperatingMode::Concurrent
        } else {
            OperatingMode::Custom
        }
    }

    /// The pool, permit and thread overrides each preset carries; `Custom`
    /// overrides nothing.
    pub fn preset_overrides(&self) -> (r: (Option<usize>, Option<usize>, Option<usize>))
        ensures
            *self == OperatingMode::Single ==> r == (
                Some(1usize),
                Some(1usize),
                Some(8usize),
            ),
            *self == OperatingMode::Concurrent ==> r == (
                Some(10usize),
                Some(6usize),
                Some(2usize),
            ),
            *self == OperatingMode::Custom ==> r == (
                None::<usize>,
                None::<usize>,
                None::<usize>,
            ),
    {
        match self {
            OperatingMode::Single => (Some(1), Some(1), Some(8)),
            OperatingMode::Concurrent => (Some(10), Some(6), Some(2)),
            OperatingMode::Custom => (None, None, None),
        }
    }
}

/// The settings of the service.  Paths are kept as plain strings; reading
/// them is the caller's business.
pub struct Config {
    pub host: String,
    pub port: u16,
    pub model_path: String,
    pub tokenizer_path: String,
    pub max_sequence_length: usize,
    pub shutdown_timeout_secs: u64,
    /// Override for the evaluator pool size; the physical core count when
    /// absent.
    pub pool_size: Option<usize>,
    /// Most documents one rerank request may carry.
    pub max_documents: usize,
    /// Chunk size for tokenization and inference.
    pub batch_size: usize,
    /// Path of the catalog document, when tool discovery is wanted.
    pub tools_path: Option<String>,
    pub bi_encoder_model_path: String,
    pub bi_encoder_tokenizer_path: String,
    /// How many candidates the first retrieval stage hands to the second.
    pub retrieval_candidates: usize,
    /// Compute threads per evaluator instance.
    pub intra_threads: usize,
    /// Override for the admission permits; derived from the cores when
    /// absent.
    pub permits: Option<usize>,
    pub embeddings_cache_path: String,
    /// The operating mode the settings were built under.
    pub operating_mode: OperatingMode,
}

impl Config {
    /// The operating mode of this configuration.
    pub fn mode(&self) -> (m: OperatingMode)
        ensures
            m == self.operating_mode,
    {
        self.operating_mode
    }
}

/// The physical core estimate and permit budget of the startup sequence:
/// half the logical cores (at least one) unless the pool size is set, and
/// one permit per `intra_threads` cores (at least one) unless the permits
/// are set.
pub fn compute_budget(
    logical_cores: usize,
    pool_size: Option<usize>,
    permits: Option<usize>,
    intra_threads: usize,
) -> (r: (usize, usize))
    requires
        intra_threads >= 1,
    ensures
        r.0 == (match pool_size {
            Some(p) => p as int,
            None => if logical_cores / 2 >= 1 {
                (logical_cores / 2) as int
            } else {
                1int
            },
        }),
        r.1 == (match permits {
            Some(p) => p as int,
            None => if r.0 as int / (intra_threads as int) >= 1 {
                r.0 as int / (intra_threads as int)
            } else {
                1int
            },
        }),
{
    let physical = match pool_size {
        Some(p) => p,
        None => {
            let half = logical_cores / 2;
            if half >= 1 {
                half
            } else {
                1
            }
        },
    };
    let budget = match permits {
        Some(p) => p,
        None => {
            let auto = physical / intra_threads;
            if auto >= 1 {
                auto
            } else {
                1
            }
        },
    };
    (physical, budget)
}

/// Whether a permit and thread budget oversubscribes the physical cores.
pub fn is_oversubscribed(permits: usize, intra_threads: usize, physical_cores: usize) -> (r: bool)
    ensures
        r == (permits * intra_threads > physical_cores),
{
    match permits.checked_mul(intra_threads) {
        Some(total) => total > physical_cores,
        None => true,
    }
}

} // verus!

use vstd::prelude::*;

verus! {

/// What is evaluated in one step: a model, a prompt, and the key under
/// which the response is cached.
#[derive(Clone, Debug, PartialEq, Eq)]
pub struct EvaluationTask {
    pub model: String,
    pub prompt: String,
    pub cache_key: String,
}

/// The settings of an evaluation run.
#[derive(Clone, Copy, Debug, PartialEq, Eq, Structural)]
pub struct PerformanceConfig {
    pub max_concurrent_evaluations: usize,
    pub max_concurrent_warmups: usize,
    pub enable_cache: bool,
    pub cache_expiration_hours: u64,
    pub max_cache_size_mb: u64,
    pub enable_warmup: bool,
    pub warmup_timeout_seconds: u64,
    pub enable_memory_optimization: bool,
    pub memory_cleanup_interval_seconds: u64,
    pub enable_progress_tracking: bool,
    pub progress_update_interval_ms: u64,
}

/// `num_cpus::get`: the number of processors that this process may use.
/// It depends on the machine, so nothing is said of it.
#[verifier::external_body]
fn cpu_count() -> (n: usize) {
    num_cpus::get()
}

impl PerformanceConfig {
    /// The settings that are used by default with at most `limit`
    /// evaluations at a time.
    pub open spec fn with_limit(limit: usize) -> PerformanceConfig {
        PerformanceConfig {
            max_concurrent_evaluations: limit,
            max_concurrent_warmups: 2,
            enable_cache: true,
            cache_expiration_hours: 24,
            max_cache_size_mb: 512,
            enable_warmup: true,
            warmup_timeout_seconds: 30,
            enable_memory_optimization: true,
            memory_cleanup_interval_seconds: 300,
            enable_progress_tracking: true,
            progress_update_interval_ms: 500,
        }
    }

    /// The settings that are used by default on a machine with `cpus`
    /// processors: as many evaluations at a time as there are processors,
    /// and at most four.
    pub fn for_cpus(cpus: usize) -> (config: Self)
        ensures
            config == Self::with_limit(
                if cpus < 4 {
                    cpus
                } else {
                    4
                },
            ),
    {
        PerformanceConfig {
            max_concurrent_evaluations: if cpus < 4 {
                cpus
            } else {
                4
            },
            max_concurrent_warmups: 2,
            enable_cache: true,
            cache_expiration_hours: 24,
            max_cache_size_mb: 512,
            enable_warmup: true,
            warmup_timeout_seconds: 30,
            enable_memory_optimization: true,
            memory_cleanup_interval_seconds: 300,
            enable_progress_tracking: true,
            progress_update_interval_ms: 500,
        }
    }
}

impl Default for PerformanceConfig {
    /// The settings for this machine: at most four evaluations at a time,
    /// whatever the number of its processors.
    fn default() -> (config: Self)
        ensures
            config == Self::with_limit(config.max_concurrent_evaluations),
            config.max_concurrent_evaluations <= 4,
    {
        Self::for_cpus(cpu_count())
    }
}

} // verus!

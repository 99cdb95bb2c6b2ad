//! Settings of the service.

use vstd::prelude::*;
use vstd::string::StringExecFns;

verus! {

/// All settings.
#[derive(Debug, Clone)]
pub struct Config {
    pub server: ServerConfig,
    pub garble: GarbleConfig,
    pub performance: PerformanceConfig,
}

/// Where the service listens.
#[derive(Debug, Clone)]
pub struct ServerConfig {
    pub host: String,
    pub port: u16,
}

/// The ranges from which a request's size and delay are drawn unless the
/// request names its own.
#[derive(Debug, Clone, Copy)]
pub struct GarbleConfig {
    pub min_body_size: usize,
    pub max_body_size: usize,
    pub min_wait_duration_ms: u64,
    pub max_wait_duration_ms: u64,
}

/// Settings of the pool and of the choice of strategy.
#[derive(Debug, Clone, Copy)]
pub struct PerformanceConfig {
    pub chunk_pool_max_memory_mb: usize,
    pub chunk_pool_min_chunks_per_size: usize,
    pub chunk_pool_max_chunks_per_size: usize,
    pub streaming_threshold_bytes: usize,
    pub fast_response_threshold_bytes: usize,
    pub background_generation_interval_ms: u64,
    pub memory_check_interval_ms: u64,
    pub enable_parallel_generation: bool,
}

impl GarbleConfig {
    /// The ranges used where no file says otherwise.
    pub open spec fn standard() -> GarbleConfig {
        GarbleConfig {
            min_body_size: 100,
            max_body_size: 10000,
            min_wait_duration_ms: 0,
            max_wait_duration_ms: 1000,
        }
    }
}

impl PerformanceConfig {
    /// The settings used where no file says otherwise.
    pub open spec fn standard() -> PerformanceConfig {
        PerformanceConfig {
            chunk_pool_max_memory_mb: 8,
            chunk_pool_min_chunks_per_size: 5,
            chunk_pool_max_chunks_per_size: 50,
            streaming_threshold_bytes: 1_000_000,
            fast_response_threshold_bytes: 10_000,
            background_generation_interval_ms: 1000,
            memory_check_interval_ms: 5000,
            enable_parallel_generation: true,
        }
    }
}

impl Default for Config {
    /// The settings used where no file says otherwise.
    fn default() -> (config: Self)
        ensures
            config.server.host@ == "0.0.0.0"@,
            config.server.port == 3000,
            config.garble == GarbleConfig::standard(),
            config.performance == PerformanceConfig::standard(),
    {
        Self {
            server: ServerConfig { host: String::from_str("0.0.0.0"), port: 3000 },
            garble: GarbleConfig {
                min_body_size: 100,
                max_body_size: 10000,
                min_wait_duration_ms: 0,
                max_wait_duration_ms: 1000,
            },
            performance: PerformanceConfig {
                chunk_pool_max_memory_mb: 8,
                chunk_pool_min_chunks_per_size: 5,
                chunk_pool_max_chunks_per_size: 50,
                streaming_threshold_bytes: 1_000_000,
                fast_response_threshold_bytes: 10_000,
                background_generation_interval_ms: 1000,
                memory_check_interval_ms: 5000,
                enable_parallel_generation: true,
            },
        }
    }
}

} // verus!

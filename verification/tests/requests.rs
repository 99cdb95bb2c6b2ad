use daddle::chunk_pool::ChunkPoolStats;
use daddle::config::Config;
use daddle::handlers::{GarbleParams, StrategyLabel};

fn no_params() -> GarbleParams {
    GarbleParams {
        max_body_size: None,
        min_body_size: None,
        max_wait_duration: None,
        min_wait_duration: None,
    }
}

#[test]
fn default_settings() {
    let config = Config::default();
    assert_eq!(config.server.host, "0.0.0.0");
    assert_eq!(config.server.port, 3000);
    assert_eq!(config.garble.min_body_size, 100);
    assert_eq!(config.garble.max_body_size, 10000);
    assert_eq!(config.garble.min_wait_duration_ms, 0);
    assert_eq!(config.garble.max_wait_duration_ms, 1000);
    assert_eq!(config.performance.chunk_pool_max_memory_mb, 8);
    assert_eq!(config.performance.chunk_pool_min_chunks_per_size, 5);
    assert_eq!(config.performance.chunk_pool_max_chunks_per_size, 50);
    assert_eq!(config.performance.streaming_threshold_bytes, 1_000_000);
    assert_eq!(config.performance.fast_response_threshold_bytes, 10_000);
    assert_eq!(config.performance.background_generation_interval_ms, 1000);
    assert_eq!(config.performance.memory_check_interval_ms, 5000);
    assert!(config.performance.enable_parallel_generation);
}

#[test]
fn ranges_come_from_the_settings_where_the_request_is_silent() {
    let config = Config::default();
    let ranges = no_params().effective_ranges(&config.garble);
    assert_eq!(ranges.min_body_size, 100);
    assert_eq!(ranges.max_body_size, 10000);
    assert_eq!(ranges.min_wait_ms, 0);
    assert_eq!(ranges.max_wait_ms, 1000);
    assert!(!no_params().body_range_reversed(&config.garble));
    assert!(!no_params().wait_range_reversed(&config.garble));
}

#[test]
fn the_request_overrides_the_settings() {
    let config = Config::default();
    let params = GarbleParams {
        max_body_size: Some(2000),
        min_body_size: Some(500),
        max_wait_duration: Some(50),
        min_wait_duration: Some(20),
    };
    let ranges = params.effective_ranges(&config.garble);
    assert_eq!(ranges.min_body_size, 500);
    assert_eq!(ranges.max_body_size, 2000);
    assert_eq!(ranges.min_wait_ms, 20);
    assert_eq!(ranges.max_wait_ms, 50);
}

#[test]
fn reversed_ranges_are_swapped() {
    let config = Config::default();
    let params = GarbleParams {
        max_body_size: Some(10),
        min_body_size: None,
        max_wait_duration: None,
        min_wait_duration: Some(5000),
    };
    assert!(params.body_range_reversed(&config.garble));
    assert!(params.wait_range_reversed(&config.garble));
    let ranges = params.effective_ranges(&config.garble);
    assert_eq!(ranges.min_body_size, 10);
    assert_eq!(ranges.max_body_size, 100);
    assert_eq!(ranges.min_wait_ms, 1000);
    assert_eq!(ranges.max_wait_ms, 5000);
}

#[test]
fn a_range_of_one_value_gives_that_value() {
    let config = Config::default();
    let params = GarbleParams {
        max_body_size: Some(8_000_000),
        min_body_size: Some(8_000_000),
        max_wait_duration: Some(20),
        min_wait_duration: Some(20),
    };
    for _ in 0..10 {
        let plan = params.plan(&config.garble);
        assert_eq!(plan.target_size, 8_000_000);
        assert_eq!(plan.wait_duration_ms, 20);
    }
}

#[test]
fn plans_lie_within_the_ranges() {
    let config = Config::default();
    let params = GarbleParams {
        max_body_size: Some(503),
        min_body_size: Some(500),
        max_wait_duration: Some(1),
        min_wait_duration: Some(3),
    };
    let mut sizes = [false; 4];
    for _ in 0..400 {
        let plan = params.plan(&config.garble);
        assert!(plan.target_size >= 500 && plan.target_size <= 503);
        assert!(plan.wait_duration_ms >= 1 && plan.wait_duration_ms <= 3);
        sizes[plan.target_size - 500] = true;
    }
    // Both ends of the range are drawn.
    assert!(sizes[0] && sizes[3]);
}

#[test]
fn labels_follow_the_configured_thresholds() {
    let config = Config::default();
    let performance = &config.performance;
    assert_eq!(StrategyLabel::for_size(0, performance), StrategyLabel::Direct);
    assert_eq!(StrategyLabel::for_size(9_999, performance), StrategyLabel::Direct);
    assert_eq!(StrategyLabel::for_size(10_000, performance), StrategyLabel::FastPool);
    assert_eq!(StrategyLabel::for_size(999_999, performance), StrategyLabel::FastPool);
    assert_eq!(StrategyLabel::for_size(1_000_000, performance), StrategyLabel::Streaming);
    assert_eq!(StrategyLabel::Direct.as_str(), "direct");
    assert_eq!(StrategyLabel::FastPool.as_str(), "fast_pool");
    assert_eq!(StrategyLabel::Streaming.as_str(), "streaming");
}

#[test]
fn statistics_in_round_numbers() {
    let stats = ChunkPoolStats {
        total_chunks: 12,
        memory_usage_bytes: 5 * 1024 * 1024 + 17,
        cache_hits: 30,
        cache_misses: 10,
        background_generations: 4,
    };
    assert_eq!(stats.memory_usage_mb(), 5);
    assert_eq!(stats.requests(), 40);
    let full = ChunkPoolStats {
        total_chunks: 0,
        memory_usage_bytes: 1024 * 1024 - 1,
        cache_hits: u64::MAX,
        cache_misses: u64::MAX,
        background_generations: 0,
    };
    assert_eq!(full.memory_usage_mb(), 0);
    assert_eq!(full.requests(), 2 * (u64::MAX as u128));
}

use daddle::chunk_pool::{
    make_shortfall, ChunkPool, ChunkPoolConfig, ChunkPoolStats, ChunkSize, MaintenanceState,
};

fn small_config(min_chunks: usize, max_memory_mb: usize) -> ChunkPoolConfig {
    ChunkPoolConfig {
        max_memory_mb,
        min_chunks_per_size: min_chunks,
        max_chunks_per_size: 50,
        background_generation_interval_ms: 750,
        memory_check_interval_ms: 5000,
    }
}

fn filled_pool(min_chunks: usize) -> ChunkPool {
    let mut pool = ChunkPool::new(small_config(min_chunks, 512));
    let mut state = MaintenanceState::new();
    for _ in 0..(4 * min_chunks + 1) {
        pool.maintenance_tick(&mut state);
    }
    pool
}

#[test]
fn default_config_has_the_documented_values() {
    let config = ChunkPoolConfig::default();
    assert_eq!(config.max_memory_mb, 128);
    assert_eq!(config.min_chunks_per_size, 5);
    assert_eq!(config.max_chunks_per_size, 50);
    assert_eq!(config.background_generation_interval_ms, 1000);
    assert_eq!(config.memory_check_interval_ms, 5000);
}

#[test]
fn default_stats_are_zero() {
    let stats = ChunkPoolStats::default();
    assert_eq!(stats.total_chunks, 0);
    assert_eq!(stats.memory_usage_bytes, 0);
    assert_eq!(stats.cache_hits, 0);
    assert_eq!(stats.cache_misses, 0);
    assert_eq!(stats.background_generations, 0);
}

#[test]
fn new_pool_is_empty_and_generates_nothing() {
    let pool = ChunkPool::new(ChunkPoolConfig::default());
    for &class in ChunkSize::all() {
        assert_eq!(pool.available(class), 0);
    }
    assert_eq!(pool.estimate_memory_usage(), 0);
    let stats = pool.get_stats();
    assert_eq!(stats.total_chunks, 0);
    assert_eq!(stats.cache_hits, 0);
    assert_eq!(stats.cache_misses, 0);
    assert_eq!(stats.background_generations, 0);
}

#[test]
fn lazy_initialize_is_idempotent() {
    let mut pool = filled_pool(1);
    let before: Vec<usize> = ChunkSize::all().iter().map(|&c| pool.available(c)).collect();
    pool.lazy_initialize();
    pool.lazy_initialize();
    let after: Vec<usize> = ChunkSize::all().iter().map(|&c| pool.available(c)).collect();
    assert_eq!(before, after);
}

#[test]
fn get_chunk_on_empty_pool_counts_a_miss() {
    let mut pool = ChunkPool::new(ChunkPoolConfig::default());
    assert_eq!(pool.get_chunk(ChunkSize::Medium), None);
    assert_eq!(pool.get_chunk(ChunkSize::Small), None);
    let stats = pool.get_stats();
    assert_eq!(stats.cache_misses, 2);
    assert_eq!(stats.cache_hits, 0);
    assert_eq!(stats.total_chunks, 0);
}

#[test]
fn get_chunk_hands_each_fragment_out_once() {
    let mut pool = filled_pool(2);
    assert_eq!(pool.available(ChunkSize::Small), 2);
    let gauge = pool.get_stats().total_chunks;
    let first = pool.get_chunk(ChunkSize::Small);
    assert!(first.is_some());
    assert_eq!(pool.available(ChunkSize::Small), 1);
    let second = pool.get_chunk(ChunkSize::Small);
    assert!(second.is_some());
    assert_eq!(pool.available(ChunkSize::Small), 0);
    assert_eq!(pool.get_chunk(ChunkSize::Small), None);
    let stats = pool.get_stats();
    assert_eq!(stats.cache_hits, 2);
    assert_eq!(stats.cache_misses, 1);
    assert_eq!(stats.total_chunks, gauge - 2);
    // The other classes are untouched.
    assert_eq!(pool.available(ChunkSize::Medium), 2);
    assert_eq!(pool.available(ChunkSize::Large), 2);
    assert_eq!(pool.available(ChunkSize::XLarge), 2);
}

#[test]
fn pooled_fragments_are_json() {
    let mut pool = filled_pool(1);
    for &class in ChunkSize::all() {
        let fragment = pool.get_chunk(class).unwrap();
        let parsed: Result<serde_json::Value, _> = serde_json::from_str(&fragment);
        assert!(parsed.is_ok());
    }
}

#[test]
fn get_chunks_on_empty_pool_generates_all() {
    let mut pool = ChunkPool::new(ChunkPoolConfig::default());
    let chunks = pool.get_chunks(ChunkSize::Small, 4);
    assert_eq!(chunks.len(), 4);
    for chunk in &chunks {
        let parsed: Result<serde_json::Value, _> = serde_json::from_str(chunk);
        assert!(parsed.is_ok());
    }
    let stats = pool.get_stats();
    assert_eq!(stats.cache_hits, 0);
    assert_eq!(stats.cache_misses, 4);
    assert_eq!(pool.available(ChunkSize::Small), 0);
}

#[test]
fn get_chunks_takes_what_is_there_and_makes_the_rest() {
    let mut pool = filled_pool(2);
    let memory = pool.estimate_memory_usage();
    let chunks = pool.get_chunks(ChunkSize::Small, 5);
    assert_eq!(chunks.len(), 5);
    assert_eq!(pool.available(ChunkSize::Small), 0);
    let stats = pool.get_stats();
    assert_eq!(stats.cache_hits, 2);
    assert_eq!(stats.cache_misses, 3);
    let taken = chunks[0].len() + chunks[1].len();
    assert_eq!(pool.estimate_memory_usage(), memory - taken);
}

#[test]
fn get_chunks_of_nothing_is_nothing() {
    let mut pool = filled_pool(1);
    let chunks = pool.get_chunks(ChunkSize::Medium, 0);
    assert!(chunks.is_empty());
    assert_eq!(pool.available(ChunkSize::Medium), 1);
    let stats = pool.get_stats();
    assert_eq!(stats.cache_hits, 0);
    assert_eq!(stats.cache_misses, 0);
}

#[test]
fn get_chunks_leaves_what_it_does_not_need() {
    let mut pool = filled_pool(3);
    let chunks = pool.get_chunks(ChunkSize::Small, 2);
    assert_eq!(chunks.len(), 2);
    assert_eq!(pool.available(ChunkSize::Small), 1);
    let stats = pool.get_stats();
    assert_eq!(stats.cache_hits, 2);
    assert_eq!(stats.cache_misses, 0);
}

#[test]
fn rounds_go_round_the_deficient_classes() {
    let mut pool = ChunkPool::new(small_config(5, 64));
    assert_eq!(pool.next_deficient(), Some(ChunkSize::Small));
    pool.generate_background_chunks();
    assert_eq!(pool.available(ChunkSize::Small), 3);
    assert_eq!(pool.available(ChunkSize::Medium), 0);
    assert_eq!(pool.available(ChunkSize::Large), 0);
    assert_eq!(pool.available(ChunkSize::XLarge), 0);
    // Small is still deficient, but it was served last: the turn goes on.
    assert_eq!(pool.next_deficient(), Some(ChunkSize::Medium));
    pool.generate_background_chunks();
    assert_eq!(pool.available(ChunkSize::Small), 3);
    assert_eq!(pool.available(ChunkSize::Medium), 3);
    assert_eq!(pool.next_deficient(), Some(ChunkSize::Large));
    pool.generate_background_chunks();
    assert_eq!(pool.available(ChunkSize::Large), 3);
    assert_eq!(pool.next_deficient(), Some(ChunkSize::XLarge));
    pool.generate_background_chunks();
    assert_eq!(pool.available(ChunkSize::XLarge), 3);
    // After the largest class the smallest has its turn again.
    assert_eq!(pool.next_deficient(), Some(ChunkSize::Small));
    pool.generate_background_chunks();
    assert_eq!(pool.available(ChunkSize::Small), 5);
    assert_eq!(pool.available(ChunkSize::Medium), 3);
    let stats = pool.get_stats();
    assert_eq!(stats.background_generations, 5);
    assert_eq!(stats.total_chunks, 14);
    assert_eq!(stats.memory_usage_bytes, pool.estimate_memory_usage());
    assert!(stats.memory_usage_bytes > 0);
}

#[test]
fn the_turn_skips_classes_that_lack_nothing() {
    let mut pool = filled_pool(2);
    assert_eq!(pool.next_deficient(), None);
    assert!(pool.get_chunk(ChunkSize::Small).is_some());
    assert!(pool.get_chunk(ChunkSize::Large).is_some());
    // The last round served the largest class, so the search begins with
    // the smallest.
    assert_eq!(pool.next_deficient(), Some(ChunkSize::Small));
    pool.generate_background_chunks();
    assert_eq!(pool.available(ChunkSize::Small), 2);
    assert_eq!(pool.next_deficient(), Some(ChunkSize::Large));
    assert!(pool.get_chunk(ChunkSize::Small).is_some());
    // Small and Large are deficient now; Small was served last.
    assert_eq!(pool.next_deficient(), Some(ChunkSize::Large));
    pool.generate_background_chunks();
    assert_eq!(pool.available(ChunkSize::Large), 2);
    assert_eq!(pool.next_deficient(), Some(ChunkSize::Small));
    pool.generate_background_chunks();
    assert_eq!(pool.next_deficient(), None);
}

#[test]
fn a_single_deficient_class_is_served_again() {
    let mut pool = ChunkPool::new(small_config(5, 64));
    for _ in 0..8 {
        pool.generate_background_chunks();
    }
    for &class in ChunkSize::all() {
        assert_eq!(pool.available(class), 5);
    }
    for _ in 0..5 {
        assert!(pool.get_chunk(ChunkSize::Medium).is_some());
    }
    pool.generate_background_chunks();
    assert_eq!(pool.available(ChunkSize::Medium), 3);
    pool.generate_background_chunks();
    assert_eq!(pool.available(ChunkSize::Medium), 5);
}

#[test]
fn classes_follow_each_other_in_a_circle() {
    assert_eq!(ChunkSize::Small.next(), ChunkSize::Medium);
    assert_eq!(ChunkSize::Medium.next(), ChunkSize::Large);
    assert_eq!(ChunkSize::Large.next(), ChunkSize::XLarge);
    assert_eq!(ChunkSize::XLarge.next(), ChunkSize::Small);
}

#[test]
fn a_round_on_a_full_pool_changes_nothing() {
    let mut pool = filled_pool(1);
    let before = pool.get_stats();
    pool.generate_background_chunks();
    let after = pool.get_stats();
    assert_eq!(after.background_generations, before.background_generations);
    assert_eq!(after.total_chunks, before.total_chunks);
    for &class in ChunkSize::all() {
        assert_eq!(pool.available(class), 1);
    }
}

#[test]
fn replenishment_converges_to_the_minimum() {
    let mut pool = ChunkPool::new(small_config(4, 512));
    let mut state = MaintenanceState::new();
    // Each class lacks four fragments: sixteen in all, so sixteen ticks
    // are enough.
    for _ in 0..16 {
        pool.maintenance_tick(&mut state);
    }
    for &class in ChunkSize::all() {
        assert!(pool.available(class) >= 4);
    }
    assert!(!pool.should_generate_chunks());
    // Two rounds for each class: three fragments, then one. The other
    // ticks found nothing to do, and the first of them ended the start-up.
    assert_eq!(state.startup_rounds, 8);
    assert!(!state.fast_startup);
    assert_eq!(pool.get_stats().background_generations, 8);
}

#[test]
fn replenishment_resumes_after_consumption() {
    let mut pool = filled_pool(2);
    let mut state = MaintenanceState { fast_startup: false, startup_rounds: 0 };
    assert!(!pool.should_generate_chunks());
    assert!(pool.get_chunk(ChunkSize::Medium).is_some());
    assert!(pool.should_generate_chunks());
    pool.maintenance_tick(&mut state);
    assert_eq!(pool.available(ChunkSize::Medium), 2);
    assert!(!pool.should_generate_chunks());
    assert!(!state.fast_startup);
    assert_eq!(state.startup_rounds, 1);
}

#[test]
fn no_budget_means_no_generation() {
    let mut pool = ChunkPool::new(small_config(5, 0));
    let mut state = MaintenanceState::new();
    assert!(!pool.has_memory_available());
    assert!(!pool.should_generate_chunks());
    for _ in 0..5 {
        pool.maintenance_tick(&mut state);
    }
    for &class in ChunkSize::all() {
        assert_eq!(pool.available(class), 0);
    }
    assert_eq!(pool.get_stats().background_generations, 0);
    assert_eq!(state.startup_rounds, 0);
    assert!(!state.fast_startup);
    // The ticks go on at the configured interval.
    assert_eq!(pool.tick_interval_ms(&state), 750);
}

#[test]
fn generation_stops_once_the_budget_is_used_up() {
    // One mebibyte of budget and a minimum that would need far more.
    let mut pool = ChunkPool::new(small_config(2000, 1));
    let mut state = MaintenanceState::new();
    let mut ticks = 0;
    while pool.has_memory_available() && ticks < 5000 {
        let before = pool.estimate_memory_usage();
        assert!(before < 1024 * 1024);
        pool.maintenance_tick(&mut state);
        ticks += 1;
    }
    assert!(!pool.has_memory_available());
    let held: Vec<usize> = ChunkSize::all().iter().map(|&c| pool.available(c)).collect();
    let rounds = pool.get_stats().background_generations;
    pool.maintenance_tick(&mut state);
    pool.maintenance_tick(&mut state);
    let after: Vec<usize> = ChunkSize::all().iter().map(|&c| pool.available(c)).collect();
    assert_eq!(held, after);
    assert_eq!(pool.get_stats().background_generations, rounds);
}

#[test]
fn tick_interval_is_short_during_startup() {
    let pool = ChunkPool::new(small_config(5, 64));
    let startup = MaintenanceState::new();
    assert!(startup.fast_startup);
    assert_eq!(startup.startup_rounds, 0);
    assert_eq!(pool.tick_interval_ms(&startup), 100);
    let steady = MaintenanceState { fast_startup: false, startup_rounds: 3 };
    assert_eq!(pool.tick_interval_ms(&steady), 750);
}

#[test]
fn update_stats_brings_the_gauges_up_to_date() {
    let mut pool = filled_pool(2);
    pool.get_chunk(ChunkSize::Large);
    pool.get_chunks(ChunkSize::Medium, 1);
    pool.update_stats();
    let stats = pool.get_stats();
    assert_eq!(stats.total_chunks, 6);
    assert_eq!(stats.memory_usage_bytes, pool.estimate_memory_usage());
}

#[test]
fn memory_is_available_below_the_budget() {
    let pool = filled_pool(1);
    assert!(pool.estimate_memory_usage() > 0);
    assert!(pool.has_memory_available());
}

#[test]
fn fetch_takes_from_the_pool_before_it_makes_anything() {
    let mut pool = filled_pool(1);
    let memory = pool.estimate_memory_usage();
    let pooled = pool.fetch(ChunkSize::Medium, 100);
    assert_eq!(pool.available(ChunkSize::Medium), 0);
    assert_eq!(pool.estimate_memory_usage(), memory - pooled.len());
    assert_eq!(pool.get_stats().cache_hits, 1);
    assert_eq!(pool.get_stats().cache_misses, 0);
    let fresh = pool.fetch(ChunkSize::Medium, 100);
    let parsed: Result<serde_json::Value, _> = serde_json::from_str(&fresh);
    assert!(parsed.is_ok());
    assert_eq!(pool.estimate_memory_usage(), memory - pooled.len());
    assert_eq!(pool.get_stats().cache_hits, 1);
    assert_eq!(pool.get_stats().cache_misses, 1);
    assert_eq!(pool.available(ChunkSize::Small), 1);
    assert_eq!(pool.available(ChunkSize::Large), 1);
    assert_eq!(pool.available(ChunkSize::XLarge), 1);
}

#[test]
fn take_available_takes_and_counts_but_makes_nothing() {
    let mut pool = filled_pool(2);
    let memory = pool.estimate_memory_usage();
    let taken = pool.take_available(ChunkSize::Small, 5);
    assert_eq!(taken.len(), 2);
    assert_eq!(pool.available(ChunkSize::Small), 0);
    assert_eq!(pool.estimate_memory_usage(), memory - taken[0].len() - taken[1].len());
    let stats = pool.get_stats();
    assert_eq!(stats.cache_hits, 2);
    assert_eq!(stats.cache_misses, 3);
    let none = pool.take_available(ChunkSize::Small, 1);
    assert!(none.is_empty());
    assert_eq!(pool.get_stats().cache_misses, 4);
    let some = pool.take_available(ChunkSize::Medium, 1);
    assert_eq!(some.len(), 1);
    assert_eq!(pool.available(ChunkSize::Medium), 1);
    assert_eq!(pool.available(ChunkSize::Large), 2);
}

#[test]
fn make_shortfall_makes_as_many_as_are_missing() {
    assert!(make_shortfall(ChunkSize::Small, 0).is_empty());
    let fresh = make_shortfall(ChunkSize::Small, 7);
    assert_eq!(fresh.len(), 7);
    for fragment in &fresh {
        let parsed: Result<serde_json::Value, _> = serde_json::from_str(fragment);
        assert!(parsed.is_ok());
    }
}

use daddle::chunk_pool::ChunkSize;
use daddle::streaming::{ResponseStrategy, StreamingGarbleResponse};

#[test]
fn nominal_sizes_are_powers_of_ten_kibibytes() {
    assert_eq!(ChunkSize::Small.target_bytes(), 1_024);
    assert_eq!(ChunkSize::Medium.target_bytes(), 10_240);
    assert_eq!(ChunkSize::Large.target_bytes(), 102_400);
    assert_eq!(ChunkSize::XLarge.target_bytes(), 1_048_576);
}

#[test]
fn all_lists_the_classes_from_small_to_large() {
    let classes = ChunkSize::all();
    assert_eq!(
        classes,
        &[ChunkSize::Small, ChunkSize::Medium, ChunkSize::Large, ChunkSize::XLarge]
    );
}

#[test]
fn largest_fitting_picks_by_nominal_size() {
    assert_eq!(ChunkSize::largest_fitting(0), ChunkSize::Small);
    assert_eq!(ChunkSize::largest_fitting(1_023), ChunkSize::Small);
    assert_eq!(ChunkSize::largest_fitting(1_024), ChunkSize::Small);
    assert_eq!(ChunkSize::largest_fitting(10_239), ChunkSize::Small);
    assert_eq!(ChunkSize::largest_fitting(10_240), ChunkSize::Medium);
    assert_eq!(ChunkSize::largest_fitting(102_399), ChunkSize::Medium);
    assert_eq!(ChunkSize::largest_fitting(102_400), ChunkSize::Large);
    assert_eq!(ChunkSize::largest_fitting(1_048_575), ChunkSize::Large);
    assert_eq!(ChunkSize::largest_fitting(1_048_576), ChunkSize::XLarge);
    assert_eq!(ChunkSize::largest_fitting(usize::MAX), ChunkSize::XLarge);
}

#[test]
fn strategy_thresholds_do_not_overlap() {
    assert_eq!(ResponseStrategy::for_size(0), ResponseStrategy::Direct);
    assert_eq!(ResponseStrategy::for_size(9_999), ResponseStrategy::Direct);
    assert_eq!(ResponseStrategy::for_size(10_000), ResponseStrategy::Fast);
    assert_eq!(ResponseStrategy::for_size(999_999), ResponseStrategy::Fast);
    assert_eq!(ResponseStrategy::for_size(1_000_000), ResponseStrategy::Streaming);
    assert_eq!(ResponseStrategy::for_size(usize::MAX), ResponseStrategy::Streaming);
}

#[test]
fn streaming_counts_fragments_by_the_class_of_the_target() {
    assert_eq!(StreamingGarbleResponse::new(500).chunk_size(), 10_240);
    assert_eq!(StreamingGarbleResponse::new(1_000_000).chunk_size(), 10_240);
    assert_eq!(StreamingGarbleResponse::new(1_000_001).chunk_size(), 102_400);
    assert_eq!(StreamingGarbleResponse::new(2_000_000).chunk_size(), 102_400);
    assert_eq!(StreamingGarbleResponse::new(10_000_000).chunk_size(), 102_400);
    assert_eq!(StreamingGarbleResponse::new(10_000_001).chunk_size(), 1_048_576);
    assert_eq!(StreamingGarbleResponse::new(2_000_000).target_size(), 2_000_000);
}

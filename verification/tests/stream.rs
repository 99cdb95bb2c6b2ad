use daddle::chunk_pool::{ChunkPool, ChunkPoolConfig, ChunkSize, MaintenanceState};
use daddle::streaming::StreamingGarbleResponse;

fn parse(text: &str) -> serde_json::Value {
    serde_json::from_str(text).unwrap()
}

fn empty_pool() -> ChunkPool {
    ChunkPool::new(ChunkPoolConfig::default())
}

/// The fragments among the pieces of a complete stream: every piece but
/// the opening, the commas and the record.
fn fragments_of(pieces: &[String]) -> Vec<&String> {
    let mut fragments = Vec::new();
    let mut i = 1;
    while i + 1 < pieces.len() {
        fragments.push(&pieces[i]);
        i += 2;
    }
    fragments
}

#[test]
fn stream_of_nothing_is_opening_and_record() {
    let mut pool = empty_pool();
    let mut stream = StreamingGarbleResponse::new(0).into_stream();
    assert!(!stream.is_finished());
    assert_eq!(stream.chunk_count(), 0);
    assert_eq!(stream.next_piece(&mut pool).as_deref(), Some("{\"garbled_chunks\":["));
    assert!(!stream.is_finished());
    assert_eq!(
        stream.next_piece(&mut pool).as_deref(),
        Some("],\"metadata\":{\"generated_by\":\"streaming\",\"target_size\":0,\"actual_size\":0,\"chunk_count\":0,\"streaming\":true}}")
    );
    assert!(stream.is_finished());
    assert_eq!(stream.next_piece(&mut pool), None);
    assert_eq!(stream.next_piece(&mut pool), None);
    assert!(stream.is_finished());
    let stats = pool.get_stats();
    assert_eq!(stats.cache_hits + stats.cache_misses, 0);
}

#[test]
fn stream_at_the_floor_has_no_fragment() {
    let mut pool = empty_pool();
    let mut stream = StreamingGarbleResponse::new(500).into_stream();
    let pieces = stream.drain(&mut pool);
    assert_eq!(pieces.len(), 2);
    assert_eq!(
        pieces.concat(),
        "{\"garbled_chunks\":[],\"metadata\":{\"generated_by\":\"streaming\",\"target_size\":500,\"actual_size\":500,\"chunk_count\":0,\"streaming\":true}}"
    );
}

#[test]
fn stream_just_above_the_floor_has_one_fragment() {
    let mut pool = empty_pool();
    let mut stream = StreamingGarbleResponse::new(501).into_stream();
    let pieces = stream.drain(&mut pool);
    // One fragment is expected of a target below the nominal size of the
    // class, so the stream ends after it whatever its size.
    assert_eq!(pieces.len(), 3);
    assert_eq!(pieces[0], "{\"garbled_chunks\":[");
    assert_eq!(
        pieces[2],
        "],\"metadata\":{\"generated_by\":\"streaming\",\"target_size\":501,\"actual_size\":501,\"chunk_count\":1,\"streaming\":true}}"
    );
    let parsed = parse(&pieces.concat());
    assert_eq!(parsed["garbled_chunks"].as_array().unwrap().len(), 1);
    assert_eq!(pool.get_stats().cache_misses, 1);
}

#[test]
fn stream_pieces_come_one_at_a_time() {
    let mut pool = empty_pool();
    let mut stream = StreamingGarbleResponse::new(1_500_000).into_stream();
    let mut pieces: Vec<String> = Vec::new();
    let mut last_count = 0;
    while let Some(piece) = stream.next_piece(&mut pool) {
        let count = stream.chunk_count();
        assert!(count == last_count || count == last_count + 1);
        last_count = count;
        pieces.push(piece);
        assert!(pieces.len() < 100);
    }
    assert!(stream.is_finished());
    assert_eq!(pieces[0], "{\"garbled_chunks\":[");
    let fragments = fragments_of(&pieces);
    assert_eq!(fragments.len(), last_count);
    // Commas are pieces of their own, between the fragments.
    let mut i = 2;
    while i + 1 < pieces.len() {
        assert_eq!(pieces[i], ",");
        i += 2;
    }
    let parsed = parse(&pieces.concat());
    assert_eq!(parsed["garbled_chunks"].as_array().unwrap().len(), last_count);
}

#[test]
fn streaming_two_million_bytes() {
    let mut pool = empty_pool();
    let target = 2_000_000usize;
    let response = StreamingGarbleResponse::new(target);
    assert_eq!(response.chunk_size(), 102_400);
    let expected = 20; // 2,000,000 / 102,400, rounded up
    let mut stream = response.into_stream();
    let pieces = stream.drain(&mut pool);
    assert!(stream.is_finished());
    let text = pieces.concat();
    let parsed = parse(&text);
    let object = parsed.as_object().unwrap();
    assert_eq!(object.len(), 2);
    let chunks = parsed["garbled_chunks"].as_array().unwrap();
    let metadata = &parsed["metadata"];
    assert_eq!(metadata["generated_by"].as_str(), Some("streaming"));
    assert_eq!(metadata["streaming"].as_bool(), Some(true));
    assert_eq!(metadata["target_size"].as_u64(), Some(target as u64));
    assert_eq!(metadata["actual_size"].as_u64(), Some(target as u64));
    assert_eq!(metadata["chunk_count"].as_u64(), Some(chunks.len() as u64));
    assert_eq!(stream.chunk_count(), chunks.len());
    // As many fragments as expected, unless so few bytes were left that
    // the stream ended before.
    let fragments = fragments_of(&pieces);
    assert_eq!(fragments.len(), chunks.len());
    assert!(fragments.len() <= expected);
    let emitted: usize = fragments.iter().map(|f| f.len()).sum();
    let left = target.saturating_sub(emitted);
    assert!(fragments.len() == expected || left <= 500);
    // Before the last fragment more than 500 bytes were left.
    let without_last = emitted - fragments.last().unwrap().len();
    assert!(target - without_last > 500);
}

#[test]
fn stream_takes_fragments_from_the_class_that_fits_what_is_left() {
    let mut pool = ChunkPool::new(ChunkPoolConfig {
        max_memory_mb: 512,
        min_chunks_per_size: 1,
        max_chunks_per_size: 50,
        background_generation_interval_ms: 1000,
        memory_check_interval_ms: 5000,
    });
    let mut state = MaintenanceState::new();
    for _ in 0..4 {
        pool.maintenance_tick(&mut state);
    }
    assert_eq!(pool.available(ChunkSize::XLarge), 1);
    let mut stream = StreamingGarbleResponse::new(1_200_000).into_stream();
    assert!(stream.next_piece(&mut pool).is_some());
    // 1,200,000 bytes are left: an extra large fragment fits.
    let first = stream.next_piece(&mut pool).unwrap();
    assert_eq!(pool.available(ChunkSize::XLarge), 0);
    assert_eq!(pool.available(ChunkSize::Large), 1);
    assert_eq!(pool.get_stats().cache_hits, 1);
    assert_eq!(stream.chunk_count(), 1);
    let parsed: Result<serde_json::Value, _> = serde_json::from_str(&first);
    assert!(parsed.is_ok());
}

#[test]
fn drain_after_some_pieces_gives_the_rest() {
    let mut pool = empty_pool();
    let mut stream = StreamingGarbleResponse::new(30_000).into_stream();
    let mut text = String::new();
    text.push_str(&stream.next_piece(&mut pool).unwrap());
    text.push_str(&stream.next_piece(&mut pool).unwrap());
    let rest = stream.drain(&mut pool);
    assert!(stream.is_finished());
    text.push_str(&rest.concat());
    let parsed = parse(&text);
    let count = parsed["metadata"]["chunk_count"].as_u64().unwrap();
    assert!(count >= 1);
    assert!(count <= 3); // 30,000 / 10,240, rounded up
    assert_eq!(parsed["garbled_chunks"].as_array().unwrap().len() as u64, count);
    assert!(stream.drain(&mut pool).is_empty());
}

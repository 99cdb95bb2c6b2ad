use daddle::envelope::EnvelopeWriter;

#[test]
fn new_writer_holds_the_opening_only() {
    let writer = EnvelopeWriter::new();
    assert_eq!(writer.chunk_count(), 0);
    assert_eq!(writer.byte_size(), 19);
}

#[test]
fn empty_pool_envelope_is_exact() {
    let writer = EnvelopeWriter::new();
    let text = writer.finish_pool(1500);
    assert_eq!(
        text,
        "{\"garbled_chunks\":[],\"metadata\":{\"generated_by\":\"chunk_pool\",\"target_size\":1500,\"actual_size\":19,\"chunk_count\":0}}"
    );
}

#[test]
fn pool_envelope_records_the_size_before_the_record() {
    let mut writer = EnvelopeWriter::new();
    writer.push("1");
    writer.push("{\"a\":2}");
    writer.push("\"x\"");
    assert_eq!(writer.chunk_count(), 3);
    assert_eq!(writer.byte_size(), 19 + 1 + 1 + 7 + 1 + 3);
    let text = writer.finish_pool(4096);
    assert_eq!(
        text,
        "{\"garbled_chunks\":[1,{\"a\":2},\"x\"],\"metadata\":{\"generated_by\":\"chunk_pool\",\"target_size\":4096,\"actual_size\":32,\"chunk_count\":3}}"
    );
    let parsed: serde_json::Value = serde_json::from_str(&text).unwrap();
    assert_eq!(parsed["garbled_chunks"].as_array().unwrap().len(), 3);
    assert_eq!(parsed["metadata"]["chunk_count"].as_u64(), Some(3));
}

#[test]
fn parallel_envelope_records_its_own_length() {
    let mut writer = EnvelopeWriter::new();
    writer.push("true");
    writer.push("null");
    let text = writer.finish_parallel(250_000);
    assert_eq!(
        text,
        "{\"garbled_chunks\":[true,null],\"metadata\":{\"generated_by\":\"parallel\",\"target_size\":250000,\"chunk_count\":2,\"actual_size\":124}}"
    );
    assert_eq!(text.len(), 124);
}

#[test]
fn parallel_envelope_length_is_right_where_the_digits_change() {
    // Fragments of growing length carry the total from three digits to
    // four.
    for padding in 850..900usize {
        let mut writer = EnvelopeWriter::new();
        let fragment = format!("\"{}\"", "a".repeat(padding));
        writer.push(&fragment);
        let text = writer.finish_parallel(0);
        let parsed: serde_json::Value = serde_json::from_str(&text).unwrap();
        assert_eq!(
            parsed["metadata"]["actual_size"].as_u64(),
            Some(text.len() as u64)
        );
        assert_eq!(parsed["metadata"]["chunk_count"].as_u64(), Some(1));
    }
}

#[test]
fn fragments_keep_their_order() {
    let mut writer = EnvelopeWriter::new();
    for i in 0..10u32 {
        writer.push(&format!("{}", i));
    }
    let text = writer.finish_pool(0);
    assert!(text.starts_with("{\"garbled_chunks\":[0,1,2,3,4,5,6,7,8,9],"));
}

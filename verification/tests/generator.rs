use daddle::generator::{growth_ends, payload_limit_of, RandomDataGenerator};

fn depth(value: &serde_json::Value) -> usize {
    match value {
        serde_json::Value::Array(items) => 1 + items.iter().map(depth).max().unwrap_or(0),
        serde_json::Value::Object(members) => 1 + members.values().map(depth).max().unwrap_or(0),
        _ => 0,
    }
}

#[test]
fn payload_is_an_object() {
    let mut generator = RandomDataGenerator::new();
    for target in [0usize, 50, 1000, 10_000] {
        let payload = generator.generate_payload(target);
        assert!(payload.is_object());
        assert!(!payload.as_object().unwrap().is_empty());
    }
}

#[test]
fn payload_grows_to_its_target() {
    let mut generator = RandomDataGenerator::new();
    for target in [5_000usize, 50_000, 200_000] {
        let payload = generator.generate_payload(target);
        let text = serde_json::to_string(&payload).unwrap();
        assert!(text.len() >= target);
        assert!(text.len() <= 3 * target);
        assert!(generator.last_growth_steps() < 1000);
    }
}

#[test]
fn array_elements_can_be_written_and_read_back() {
    let mut generator = RandomDataGenerator::new();
    for _ in 0..200 {
        let element = generator.generate_array_element(512);
        let text = serde_json::to_string(&element).unwrap();
        let parsed: Result<serde_json::Value, _> = serde_json::from_str(&text);
        assert!(parsed.is_ok());
    }
}

#[test]
fn values_nest_no_deeper_than_a_parser_reads() {
    let mut generator = RandomDataGenerator::new();
    for _ in 0..50 {
        let payload = generator.generate_payload(20_000);
        assert!(depth(&payload) <= 50);
    }
}

#[test]
fn generators_are_independent() {
    let mut first = RandomDataGenerator::new();
    let mut second = RandomDataGenerator::new();
    let a = serde_json::to_string(&first.generate_payload(2_000)).unwrap();
    let b = serde_json::to_string(&second.generate_payload(2_000)).unwrap();
    assert_ne!(a, b);
}

fn walk<'a>(
    value: &'a serde_json::Value,
    keys: &mut Vec<&'a str>,
    leaves: &mut Vec<&'a serde_json::Value>,
) {
    match value {
        serde_json::Value::Array(items) => {
            leaves.push(value);
            for item in items {
                walk(item, keys, leaves);
            }
        }
        serde_json::Value::Object(members) => {
            leaves.push(value);
            for (key, member) in members {
                keys.push(key);
                walk(member, keys, leaves);
            }
        }
        _ => leaves.push(value),
    }
}

fn separated_like_an_identifier(text: &str, separator: u8) -> bool {
    let bytes = text.as_bytes();
    bytes.len() == 36
        && bytes[8] == separator
        && bytes[13] == separator
        && bytes[18] == separator
        && bytes[23] == separator
}

fn hexadecimal_elsewhere(text: &str) -> bool {
    text.bytes().enumerate().all(|(i, b)| {
        i == 8 || i == 13 || i == 18 || i == 23 || b.is_ascii_digit() || (b'a'..=b'f').contains(&b)
    })
}

#[test]
fn array_elements_come_in_several_kinds() {
    let mut generator = RandomDataGenerator::new();
    let mut objects = 0;
    let mut arrays = 0;
    let mut strings = 0;
    let mut numbers = 0;
    for _ in 0..600 {
        let element = generator.generate_array_element(64);
        if element.is_object() {
            objects += 1;
        } else if element.is_array() {
            arrays += 1;
        } else if element.is_string() {
            strings += 1;
        } else if element.is_number() {
            numbers += 1;
        }
    }
    assert!(objects > 0);
    assert!(arrays > 0);
    assert!(strings > 0);
    assert!(numbers > 0);
}

#[test]
fn payload_values_come_in_all_kinds() {
    let mut generator = RandomDataGenerator::new();
    let payload = generator.generate_payload(400_000);
    let mut keys = Vec::new();
    let mut values = Vec::new();
    walk(&payload, &mut keys, &mut values);
    assert!(values.iter().any(|v| v.is_null()));
    assert!(values.iter().any(|v| v.as_bool() == Some(true)));
    assert!(values.iter().any(|v| v.as_bool() == Some(false)));
    assert!(values.iter().any(|v| v.as_i64().map_or(false, |i| i < 0)));
    assert!(values.iter().any(|v| v.as_i64().map_or(false, |i| i > 0)));
    assert!(values.iter().any(|v| v.is_f64()));
    assert!(values
        .iter()
        .filter(|v| v.is_f64())
        .all(|v| v.as_f64().map_or(false, |f| (0.0..1.0).contains(&f))));
    assert!(values.iter().any(|v| v.is_string()));
    assert!(values.iter().any(|v| v.as_array().map_or(false, |a| !a.is_empty())));
    assert!(values.iter().any(|v| v.as_object().map_or(false, |o| !o.is_empty())));
}

#[test]
fn identifiers_have_the_hyphenated_form() {
    let mut generator = RandomDataGenerator::new();
    let payload = generator.generate_payload(400_000);
    let mut keys = Vec::new();
    let mut values = Vec::new();
    walk(&payload, &mut keys, &mut values);
    let identifiers: Vec<&str> = values
        .iter()
        .filter_map(|v| v.as_str())
        .filter(|s| separated_like_an_identifier(s, b'-'))
        .collect();
    assert!(!identifiers.is_empty());
    assert!(identifiers.iter().all(|s| hexadecimal_elsewhere(s)));
    // As a key an identifier has underscores in place of its hyphens.
    let as_keys: Vec<&str> = keys
        .iter()
        .copied()
        .filter(|s| separated_like_an_identifier(s, b'_'))
        .collect();
    assert!(!as_keys.is_empty());
    assert!(as_keys.iter().all(|s| hexadecimal_elsewhere(s)));
    assert!(as_keys.iter().all(|s| !s.contains('-')));
}

#[test]
fn keys_come_in_the_documented_styles() {
    let mut generator = RandomDataGenerator::new();
    let payload = generator.generate_payload(400_000);
    let mut keys = Vec::new();
    let mut values = Vec::new();
    walk(&payload, &mut keys, &mut values);
    let numbered: Vec<&str> = keys.iter().copied().filter(|k| k.starts_with("field_")).collect();
    assert!(!numbered.is_empty());
    assert!(numbered.iter().all(|k| k["field_".len()..].parse::<u64>().is_ok()));
    let garbled: Vec<&str> = keys.iter().copied().filter(|k| k.starts_with("garbled_")).collect();
    assert!(!garbled.is_empty());
    assert!(garbled.iter().all(|k| k.len() == "garbled_".len() + 8));
    assert!(garbled.iter().all(|k| k.bytes().all(|b| {
        b.is_ascii_alphanumeric() || b == b'_' || b == b'-'
    })));
    // No key is empty, and none is longer than the longest style allows.
    assert!(keys.iter().all(|k| !k.is_empty() && k.len() <= 43));
}

#[test]
fn massive_strings_have_three_to_fourteen_segments() {
    let mut generator = RandomDataGenerator::new();
    let mut seen = 0;
    for _ in 0..600 {
        let element = generator.generate_array_element(64);
        if let Some(text) = element.as_str() {
            if text.starts_with("GARBLED_") {
                continue;
            }
            seen += 1;
            // Three segments of three characters, two of them led in by
            // a number between underscores, are the least; fourteen
            // segments with all their parts at full length are the most.
            assert!(text.len() >= 3 * 3 + 2 * 3);
            assert!(text.len() <= 14 * (12 + 39 + 43 + 37));
            assert!(text.is_ascii());
            assert!(!text.contains('"') && !text.contains('\\'));
        }
    }
    assert!(seen > 0);
}

#[test]
fn growth_ends_at_the_target_or_with_the_steps() {
    assert!(growth_ends(50, 50, 0));
    assert!(growth_ends(51, 50, 0));
    assert!(!growth_ends(49, 50, 0));
    assert!(!growth_ends(49, 50, 999));
    assert!(growth_ends(49, 50, 1000));
    assert!(growth_ends(0, 0, 0));
    assert!(growth_ends(0, usize::MAX, 1000));
    assert!(!growth_ends(0, usize::MAX, 0));
}

#[test]
fn payload_limit_is_threefold_with_a_floor() {
    assert_eq!(payload_limit_of(0), 64);
    assert_eq!(payload_limit_of(21), 64);
    assert_eq!(payload_limit_of(22), 66);
    assert_eq!(payload_limit_of(50), 150);
    assert_eq!(payload_limit_of(10_000), 30_000);
    assert_eq!(payload_limit_of(usize::MAX), 3 * (usize::MAX as u128));
}

#[test]
fn small_payloads_keep_to_their_limit_and_have_a_member() {
    let mut generator = RandomDataGenerator::new();
    assert_eq!(generator.last_growth_steps(), 0);
    for target in [0usize, 1, 30, 50, 64, 100, 500] {
        for _ in 0..50 {
            let payload = generator.generate_payload(target);
            let text = serde_json::to_string(&payload).unwrap();
            assert!(!payload.as_object().unwrap().is_empty());
            assert!(text.len() as u128 <= payload_limit_of(target));
            assert!(text.len() >= target || generator.last_growth_steps() == 1000);
        }
    }
}

#[test]
fn a_payload_that_starts_too_large_starts_from_one_small_member() {
    let mut generator = RandomDataGenerator::new();
    let mut seen = 0;
    for _ in 0..200 {
        let payload = generator.generate_payload(0);
        let members = payload.as_object().unwrap();
        let text = serde_json::to_string(&payload).unwrap();
        assert!(text.len() <= 64);
        if members.len() == 1 {
            let (key, value) = members.iter().next().unwrap();
            if value.is_null() && key.len() >= 8 && key.bytes().all(|b| b.is_ascii_hexdigit()) {
                seen += 1;
                assert_eq!(text.len(), key.len() + 9);
            }
        }
        // The target is reached at once: nothing is added.
        assert_eq!(generator.last_growth_steps(), 0);
    }
    assert!(seen > 0);
}

use rust_blockchain::codec::parse_block;
use rust_blockchain::Block;

fn block_at(index: u32, txs: Vec<&str>, prev: &str, ts: u64) -> Block {
    let owned: Vec<String> = txs.into_iter().map(|t| t.to_string()).collect();
    Block::new_at(index, owned, prev.to_string(), ts)
}

#[test]
fn fresh_block_fields() {
    let b = Block::new(3, vec!["t1".to_string()], "prevhash".to_string());
    assert_eq!(b.index, 3);
    assert_eq!(b.transactions, vec!["t1".to_string()]);
    assert_eq!(b.previous_hash, "prevhash");
    assert_eq!(b.hash, "0");
    assert_eq!(b.nonce, 0);
}

#[test]
fn canonical_text_of_fixed_block() {
    let b = block_at(0, vec![], "0", 0);
    assert_eq!(
        b.get_json(),
        "{\"index\":0,\"transactions\":[],\"timestamp\":0,\"previous_hash\":\"0\",\"hash\":\"0\",\"nonce\":0}"
    );
}

#[test]
fn canonical_text_with_transactions() {
    let b = block_at(7, vec!["a", "b"], "prev", 42);
    assert_eq!(
        b.get_json(),
        "{\"index\":7,\"transactions\":[\"a\",\"b\"],\"timestamp\":42,\"previous_hash\":\"prev\",\"hash\":\"0\",\"nonce\":0}"
    );
}

#[test]
fn known_digest_of_fixed_block() {
    let mut b = block_at(0, vec![], "0", 0);
    assert_eq!(
        b.compute_hash(),
        "810f5296baf17e8d4a42f5385b4a5bb42ce2676b0e113879684194a288578de8"
    );
}

#[test]
fn digest_is_deterministic() {
    let mut b = block_at(11, vec!["pay alice 5", "pay bob 7"], "feed", 1234567);
    let first = b.compute_hash();
    let second = b.compute_hash();
    assert_eq!(first, second);
}

#[test]
fn digest_does_not_mutate_the_block() {
    let mut b = block_at(11, vec!["pay alice 5"], "feed", 1234567);
    let json_before = b.get_json();
    let _ = b.compute_hash();
    assert_eq!(b.get_json(), json_before);
    assert_eq!(b.hash, "0");
}

#[test]
fn digest_shape_is_64_lowercase_hex() {
    let mut b = block_at(9000, vec!["x", "", "\\\"tricky\""], "p", u64::MAX);
    let d = b.compute_hash();
    assert_eq!(d.len(), 64);
    assert!(d.chars().all(|c| c.is_ascii_hexdigit() && !c.is_ascii_uppercase()));
}

#[test]
fn appending_a_transaction_changes_the_digest() {
    let mut a = block_at(1, vec!["a"], "p", 5);
    let mut b = block_at(1, vec!["a", "b"], "p", 5);
    assert_ne!(a.compute_hash(), b.compute_hash());
}

#[test]
fn incrementing_the_nonce_changes_the_digest() {
    let mut a = block_at(1, vec!["a"], "p", 5);
    let mut b = block_at(1, vec!["a"], "p", 5);
    b.nonce += 1;
    assert_ne!(a.compute_hash(), b.compute_hash());
}

#[test]
fn transaction_order_changes_the_digest() {
    let mut ab = block_at(7, vec!["a", "b"], "prev", 42);
    let mut ba = block_at(7, vec!["b", "a"], "prev", 42);
    let dab = ab.compute_hash();
    let dba = ba.compute_hash();
    assert_ne!(dab, dba);
    assert_eq!(dab, "9f99a37d3eb4d6014ae7afee2132c1db0f463746f23a950108e164ac03a13725");
    assert_eq!(dba, "571f800fd21aabdc3680475c6d9d1cf8b63e539be7c2a3938db4f4be347bccaa");
}

#[test]
fn round_trip_plain() {
    let b = block_at(7, vec!["a", "b"], "prev", 42);
    let text = b.get_json();
    let parsed = parse_block(&text).expect("canonical text must parse");
    assert_eq!(parsed.index, b.index);
    assert_eq!(parsed.transactions, b.transactions);
    assert_eq!(parsed.timestamp, b.timestamp);
    assert_eq!(parsed.previous_hash, b.previous_hash);
    assert_eq!(parsed.hash, b.hash);
    assert_eq!(parsed.nonce, b.nonce);
    assert_eq!(parsed.get_json(), text);
}

#[test]
fn round_trip_with_escapes_and_unicode() {
    let b = block_at(
        u32::MAX,
        vec!["say \"hi\"", "back\\slash", "naïve 日本語", ""],
        "h\"\\x",
        u64::MAX,
    );
    let text = b.get_json();
    let parsed = parse_block(&text).expect("canonical text must parse");
    assert_eq!(parsed.transactions, b.transactions);
    assert_eq!(parsed.previous_hash, b.previous_hash);
    assert_eq!(parsed.get_json(), text);
}

#[test]
fn parse_rejects_malformed_text() {
    assert!(parse_block("").is_none());
    assert!(parse_block("{}").is_none());
    assert!(parse_block("{\"index\":x}").is_none());
    assert!(parse_block("{\"index\":0,\"transactions\":[],\"timestamp\":0").is_none());
    let mut text = block_at(1, vec!["a"], "p", 5).get_json();
    text.push(' ');
    assert!(parse_block(&text).is_none());
}

#[test]
fn parse_rejects_oversized_numbers() {
    assert!(parse_block(
        "{\"index\":4294967296,\"transactions\":[],\"timestamp\":0,\"previous_hash\":\"0\",\"hash\":\"0\",\"nonce\":0}"
    )
    .is_none());
    assert!(parse_block(
        "{\"index\":0,\"transactions\":[],\"timestamp\":99999999999999999999999,\"previous_hash\":\"0\",\"hash\":\"0\",\"nonce\":0}"
    )
    .is_none());
}

#[test]
fn parse_of_handwritten_canonical_text() {
    let text = "{\"index\":2,\"transactions\":[\"x\",\"y\\\"z\"],\"timestamp\":9,\"previous_hash\":\"ab\",\"hash\":\"cd\",\"nonce\":3}";
    let b = parse_block(text).expect("well-formed text must parse");
    assert_eq!(b.index, 2);
    assert_eq!(b.transactions, vec!["x".to_string(), "y\"z".to_string()]);
    assert_eq!(b.timestamp, 9);
    assert_eq!(b.previous_hash, "ab");
    assert_eq!(b.hash, "cd");
    assert_eq!(b.nonce, 3);
    assert_eq!(b.get_json(), text);
}

#[test]
fn canonical_text_is_valid_json() {
    let b = block_at(5, vec!["one", "two \"quoted\""], "prev", 77);
    let text = b.get_json();
    let value: serde_json::Value = serde_json::from_str(&text).expect("must be valid JSON");
    assert_eq!(value["index"].as_u64(), Some(5));
    assert_eq!(value["timestamp"].as_u64(), Some(77));
    assert_eq!(value["previous_hash"].as_str(), Some("prev"));
    assert_eq!(value["hash"].as_str(), Some("0"));
    assert_eq!(value["nonce"].as_u64(), Some(0));
    let txs = value["transactions"].as_array().expect("list expected");
    assert_eq!(txs.len(), 2);
    assert_eq!(txs[0].as_str(), Some("one"));
    assert_eq!(txs[1].as_str(), Some("two \"quoted\""));
}

#[test]
fn stored_hash_is_part_of_compute_hash() {
    // The digest covers the whole record, the stored hash text included.
    let mut a = block_at(1, vec!["a"], "p", 5);
    let mut b = block_at(1, vec!["a"], "p", 5);
    b.hash = "deadbeef".to_string();
    assert_ne!(a.compute_hash(), b.compute_hash());
}

#[test]
fn content_hash_ignores_stored_hash() {
    let a = block_at(1, vec!["a"], "p", 5);
    let mut b = block_at(1, vec!["a"], "p", 5);
    b.hash = "deadbeef".to_string();
    assert_eq!(a.compute_content_hash(), b.compute_content_hash());
}

#[test]
fn finalize_stores_the_content_digest_and_is_stable() {
    let mut b = block_at(2, vec!["x", "y"], "prev", 99);
    let expected = b.compute_content_hash();
    b.finalize();
    assert_eq!(b.hash, expected);
    b.finalize();
    assert_eq!(b.hash, expected);
}

#[test]
fn fresh_block_content_hash_equals_compute_hash() {
    // On a fresh block the stored hash text is already the placeholder, so
    // the two digests coincide.
    let mut b = block_at(0, vec![], "0", 0);
    let whole = b.compute_hash();
    assert_eq!(b.compute_content_hash(), whole);
}

#[test]
fn timestamp_from_clock_is_plausible() {
    let b = Block::new(0, vec![], "0".to_string());
    // 2020-01-01 in epoch seconds; the sandbox clock stands after that day.
    assert!(b.timestamp > 1_577_836_800);
}

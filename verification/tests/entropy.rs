use lib::entropy::Counter;

#[test]
fn streaming_equals_one_shot() {
    let data: Vec<u8> = (0..4096u32).map(|i| (i * 31 % 251) as u8).collect();
    let mut streamed = Counter::new();
    for chunk in data.chunks(7) {
        streamed.update(chunk);
    }
    let mut whole = Counter::new();
    whole.update(&data);
    assert_eq!(streamed.bytes_seen(), data.len() as u64);
    assert_eq!(whole.bytes_seen(), data.len() as u64);
    for b in 0..=255u8 {
        assert_eq!(streamed.count(b), whole.count(b));
        let expected = data.iter().filter(|&&x| x == b).count() as u64;
        assert_eq!(whole.count(b), expected);
    }
}

#[test]
fn fresh_counter_is_empty() {
    let c = Counter::new();
    assert_eq!(c.bytes_seen(), 0);
    assert_eq!(c.count(0), 0);
    assert_eq!(c.count(255), 0);
}

#[test]
fn default_counter_is_fresh() {
    let mut c = Counter::default();
    assert_eq!(c.bytes_seen(), 0);
    c.update(b"aab");
    assert_eq!(c.bytes_seen(), 3);
    assert_eq!(c.count(b'a'), 2);
    assert_eq!(c.count(b'b'), 1);
    assert_eq!(c.count(b'c'), 0);
}

use lib::sha256::Sha256;

fn hex_of(data: &[u8]) -> String {
    let mut h = Sha256::new();
    h.update(data);
    h.finish_hex()
}

#[test]
fn sha256_known_vectors() {
    assert_eq!(
        hex_of(b""),
        "e3b0c44298fc1c149afbf4c8996fb92427ae41e4649b934ca495991b7852b855"
    );
    assert_eq!(
        hex_of(b"abc"),
        "ba7816bf8f01cfea414140de5dae2223b00361a396177a9cb410ff61f20015ad"
    );
    assert_eq!(
        hex_of(b"abcdbcdecdefdefgefghfghighijhijkijkljklmklmnlmnomnopnopq"),
        "248d6a61d20638b8e5c026930c3e6039a33ce45964ff2167f6ecedd419db06c1"
    );
    assert_eq!(
        hex_of(b"foo"),
        "2c26b46b68ffc68ff99b453c1d30413413422d706483bfa0f98a5e886266e7ae"
    );
}

#[test]
fn sha256_million_a_in_chunks() {
    let mut h = Sha256::new();
    let chunk = [b'a'; 1000];
    for _ in 0..1000 {
        h.update(&chunk);
    }
    assert_eq!(h.bytes_hashed(), 1_000_000);
    assert_eq!(
        h.finish_hex(),
        "cdc76e5c9914fb9281a1c7e284d73e67f1809a48a497200e046d39ccc7112cd0"
    );
}

#[test]
fn sha256_chunking_does_not_change_the_digest() {
    let data: Vec<u8> = (0..1000u32).map(|i| (i * 7 % 256) as u8).collect();
    for size in [1usize, 7, 55, 56, 63, 64, 65, 128, 999] {
        let mut h = Sha256::new();
        for c in data.chunks(size) {
            h.update(c);
        }
        assert_eq!(h.finish_hex(), hex_of(&data));
    }
    for len in 54..=130usize {
        assert_eq!(hex_of(&data[..len]).len(), 64);
    }
}

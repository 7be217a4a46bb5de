use csv_verify::{hash_pair, sha256, short_hex};

fn hex(bytes: &[u8]) -> String {
    bytes.iter().map(|b| format!("{:02x}", b)).collect()
}

#[test]
fn sha256_of_known_messages() {
    assert_eq!(
        hex(&sha256(b"")),
        "e3b0c44298fc1c149afbf4c8996fb92427ae41e4649b934ca495991b7852b855"
    );
    assert_eq!(
        hex(&sha256(b"abc")),
        "ba7816bf8f01cfea414140de5dae2223b00361a396177a9cb410ff61f20015ad"
    );
    assert_eq!(
        hex(&sha256(b"a,b\n")),
        "5be08c9684a1d25efcee09318204824278b08bbfb4aef973ffefd0b9d7478313"
    );
}

#[test]
fn hash_pair_hashes_left_then_right() {
    let left = sha256(b"left");
    let right = sha256(b"right");
    assert_eq!(
        hex(&hash_pair(&left, &right)),
        "2a9870f5b7eb1cd732d95224cfea825a7b8772136cb497b20d2e3c612dfc90fe"
    );
    assert_eq!(
        hex(&hash_pair(&right, &left)),
        "b0b3e798e388f85158a9eb6c5053b81e76aa77e7a780d21cebb8e127517227dc"
    );
    let mut both = Vec::new();
    both.extend_from_slice(&left);
    both.extend_from_slice(&right);
    assert_eq!(hash_pair(&left, &right), sha256(&both));
}

#[test]
fn short_hex_cuts_the_text() {
    let hash = sha256(b"abc");
    assert_eq!(short_hex(&hash, 0), "");
    assert_eq!(short_hex(&hash, 1), "b");
    assert_eq!(short_hex(&hash, 10), "ba7816bf8f");
    assert_eq!(short_hex(&hash, 63).len(), 63);
    let whole = hex(&hash);
    assert_eq!(short_hex(&hash, 64), whole);
    assert_eq!(short_hex(&hash, usize::MAX), whole);
    assert!(whole.starts_with(&short_hex(&hash, 17)));
}

use avt::vt::Vt;

/// A small linear congruential generator, so that the input is arbitrary
/// but the same on every run.
fn pseudo_random_bytes(n: usize, mut seed: u64) -> Vec<u8> {
    let mut bytes = Vec::with_capacity(n);

    for _ in 0..n {
        seed = seed.wrapping_mul(6364136223846793005).wrapping_add(1442695040888963407);
        bytes.push((seed >> 33) as u8);
    }

    bytes
}

#[test]
fn feed_str() {
    let bytes = pseudo_random_bytes(1024 * 512, 42);
    let mut vt = Vt::new(10, 4);
    let str = String::from_utf8_lossy(&bytes);
    vt.feed_str(&str);
    // no assertions - just check it doesn't panic on arbitrary input
}

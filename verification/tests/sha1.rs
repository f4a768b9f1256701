use crypto::hash::{Hashable, Hasher};
use crypto::sha1::SHA1;

fn to_hex(data: &[u8]) -> String {
    data.iter().map(|c| format!("{:02x}", c)).collect()
}

#[test]
fn sha1_test_simple() {
    let mut m = SHA1::new();

    let tests = [
        ("The quick brown fox jumps over the lazy dog", "2fd4e1c67a2d28fced849ee1bb76e7391b93eb12"),
        ("The quick brown fox jumps over the lazy cog", "de9f2c7fd25e1b3afad3e85a0bd17d9b100db4b3"),
        ("", "da39a3ee5e6b4b0d3255bfef95601890afd80709"),
    ];

    for &(s, h) in tests.iter() {
        let data = s.as_bytes();

        m.reset();
        m.update(data);

        let hh = to_hex(&m.digest());

        assert_eq!(hh.len(), h.len());
        assert_eq!(hh, h);
    }
}

#[test]
fn sha1_reference_vectors() {
    // The second message is 56 bytes, so its finalization takes the
    // two-block path.
    let tests = [
        ("abc", "a9993e364706816aba3e25717850c26c9cd0d89d"),
        (
            "abcdbcdecdefdefgefghfghighijhijkijkljklmklmnlmnomnopnopq",
            "84983e441c3bd26ebaae4aa1f95129e5e54670f1",
        ),
    ];

    for &(s, h) in tests.iter() {
        let mut m = SHA1::new();
        m.update(s.as_bytes());
        assert_eq!(to_hex(&m.digest()), h);
    }
}

#[test]
fn sha1_chunking_invariance() {
    let data = "The quick brown fox jumps over the lazy dog".as_bytes();
    let mut whole = SHA1::new();
    whole.update(data);
    let expected = whole.digest();

    for split in [0, 1, 7, 20, data.len()] {
        let (a, b) = data.split_at(split);
        let mut m = SHA1::new();
        m.update(a);
        m.update(b);
        assert_eq!(m.digest(), expected);
    }

    // one byte at a time, across the block boundary
    let long = [0xc3u8; 150];
    let mut whole = SHA1::new();
    whole.update(&long);
    let mut piecewise = SHA1::new();
    for b in long.iter() {
        piecewise.update(&[*b]);
    }
    assert_eq!(piecewise.digest(), whole.digest());
}

#[test]
fn sha1_reset_restores_initial_state() {
    let mut m = SHA1::new();
    m.update(b"residue that must not leak");
    m.reset();
    m.update(b"abc");
    assert_eq!(to_hex(&m.digest()), "a9993e364706816aba3e25717850c26c9cd0d89d");
}

#[test]
fn sha1_digest_does_not_mutate() {
    let mut m = SHA1::new();
    m.update(b"The quick brown fox ");
    let first = m.digest();
    let second = m.digest();
    assert_eq!(first, second);

    // reading an intermediate digest leaves the hasher streamable
    m.update(b"jumps over the lazy dog");
    assert_eq!(to_hex(&m.digest()), "2fd4e1c67a2d28fced849ee1bb76e7391b93eb12");
}

#[test]
fn sha1_sizes() {
    let m = SHA1::new();
    assert_eq!(m.output_size_bits(), 160);
    assert_eq!(m.block_size_bits(), 512);
    assert_eq!(m.output_size(), 20);
    assert_eq!(m.block_size(), 64);
    assert_eq!(m.digest().len(), 20);

    let mut m = SHA1::new();
    m.update(b"any input at all");
    assert_eq!(m.digest().len(), 20);
}

#[test]
fn sha1_output_leaves_rest_of_buffer() {
    let mut m = SHA1::new();
    m.update(b"abc");
    let mut out = vec![0x5eu8; 32];
    m.output(&mut out);
    assert_eq!(to_hex(&out[..20]), "a9993e364706816aba3e25717850c26c9cd0d89d");
    assert_eq!(&out[20..], &[0x5eu8; 12]);
}

#[test]
fn sha1_hashable_to_hash() {
    let mut m = SHA1::new();
    m.update(b"residue that to_hash must clear");
    let data: &[u8] = b"abc";
    let digest = data.to_hash(&mut m);
    assert_eq!(to_hex(&digest), "a9993e364706816aba3e25717850c26c9cd0d89d");
}

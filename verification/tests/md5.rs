use crypto::hash::{Hashable, Hasher};
use crypto::md5::MD5;

fn hex_string(data: &[u8]) -> String {
    data.iter().map(|c| format!("{:02x}", c)).collect()
}

#[test]
fn md5_test_simple() {
    let tests = [
        ("The quick brown fox jumps over the lazy dog", "9e107d9d372bb6826bd81d3542a419d6"),
        ("The quick brown fox jumps over the lazy dog.", "e4d909c290d0fb1ca068ffaddf22cbd0"),
        ("", "d41d8cd98f00b204e9800998ecf8427e"),
    ];

    let mut m = MD5::new();

    for &(s, h) in tests.iter() {
        let data = s.as_bytes();

        m.reset();
        m.update(data);

        let hh = hex_string(&m.digest());

        assert_eq!(hh.len(), h.len());
        assert_eq!(hh, h);
    }
}

#[test]
fn md5_reference_vectors() {
    // The last two messages buffer 62 and 80 % 64 == 16 bytes at the end,
    // covering both the one-block and the two-block finalization paths.
    let tests = [
        ("abc", "900150983cd24fb0d6963f7d28e17f72"),
        ("message digest", "f96b697d7cb7938d525a2f31aaf161d0"),
        ("abcdefghijklmnopqrstuvwxyz", "c3fcd3d76192e4007dfb496cca67e13b"),
        (
            "ABCDEFGHIJKLMNOPQRSTUVWXYZabcdefghijklmnopqrstuvwxyz0123456789",
            "d174ab98d277d9f5a5611c2c9f419d9f",
        ),
        (
            "12345678901234567890123456789012345678901234567890123456789012345678901234567890",
            "57edf4a22be3c955ac49da2e2107b67a",
        ),
    ];

    for &(s, h) in tests.iter() {
        let mut m = MD5::new();
        m.update(s.as_bytes());
        assert_eq!(hex_string(&m.digest()), h);
    }
}

#[test]
fn md5_chunking_invariance() {
    let data = "The quick brown fox jumps over the lazy dog".as_bytes();
    let mut whole = MD5::new();
    whole.update(data);
    let expected = whole.digest();

    for split in [0, 1, 7, 20, data.len()] {
        let (a, b) = data.split_at(split);
        let mut m = MD5::new();
        m.update(a);
        m.update(b);
        assert_eq!(m.digest(), expected);
    }

    // one byte at a time, across the block boundary
    let long = [0x5au8; 150];
    let mut whole = MD5::new();
    whole.update(&long);
    let mut piecewise = MD5::new();
    for b in long.iter() {
        piecewise.update(&[*b]);
    }
    assert_eq!(piecewise.digest(), whole.digest());
}

#[test]
fn md5_reset_restores_initial_state() {
    let mut m = MD5::new();
    m.update(b"residue that must not leak");
    m.reset();
    m.update(b"abc");
    assert_eq!(hex_string(&m.digest()), "900150983cd24fb0d6963f7d28e17f72");
}

#[test]
fn md5_digest_does_not_mutate() {
    let mut m = MD5::new();
    m.update(b"The quick brown fox ");
    let first = m.digest();
    let second = m.digest();
    assert_eq!(first, second);

    // reading an intermediate digest leaves the hasher streamable
    m.update(b"jumps over the lazy dog");
    assert_eq!(hex_string(&m.digest()), "9e107d9d372bb6826bd81d3542a419d6");
}

#[test]
fn md5_sizes() {
    let m = MD5::new();
    assert_eq!(m.output_size_bits(), 128);
    assert_eq!(m.block_size_bits(), 512);
    assert_eq!(m.output_size(), 16);
    assert_eq!(m.block_size(), 64);
    assert_eq!(m.digest().len(), 16);

    let mut m = MD5::new();
    m.update(b"any input at all");
    assert_eq!(m.digest().len(), 16);
}

#[test]
fn md5_output_leaves_rest_of_buffer() {
    let mut m = MD5::new();
    m.update(b"abc");
    let mut out = vec![0xabu8; 24];
    m.output(&mut out);
    assert_eq!(hex_string(&out[..16]), "900150983cd24fb0d6963f7d28e17f72");
    assert_eq!(&out[16..], &[0xabu8; 8]);
}

#[test]
fn md5_hashable_to_hash() {
    let mut m = MD5::new();
    m.update(b"residue that to_hash must clear");
    let data: &[u8] = b"abc";
    let digest = data.to_hash(&mut m);
    assert_eq!(hex_string(&digest), "900150983cd24fb0d6963f7d28e17f72");
}

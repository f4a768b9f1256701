use crypto::base58::to_base58;

#[test]
fn base58_test_simple() {
    let tests = [
        ("hello world".as_bytes(), "StV1DL6CwTryKyV"),
        ("Hello World".as_bytes(), "JxF12TrwUP45BMd"),
    ];

    for &(s, n) in tests.iter() {
        let r = to_base58(s);

        assert_eq!(r.as_str(), n);
    }
}

#[test]
fn base58_leading_zero_bytes() {
    assert_eq!(to_base58("\0\0\0hello world".as_bytes()).as_str(), "111StV1DL6CwTryKyV");
    assert_eq!(to_base58(&[0u8]).as_str(), "1");
    assert_eq!(to_base58(&[0u8, 0, 0]).as_str(), "111");
}

#[test]
fn base58_empty_input() {
    assert_eq!(to_base58(&[]).as_str(), "1");
}

#[test]
fn base58_single_values() {
    assert_eq!(to_base58(&[0x00, 0x01]).as_str(), "12");
    assert_eq!(to_base58(&[57u8]).as_str(), "z");
    assert_eq!(to_base58(&[58u8]).as_str(), "21");
    assert_eq!(to_base58(&[255u8]).as_str(), "5Q");
}

#[test]
fn base58_alphabet_only() {
    let alphabet = "123456789ABCDEFGHJKLMNPQRSTUVWXYZabcdefghijkmnopqrstuvwxyz";
    let inputs: [&[u8]; 4] = [b"", b"\0\0weird\xff\xfe", b"hello world", b"\xde\xad\xbe\xef"];
    for input in inputs.iter() {
        let r = to_base58(input);
        assert!(!r.is_empty());
        for c in r.chars() {
            assert!(alphabet.contains(c));
        }
    }
}

#[test]
fn base58_deterministic() {
    let data = b"determinism check";
    assert_eq!(to_base58(data), to_base58(data));
}

//! The Base58 codec: a byte buffer read as a big-endian integer, encoded by
//! repeated division by 58, with one `'1'` prepended per leading zero byte.

use vstd::prelude::*;

verus! {

/// Symbol `d` of the Base58 alphabet
/// `123456789ABCDEFGHJKLMNPQRSTUVWXYZabcdefghijkmnopqrstuvwxyz`, as its
/// ASCII byte.
#[verifier::opaque]
pub open spec fn b58_byte_of(d: int) -> u8 {
    if d == 0 {
        49
    } else if d == 1 {
        50
    } else if d == 2 {
        51
    } else if d == 3 {
        52
    } else if d == 4 {
        53
    } else if d == 5 {
        54
    } else if d == 6 {
        55
    } else if d == 7 {
        56
    } else if d == 8 {
        57
    } else if d == 9 {
        65
    } else if d == 10 {
        66
    } else if d == 11 {
        67
    } else if d == 12 {
        68
    } else if d == 13 {
        69
    } else if d == 14 {
        70
    } else if d == 15 {
        71
    } else if d == 16 {
        72
    } else if d == 17 {
        74
    } else if d == 18 {
        75
    } else if d == 19 {
        76
    } else if d == 20 {
        77
    } else if d == 21 {
        78
    } else if d == 22 {
        80
    } else if d == 23 {
        81
    } else if d == 24 {
        82
    } else if d == 25 {
        83
    } else if d == 26 {
        84
    } else if d == 27 {
        85
    } else if d == 28 {
        86
    } else if d == 29 {
        87
    } else if d == 30 {
        88
    } else if d == 31 {
        89
    } else if d == 32 {
        90
    } else if d == 33 {
        97
    } else if d == 34 {
        98
    } else if d == 35 {
        99
    } else if d == 36 {
        100
    } else if d == 37 {
        101
    } else if d == 38 {
        102
    } else if d == 39 {
        103
    } else if d == 40 {
        104
    } else if d == 41 {
        105
    } else if d == 42 {
        106
    } else if d == 43 {
        107
    } else if d == 44 {
        109
    } else if d == 45 {
        110
    } else if d == 46 {
        111
    } else if d == 47 {
        112
    } else if d == 48 {
        113
    } else if d == 49 {
        114
    } else if d == 50 {
        115
    } else if d == 51 {
        116
    } else if d == 52 {
        117
    } else if d == 53 {
        118
    } else if d == 54 {
        119
    } else if d == 55 {
        120
    } else if d == 56 {
        121
    } else {
        122
    }
}

/// Exec counterpart of [`b58_byte_of`]; every alphabet byte is ASCII.
fn b58_byte_at(d: u8) -> (r: u8)
    requires
        d < 58,
    ensures
        r == b58_byte_of(d as int),
        r < 128,
{
    proof {
        reveal(b58_byte_of);
    }
    if d == 0 {
        49
    } else if d == 1 {
        50
    } else if d == 2 {
        51
    } else if d == 3 {
        52
    } else if d == 4 {
        53
    } else if d == 5 {
        54
    } else if d == 6 {
        55
    } else if d == 7 {
        56
    } else if d == 8 {
        57
    } else if d == 9 {
        65
    } else if d == 10 {
        66
    } else if d == 11 {
        67
    } else if d == 12 {
        68
    } else if d == 13 {
        69
    } else if d == 14 {
        70
    } else if d == 15 {
        71
    } else if d == 16 {
        72
    } else if d == 17 {
        74
    } else if d == 18 {
        75
    } else if d == 19 {
        76
    } else if d == 20 {
        77
    } else if d == 21 {
        78
    } else if d == 22 {
        80
    } else if d == 23 {
        81
    } else if d == 24 {
        82
    } else if d == 25 {
        83
    } else if d == 26 {
        84
    } else if d == 27 {
        85
    } else if d == 28 {
        86
    } else if d == 29 {
        87
    } else if d == 30 {
        88
    } else if d == 31 {
        89
    } else if d == 32 {
        90
    } else if d == 33 {
        97
    } else if d == 34 {
        98
    } else if d == 35 {
        99
    } else if d == 36 {
        100
    } else if d == 37 {
        101
    } else if d == 38 {
        102
    } else if d == 39 {
        103
    } else if d == 40 {
        104
    } else if d == 41 {
        105
    } else if d == 42 {
        106
    } else if d == 43 {
        107
    } else if d == 44 {
        109
    } else if d == 45 {
        110
    } else if d == 46 {
        111
    } else if d == 47 {
        112
    } else if d == 48 {
        113
    } else if d == 49 {
        114
    } else if d == 50 {
        115
    } else if d == 51 {
        116
    } else if d == 52 {
        117
    } else if d == 53 {
        118
    } else if d == 54 {
        119
    } else if d == 55 {
        120
    } else if d == 56 {
        121
    } else {
        122
    }
}

/// The buffer read as a big-endian arbitrary-precision integer.
pub open spec fn be_val(s: Seq<u8>) -> nat
    decreases s.len(),
{
    if s.len() == 0 {
        0
    } else {
        (be_val(s.drop_last()) * 256 + s.last()) as nat
    }
}

/// The Base58 digits of `n`, most significant first, as alphabet bytes;
/// zero has no digits.
pub open spec fn b58_digits(n: nat) -> Seq<u8>
    decreases n,
{
    if n == 0 {
        Seq::empty()
    } else {
        b58_digits(n / 58) + seq![b58_byte_of((n % 58) as int)]
    }
}

/// How many zero bytes the buffer starts with.
pub open spec fn lead_zero_count(s: Seq<u8>) -> nat
    decreases s.len(),
{
    if s.len() == 0 || s[0] != 0 {
        0
    } else {
        (1 + lead_zero_count(s.skip(1))) as nat
    }
}

/// The encoding of a buffer, as alphabet bytes: one `'1'` per leading zero
/// byte, then the digits of its value; the empty buffer encodes as the
/// single digit for zero.
pub open spec fn b58_bytes(s: Seq<u8>) -> Seq<u8> {
    if s.len() == 0 {
        seq![49u8]
    } else {
        Seq::new(lead_zero_count(s), |i: int| 49u8) + b58_digits(be_val(s))
    }
}

/// The encoding of a buffer, as the characters of the returned string.
pub open spec fn spec_to_base58(s: Seq<u8>) -> Seq<char> {
    b58_bytes(s).map_values(|b: u8| b as char)
}

/// Symbol `d` of the alphabet, as a character.
pub open spec fn b58_char_of(d: int) -> char {
    b58_byte_of(d) as char
}

/// `c` is one of the 58 alphabet symbols.
pub open spec fn is_b58_char(c: char) -> bool {
    exists|d: int| 0 <= d < 58 && c == b58_char_of(d)
}

/// Every digit byte of `n` is an alphabet byte.
proof fn lemma_b58_digits_alphabet(n: nat, i: int)
    requires
        0 <= i < b58_digits(n).len(),
    ensures
        exists|d: int| 0 <= d < 58 && b58_digits(n)[i] == b58_byte_of(d),
    decreases n,
{
    if n != 0 {
        if i < b58_digits(n / 58).len() {
            lemma_b58_digits_alphabet(n / 58, i);
            let d = choose|d: int| 0 <= d < 58 && b58_digits(n / 58)[i] == b58_byte_of(d);
            assert(b58_digits(n)[i] == b58_byte_of(d));
        } else {
            let d = (n % 58) as int;
            assert(b58_digits(n)[i] == b58_byte_of(d));
        }
    }
}

/// Every character of an encoding is one of the 58 alphabet symbols: the
/// encoder can produce nothing outside the alphabet.
pub proof fn lemma_base58_alphabet(data: Seq<u8>, i: int)
    requires
        0 <= i < spec_to_base58(data).len(),
    ensures
        is_b58_char(spec_to_base58(data)[i]),
{
    let bs = b58_bytes(data);
    assert(spec_to_base58(data)[i] == bs[i] as char);
    if data.len() == 0 {
        reveal(b58_byte_of);
        assert(bs[i] == b58_byte_of(0));
        assert(spec_to_base58(data)[i] == b58_char_of(0));
    } else {
        let z = lead_zero_count(data) as int;
        if i < z {
            reveal(b58_byte_of);
            assert(bs[i] == b58_byte_of(0));
            assert(spec_to_base58(data)[i] == b58_char_of(0));
        } else {
            lemma_b58_digits_alphabet(be_val(data), i - z);
            let d = choose|d: int|
                0 <= d < 58 && b58_digits(be_val(data))[i - z] == b58_byte_of(d);
            assert(bs[i] == b58_byte_of(d));
            assert(spec_to_base58(data)[i] == b58_char_of(d));
        }
    }
}

/// Appending one byte multiplies the value by 256 and adds it.
proof fn lemma_be_val_push(s: Seq<u8>, x: u8)
    ensures
        be_val(s.push(x)) == be_val(s) * 256 + x,
{
    assert(s.push(x).drop_last() =~= s);
    assert(s.push(x).last() == x);
}

/// A value is zero exactly when every byte is zero.
proof fn lemma_be_val_zero(s: Seq<u8>)
    ensures
        be_val(s) == 0 <==> (forall|i: int| 0 <= i < s.len() ==> s[i] == 0),
    decreases s.len(),
{
    if s.len() > 0 {
        lemma_be_val_zero(s.drop_last());
        if be_val(s) == 0 {
            assert forall|i: int| 0 <= i < s.len() implies s[i] == 0 by {
                if i < s.len() - 1 {
                    assert(s[i] == s.drop_last()[i]);
                } else {
                    assert(s[i] == s.last());
                }
            }
        }
        if forall|i: int| 0 <= i < s.len() ==> s[i] == 0 {
            assert forall|i: int| 0 <= i < s.drop_last().len() implies s.drop_last()[i] == 0 by {
                assert(s.drop_last()[i] == s[i]);
            }
            assert(be_val(s.drop_last()) == 0);
            assert(s.last() == s[s.len() - 1]);
        }
    }
}

/// Relies on `String::from_utf8`: a buffer of ASCII bytes decodes to the
/// string whose characters have exactly those code points, in order.
#[verifier::external_body]
fn ascii_to_string(bytes: Vec<u8>) -> (r: String)
    requires
        forall|i: int| 0 <= i < bytes@.len() ==> bytes@[i] < 128,
    ensures
        r@ == bytes@.map_values(|b: u8| b as char),
{
    String::from_utf8(bytes).unwrap_or_default()
}

/// Divide the big-endian number by 58: the quotient keeps the byte length,
/// and the remainder is the next digit.
fn divmod58(v: &Vec<u8>) -> (r: (Vec<u8>, u8))
    ensures
        r.0@.len() == v@.len(),
        be_val(r.0@) * 58 + r.1 == be_val(v@),
        r.1 < 58,
{
    let n = v.len();
    let mut q: Vec<u8> = Vec::new();
    let mut rem: u16 = 0;
    let mut i: usize = 0;
    while i < n
        invariant
            i <= n,
            n == v@.len(),
            q@.len() == i,
            rem < 58,
            be_val(q@) * 58 + rem == be_val(v@.take(i as int)),
        decreases n - i,
    {
        let ghost q_old = q@;
        let ghost rem_old = rem;
        let cur: u16 = rem * 256 + v[i] as u16;
        let qb: u8 = (cur / 58) as u8;
        rem = cur % 58;
        q.push(qb);
        proof {
            lemma_be_val_push(q_old, qb);
            assert(v@.take(i as int + 1).drop_last() =~= v@.take(i as int));
            assert(be_val(v@.take(i as int + 1)) == be_val(v@.take(i as int)) * 256 + v@[i as int]);
            assert(qb * 58 + rem == rem_old * 256 + v@[i as int]);
        }
        i += 1;
    }
    proof {
        assert(v@.take(n as int) =~= v@);
    }
    (q, rem as u8)
}

/// Whether the big-endian number is zero, that is, every byte is zero.
fn is_zero(v: &Vec<u8>) -> (r: bool)
    ensures
        r <==> be_val(v@) == 0,
{
    let n = v.len();
    let mut i: usize = 0;
    while i < n
        invariant
            i <= n,
            n == v@.len(),
            forall|t: int| 0 <= t < i ==> v@[t] == 0,
        decreases n - i,
    {
        if v[i] != 0 {
            proof {
                lemma_be_val_zero(v@);
            }
            return false;
        }
        i += 1;
    }
    proof {
        lemma_be_val_zero(v@);
    }
    true
}

/// Encode a byte buffer in Base58: read it as a big-endian integer, emit
/// one alphabet character per division by 58, and prepend `'1'` for every
/// leading zero byte; the empty buffer encodes as `"1"`.
pub fn to_base58(data: &[u8]) -> (r: String)
    ensures
        r@ == spec_to_base58(data@),
{
    let n = data.len();
    if n == 0 {
        let mut res: Vec<u8> = Vec::new();
        res.push(49);
        proof {
            assert(res@ =~= b58_bytes(data@));
        }
        return ascii_to_string(res);
    }
    // the buffer as a mutable big-endian number
    let mut cur: Vec<u8> = Vec::new();
    let mut i: usize = 0;
    while i < n
        invariant
            i <= n,
            n == data@.len(),
            cur@ == data@.take(i as int),
        decreases n - i,
    {
        cur.push(data[i]);
        proof {
            assert(cur@ =~= data@.take(i as int + 1));
        }
        i += 1;
    }
    proof {
        assert(cur@ =~= data@);
    }
    // digits of the value, least significant first
    let ghost orig_val = be_val(data@);
    let mut digits: Vec<u8> = Vec::new();
    let mut nonzero = !is_zero(&cur);
    while nonzero
        invariant
            nonzero <==> be_val(cur@) != 0,
            b58_digits(orig_val) == b58_digits(be_val(cur@)) + digits@.reverse(),
            forall|t: int| 0 <= t < digits@.len() ==> digits@[t] < 128,
        decreases be_val(cur@),
    {
        let ghost val = be_val(cur@);
        let (q, rem) = divmod58(&cur);
        let digit = b58_byte_at(rem);
        proof {
            vstd::arithmetic::div_mod::lemma_fundamental_div_mod_converse(
                val as int,
                58,
                be_val(q@) as int,
                rem as int,
            );
            assert(be_val(q@) == val / 58 && rem == val % 58);
            assert(b58_digits(val) == b58_digits(val / 58) + seq![b58_byte_of(rem as int)]);
            assert((digits@.push(digit)).reverse() =~= seq![digit] + digits@.reverse());
            assert(b58_digits(val) + digits@.reverse() =~= b58_digits(be_val(q@)) + (digits@.push(
                digit,
            )).reverse());
        }
        digits.push(digit);
        cur = q;
        nonzero = !is_zero(&cur);
    }
    proof {
        assert(b58_digits(orig_val) == digits@.reverse());
    }
    // leading zero bytes of the input become leading '1' characters
    let mut res: Vec<u8> = Vec::new();
    let mut z: usize = 0;
    while z < n && data[z] == 0
        invariant
            z <= n,
            n == data@.len(),
            forall|t: int| 0 <= t < z ==> data@[t] == 0,
            res@ == Seq::new(z as nat, |i: int| 49u8),
        decreases n - z,
    {
        res.push(49);
        proof {
            assert(res@ =~= Seq::new(z as nat + 1, |i: int| 49u8));
        }
        z += 1;
    }
    proof {
        lemma_lead_zero_prefix(data@, z as int);
        assert(res@ =~= Seq::new(lead_zero_count(data@), |i: int| 49u8));
    }
    let mut t = digits.len();
    while t > 0
        invariant
            t <= digits@.len(),
            res@ == Seq::new(lead_zero_count(data@), |i: int| 49u8) + digits@.reverse().take(
                digits@.len() - t,
            ),
            forall|j: int| 0 <= j < digits@.len() ==> digits@[j] < 128,
        decreases t,
    {
        t -= 1;
        res.push(digits[t]);
        proof {
            assert(res@ =~= Seq::new(lead_zero_count(data@), |i: int| 49u8) + digits@.reverse()
                .take(digits@.len() - t));
        }
    }
    proof {
        assert(digits@.reverse().take(digits@.len() as int) =~= digits@.reverse());
        assert(res@ =~= b58_bytes(data@));
        assert(forall|j: int| 0 <= j < res@.len() ==> res@[j] < 128);
    }
    ascii_to_string(res)
}

/// A run of `z` zero bytes, stopped by the end or a nonzero byte, is
/// exactly the leading-zero count.
proof fn lemma_lead_zero_prefix(s: Seq<u8>, z: int)
    requires
        0 <= z <= s.len(),
        forall|t: int| 0 <= t < z ==> s[t] == 0,
        z < s.len() ==> s[z] != 0,
    ensures
        lead_zero_count(s) == z,
    decreases s.len(),
{
    if s.len() == 0 || s[0] != 0 {
    } else {
        assert(forall|t: int| 0 <= t < z - 1 ==> s.skip(1)[t] == #[trigger] s[t + 1]);
        lemma_lead_zero_prefix(s.skip(1), z - 1);
    }
}

} // verus!

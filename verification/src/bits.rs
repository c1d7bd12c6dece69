//! The bit extractor: a hexadecimal string becomes an ordered sequence of
//! single bits. Byte groups are read from the tail of the string toward its
//! head, each byte is expanded to its 8 bits most-significant first, and the
//! whole concatenation is finally reversed.

use vstd::prelude::*;
use vstd::string::StrSliceExecFns;

use crate::errors::IdenticonError;

verus! {

/// A character drawn from the base-16 alphabet, either case.
pub open spec fn is_hex_digit(c: char) -> bool {
    ('0' as int <= c as int && c as int <= '9' as int)
        || ('a' as int <= c as int && c as int <= 'f' as int)
        || ('A' as int <= c as int && c as int <= 'F' as int)
}

/// The numeric value of a base-16 digit.
pub open spec fn hex_val(c: char) -> int {
    if '0' as int <= c as int && c as int <= '9' as int {
        c as int - '0' as int
    } else if 'a' as int <= c as int && c as int <= 'f' as int {
        c as int - 'a' as int + 10
    } else {
        c as int - 'A' as int + 10
    }
}

/// A hash string is accepted when every character that the byte-pairing scheme
/// reads is a base-16 digit. Pairing walks from the tail, so for an odd-length
/// string the leading character is never read and may be anything.
pub open spec fn valid_hash(s: Seq<char>) -> bool {
    forall|i: int| (s.len() % 2) as int <= i < s.len() ==> is_hex_digit(#[trigger] s[i])
}

/// Byte `i` of the hash: the two characters ending `2 * i` places before the
/// end of the string, read as one base-16 number.
pub open spec fn hash_byte(s: Seq<char>, i: int) -> u16 {
    (hex_val(s[s.len() - 2 * i - 2]) * 16 + hex_val(s[s.len() - 2 * i - 1])) as u16
}

/// The byte sequence of a hash: one byte per two-character group, extracted in
/// reverse group order (the last two characters give byte 0).
pub open spec fn hash_bytes(s: Seq<char>) -> Seq<u16> {
    Seq::new((s.len() / 2) as nat, |i: int| hash_byte(s, i))
}

/// Bit `k` of the low byte of `b`, counting from the most significant
/// (`k == 0` is the 128s place, `k == 7` the units place).
pub open spec fn bit_at(b: u16, k: int) -> u16 {
    (b >> ((7 - k) as u16)) & 1
}

/// The 8 bits of the low byte of `b`, most significant first.
pub open spec fn byte_bits(b: u16) -> Seq<u16> {
    Seq::new(8, |k: int| bit_at(b, k))
}

/// The character a single bit prints as.
pub open spec fn bit_char(b: u16) -> char {
    if b == 1 {
        '1'
    } else {
        '0'
    }
}

/// The 8-character binary expansion of the low byte of `b`.
pub open spec fn byte_bit_chars(b: u16) -> Seq<char> {
    Seq::new(8, |k: int| bit_char(bit_at(b, k)))
}

/// All bytes expanded to their 8 bits and concatenated in byte order.
pub open spec fn bits_of_bytes(bs: Seq<u16>) -> Seq<u16>
    decreases bs.len(),
{
    if bs.len() == 0 {
        Seq::empty()
    } else {
        byte_bits(bs[0]) + bits_of_bytes(bs.drop_first())
    }
}

/// The bit sequence extracted from a hash: bytes from the tail of the string,
/// each expanded most-significant bit first, concatenated, then reversed.
pub open spec fn extracted_bits(s: Seq<char>) -> Seq<u16> {
    bits_of_bytes(hash_bytes(s)).reverse()
}

pub proof fn lemma_bits_of_bytes_len(bs: Seq<u16>)
    ensures
        bits_of_bytes(bs).len() == 8 * bs.len(),
    decreases bs.len(),
{
    if bs.len() > 0 {
        lemma_bits_of_bytes_len(bs.drop_first());
    }
}

proof fn lemma_bits_of_bytes_push(bs: Seq<u16>, b: u16)
    ensures
        bits_of_bytes(bs.push(b)) == bits_of_bytes(bs) + byte_bits(b),
    decreases bs.len(),
{
    if bs.len() == 0 {
        assert(bs.push(b)[0] == b);
        assert(bs.push(b).drop_first() =~= Seq::<u16>::empty());
        assert(bits_of_bytes(Seq::<u16>::empty()) =~= Seq::<u16>::empty());
        assert(bits_of_bytes(bs.push(b)) == byte_bits(bs.push(b)[0]) + bits_of_bytes(
            bs.push(b).drop_first(),
        ));
        assert(bits_of_bytes(bs.push(b)) =~= byte_bits(b));
        assert(bits_of_bytes(bs) + byte_bits(b) =~= byte_bits(b));
    } else {
        assert(bs.push(b).drop_first() =~= bs.drop_first().push(b));
        lemma_bits_of_bytes_push(bs.drop_first(), b);
        assert(bs.push(b)[0] == bs[0]);
        assert(bits_of_bytes(bs.push(b)) =~= bits_of_bytes(bs) + byte_bits(b));
    }
}

/// For an odd-length hash the leading character is outside every two-character
/// group, so dropping it changes nothing: not the validity of the hash, not
/// its bytes, and not its extracted bits.
pub proof fn lemma_odd_length_truncation(s: Seq<char>)
    requires
        s.len() % 2 == 1,
    ensures
        valid_hash(s) <==> valid_hash(s.drop_first()),
        hash_bytes(s) == hash_bytes(s.drop_first()),
        extracted_bits(s) == extracted_bits(s.drop_first()),
{
    let t = s.drop_first();
    assert(t.len() == s.len() - 1);
    assert forall|i: int| 0 <= i < t.len() implies t[i] == s[i + 1] by {}
    assert(hash_bytes(s) =~= hash_bytes(t));
    if valid_hash(s) {
        assert forall|i: int| (t.len() % 2) as int <= i < t.len() implies is_hex_digit(
            #[trigger] t[i],
        ) by {
            assert(t[i] == s[i + 1]);
        }
    }
    if valid_hash(t) {
        assert forall|i: int| (s.len() % 2) as int <= i < s.len() implies is_hex_digit(
            #[trigger] s[i],
        ) by {
            assert(s[i] == t[i - 1]);
        }
    }
}

/// The numeric value of one base-16 character, or `None` where the character
/// is outside the base-16 alphabet.
fn hex_digit_value(c: char) -> (r: Option<u8>)
    ensures
        match r {
            Some(v) => is_hex_digit(c) && v as int == hex_val(c) && v < 16,
            None => !is_hex_digit(c),
        },
{
    let n = c as u32;
    if 48 <= n && n <= 57 {
        Some((n - 48) as u8)
    } else if 97 <= n && n <= 102 {
        Some((n - 97 + 10) as u8)
    } else if 65 <= n && n <= 70 {
        Some((n - 65 + 10) as u8)
    } else {
        None
    }
}

/// Reads the hash two characters at a time from its tail toward its head and
/// returns one byte per group; a leftover leading character of an odd-length
/// hash is never read. Rejects the hash exactly when some character of a group
/// is not a base-16 digit.
pub fn byte_array(hash: &str) -> (r: Result<Vec<u16>, IdenticonError>)
    ensures
        match r {
            Ok(bytes) => valid_hash(hash@) && bytes@ == hash_bytes(hash@),
            Err(e) => e == IdenticonError::InvalidHashFormat && !valid_hash(hash@),
        },
{
    let len = hash.unicode_len();
    let n = len / 2;
    let mut bytes: Vec<u16> = Vec::new();
    let mut i: usize = 0;
    while i < n
        invariant
            n == len / 2,
            len == hash@.len(),
            i <= n,
            bytes@.len() == i,
            forall|j: int| 0 <= j < i ==> bytes@[j] == hash_byte(hash@, j),
            forall|p: int| len - 2 * i <= p < len ==> is_hex_digit(#[trigger] hash@[p]),
        decreases n - i,
    {
        let hi = hash.get_char(len - 2 * i - 2);
        let lo = hash.get_char(len - 2 * i - 1);
        let hv = hex_digit_value(hi);
        let lv = hex_digit_value(lo);
        match (hv, lv) {
            (Some(h), Some(l)) => {
                bytes.push((h as u16) * 16 + (l as u16));
                assert(bytes@[i as int] == hash_byte(hash@, i as int));
            },
            _ => {
                assert(!valid_hash(hash@)) by {
                    let bad: int = if hv is None {
                        len - 2 * i - 2
                    } else {
                        len - 2 * i - 1
                    };
                    assert(!is_hex_digit(hash@[bad]));
                    assert((hash@.len() % 2) as int <= bad < hash@.len());
                }
                return Err(IdenticonError::InvalidHashFormat);
            },
        }
        i += 1;
    }
    assert(valid_hash(hash@)) by {
        assert(forall|p: int|
            (hash@.len() % 2) as int <= p < hash@.len() ==> is_hex_digit(#[trigger] hash@[p]));
    }
    assert(bytes@ =~= hash_bytes(hash@));
    Ok(bytes)
}

/// The 8-character binary expansion of the low byte of `n`, zero-padded,
/// most significant bit first.
pub fn bit_string_from_u16(n: u16) -> (r: String)
    ensures
        r@ == byte_bit_chars(n),
        r@.len() == 8,
{
    let mut s = String::new();
    let mut k: u16 = 0;
    while k < 8
        invariant
            k <= 8,
            s@ == byte_bit_chars(n).take(k as int),
        decreases 8 - k,
    {
        let bit = (n >> (7 - k)) & 1;
        assert(bit == bit_at(n, k as int));
        if bit == 1 {
            s.append("1");
            proof {
                reveal_strlit("1");
                assert(s@ =~= byte_bit_chars(n).take(k as int + 1));
            }
        } else {
            s.append("0");
            proof {
                reveal_strlit("0");
                assert(s@ =~= byte_bit_chars(n).take(k as int + 1));
            }
        }
        k += 1;
    }
    proof {
        assert(byte_bit_chars(n).take(8) =~= byte_bit_chars(n));
    }
    s
}

/// Expands every byte of `a` to its 8 bits, most significant first, and
/// concatenates the expansions in byte order.
pub fn bit_array(a: Vec<u16>) -> (r: Vec<u16>)
    ensures
        r@ == bits_of_bytes(a@),
        r@.len() == 8 * a@.len(),
{
    let mut bits: Vec<u16> = Vec::new();
    let mut i: usize = 0;
    while i < a.len()
        invariant
            i <= a@.len(),
            bits@ == bits_of_bytes(a@.take(i as int)),
        decreases a@.len() - i,
    {
        let b = a[i];
        let mut k: u16 = 0;
        while k < 8
            invariant
                k <= 8,
                i < a@.len(),
                b == a@[i as int],
                bits@ == bits_of_bytes(a@.take(i as int)) + byte_bits(b).take(k as int),
            decreases 8 - k,
        {
            let bit = (b >> (7 - k)) & 1;
            assert(bit == bit_at(b, k as int));
            proof {
                assert(byte_bits(b).take(k as int).push(bit) =~= byte_bits(b).take(k as int + 1));
            }
            bits.push(bit);
            k += 1;
        }
        proof {
            assert(byte_bits(b).take(8) =~= byte_bits(b));
            lemma_bits_of_bytes_push(a@.take(i as int), b);
            assert(a@.take(i as int).push(b) =~= a@.take(i as int + 1));
        }
        i += 1;
    }
    proof {
        assert(a@.take(a@.len() as int) =~= a@);
        lemma_bits_of_bytes_len(a@);
    }
    bits
}

/// A fresh vector holding the entries of `v` in reverse order.
fn reversed(v: &Vec<u16>) -> (r: Vec<u16>)
    ensures
        r@ == v@.reverse(),
{
    let len = v.len();
    let mut r: Vec<u16> = Vec::new();
    let mut i: usize = 0;
    while i < len
        invariant
            len == v@.len(),
            i <= len,
            r@.len() == i,
            forall|j: int| 0 <= j < i ==> r@[j] == v@[len - 1 - j],
        decreases len - i,
    {
        r.push(v[len - 1 - i]);
        i += 1;
    }
    assert(r@ =~= v@.reverse());
    r
}

/// The full bit extractor: bytes from the tail of the hash, each expanded to
/// its 8 bits most-significant first, concatenated in byte order, and the
/// whole sequence reversed. The result holds `8 * floor(len(hash) / 2)` bits.
pub fn extract_bits(hash: &str) -> (r: Result<Vec<u16>, IdenticonError>)
    ensures
        match r {
            Ok(bits) => valid_hash(hash@) && bits@ == extracted_bits(hash@) && bits@.len() == 8 * (
            hash@.len() / 2),
            Err(e) => e == IdenticonError::InvalidHashFormat && !valid_hash(hash@),
        },
{
    match byte_array(hash) {
        Ok(bytes) => {
            let bits = bit_array(bytes);
            let rev = reversed(&bits);
            Ok(rev)
        },
        Err(e) => Err(e),
    }
}

} // verus!

//! Primitives of the canonical binary encoding.
//!
//! Integers are fixed-width little-endian, booleans are one byte, and byte
//! strings carry their length in front as a ULEB128 number. Every value has
//! exactly one encoding: a decoder accepts only the bytes an encoder writes.
//! The lemmas at the end of each group prove both directions.

use vstd::bytes::{
    lemma_auto_spec_u64_to_from_le_bytes, spec_u64_from_le_bytes, spec_u64_to_le_bytes,
    u64_from_le_bytes, u64_to_le_bytes,
};
use vstd::prelude::*;
use vstd::slice::slice_subrange;

verus! {

/// Longest byte string that can be encoded.
pub const MAX_SEQUENCE_LENGTH: usize = 2147483647;

/// Why a value could not be encoded.
#[derive(Clone, Copy, Debug, PartialEq, Eq, Structural)]
pub enum EncodeError {
    /// A byte string is longer than `MAX_SEQUENCE_LENGTH`.
    ExceededMaxLen,
}

/// Why a byte string is not the encoding of a value.
#[derive(Clone, Copy, Debug, PartialEq, Eq, Structural)]
pub enum DecodeError {
    /// The input ended inside a value.
    Eof,
    /// A multi-byte length ends in a zero digit.
    NonCanonicalUleb128Encoding,
    /// A length does not fit in 32 bits.
    IntegerOverflowDuringUleb128Decoding,
    /// A length exceeds `MAX_SEQUENCE_LENGTH`.
    ExceededMaxLen,
    /// A boolean byte is neither 0 nor 1.
    ExpectedBoolean,
    /// A variant index names no variant.
    UnknownVariant,
    /// A digest is not 32 bytes long.
    InvalidDigestLength,
    /// Bytes are left after the value.
    RemainingInput,
}

/// A decoded value together with the input that follows it.
pub type Parsed<T> = Result<(T, Seq<u8>), DecodeError>;

/// The ULEB128 digits of `n`, least significant first; all but the last
/// carry the continuation bit.
pub open spec fn uleb128(n: nat) -> Seq<u8>
    decreases n,
{
    if n < 128 {
        seq![n as u8]
    } else {
        seq![(128 + n % 128) as u8] + uleb128(n / 128)
    }
}

/// `128` to the power `digits`: the number of values that fit in that many
/// base-128 digits.
pub open spec fn uleb128_capacity(digits: nat) -> nat
    decreases digits,
{
    if digits == 0 {
        1
    } else {
        128 * uleb128_capacity((digits - 1) as nat)
    }
}

/// Reads base-128 digits from the front of `s`, `depth` of them having been
/// read before. At most five digits make a number, and the last digit of a
/// multi-digit number is not zero.
pub open spec fn parse_uleb128_at(s: Seq<u8>, depth: nat) -> Parsed<nat>
    decreases 5 - depth,
{
    if depth >= 5 {
        Err(DecodeError::IntegerOverflowDuringUleb128Decoding)
    } else if s.len() == 0 {
        Err(DecodeError::Eof)
    } else if s[0] < 128 {
        if depth > 0 && s[0] == 0 {
            Err(DecodeError::NonCanonicalUleb128Encoding)
        } else {
            Ok((s[0] as nat, s.skip(1)))
        }
    } else {
        match parse_uleb128_at(s.skip(1), depth + 1) {
            Ok((high, rest)) => Ok(((s[0] - 128) as nat + 128 * high, rest)),
            Err(e) => Err(e),
        }
    }
}

/// Reads the length of a byte string.
pub open spec fn parse_length(s: Seq<u8>) -> Parsed<nat> {
    match parse_uleb128_at(s, 0) {
        Ok((n, rest)) => if n > u32::MAX {
            Err(DecodeError::IntegerOverflowDuringUleb128Decoding)
        } else if n > MAX_SEQUENCE_LENGTH {
            Err(DecodeError::ExceededMaxLen)
        } else {
            Ok((n, rest))
        },
        Err(e) => Err(e),
    }
}

/// Reads the index of an enum variant.
pub open spec fn parse_variant_index(s: Seq<u8>) -> Parsed<nat> {
    match parse_uleb128_at(s, 0) {
        Ok((n, rest)) => if n > u32::MAX {
            Err(DecodeError::IntegerOverflowDuringUleb128Decoding)
        } else {
            Ok((n, rest))
        },
        Err(e) => Err(e),
    }
}

/// The encoding of a byte string: its length, then its bytes.
pub open spec fn encode_bytes(b: Seq<u8>) -> Seq<u8> {
    uleb128(b.len()) + b
}

/// Reads a byte string.
pub open spec fn parse_bytes(s: Seq<u8>) -> Parsed<Seq<u8>> {
    match parse_length(s) {
        Ok((n, rest)) => if rest.len() < n {
            Err(DecodeError::Eof)
        } else {
            Ok((rest.take(n as int), rest.skip(n as int)))
        },
        Err(e) => Err(e),
    }
}

/// The encoding of a 64-bit integer: eight bytes, least significant first.
pub open spec fn encode_u64(x: u64) -> Seq<u8> {
    spec_u64_to_le_bytes(x)
}

/// Reads a 64-bit integer.
pub open spec fn parse_u64(s: Seq<u8>) -> Parsed<u64> {
    if s.len() < 8 {
        Err(DecodeError::Eof)
    } else {
        Ok((spec_u64_from_le_bytes(s.take(8)), s.skip(8)))
    }
}

/// The encoding of a boolean.
pub open spec fn encode_bool(b: bool) -> Seq<u8> {
    if b {
        seq![1u8]
    } else {
        seq![0u8]
    }
}

/// Reads a boolean.
pub open spec fn parse_bool(s: Seq<u8>) -> Parsed<bool> {
    if s.len() == 0 {
        Err(DecodeError::Eof)
    } else if s[0] == 0 {
        Ok((false, s.skip(1)))
    } else if s[0] == 1 {
        Ok((true, s.skip(1)))
    } else {
        Err(DecodeError::ExpectedBoolean)
    }
}

/// What is left of `bytes` from position `next` on is `rest`.
pub open spec fn remains(bytes: Seq<u8>, next: usize, rest: Seq<u8>) -> bool {
    next <= bytes.len() && rest == bytes.skip(next as int)
}

/// Every number below `128^digits` has at most `digits` digits, and a
/// number that starts a digit sequence anywhere but at its front is not
/// zero when it is the last digit: its digits parse back to it.
pub proof fn lemma_parse_uleb128(n: nat, depth: nat, rest: Seq<u8>)
    requires
        depth < 5,
        n < uleb128_capacity((5 - depth) as nat),
        depth > 0 ==> n > 0,
    ensures
        parse_uleb128_at(uleb128(n) + rest, depth) == Ok::<(nat, Seq<u8>), DecodeError>((n, rest)),
    decreases n,
{
    let s = uleb128(n) + rest;
    if n < 128 {
        assert(s[0] == n as u8);
        assert(s.skip(1) =~= rest);
    } else {
        let high = n / 128;
        assert(s[0] == (128 + n % 128) as u8);
        assert(s.skip(1) =~= uleb128(high) + rest);
        assert(uleb128_capacity((5 - depth) as nat) == 128 * uleb128_capacity((4 - depth) as nat));
        assert(high < uleb128_capacity((4 - depth) as nat));
        assert(depth < 4) by {
            assert(uleb128_capacity(0) == 1);
        }
        lemma_parse_uleb128(high, depth + 1, rest);
        assert((s[0] - 128) as nat + 128 * high == n);
    }
}

/// A length that can be encoded parses back to itself.
pub proof fn lemma_parse_length(n: nat, rest: Seq<u8>)
    requires
        n <= MAX_SEQUENCE_LENGTH,
    ensures
        parse_length(uleb128(n) + rest) == Ok::<(nat, Seq<u8>), DecodeError>((n, rest)),
{
    assert(uleb128_capacity(5) == 34359738368) by {
        reveal_with_fuel(uleb128_capacity, 6);
    }
    lemma_parse_uleb128(n, 0, rest);
}

/// An encoded variant index parses back to itself.
pub proof fn lemma_parse_variant_index(n: nat, rest: Seq<u8>)
    requires
        n <= u32::MAX,
    ensures
        parse_variant_index(uleb128(n) + rest) == Ok::<(nat, Seq<u8>), DecodeError>((n, rest)),
{
    assert(uleb128_capacity(5) == 34359738368) by {
        reveal_with_fuel(uleb128_capacity, 6);
    }
    lemma_parse_uleb128(n, 0, rest);
}

/// An encoded byte string parses back to itself.
pub proof fn lemma_parse_bytes(b: Seq<u8>, rest: Seq<u8>)
    requires
        b.len() <= MAX_SEQUENCE_LENGTH,
    ensures
        parse_bytes(encode_bytes(b) + rest) == Ok::<(Seq<u8>, Seq<u8>), DecodeError>((b, rest)),
{
    lemma_parse_length(b.len(), b + rest);
    assert(encode_bytes(b) + rest =~= uleb128(b.len()) + (b + rest));
    assert((b + rest).take(b.len() as int) =~= b);
    assert((b + rest).skip(b.len() as int) =~= rest);
}

/// An encoded integer parses back to itself.
pub proof fn lemma_parse_u64(x: u64, rest: Seq<u8>)
    ensures
        parse_u64(encode_u64(x) + rest) == Ok::<(u64, Seq<u8>), DecodeError>((x, rest)),
{
    lemma_auto_spec_u64_to_from_le_bytes();
    let e = encode_u64(x);
    assert(e.len() == 8);
    assert((e + rest).take(8) =~= e);
    assert((e + rest).skip(8) =~= rest);
}

/// An encoded boolean parses back to itself.
pub proof fn lemma_parse_bool(b: bool, rest: Seq<u8>)
    ensures
        parse_bool(encode_bool(b) + rest) == Ok::<(bool, Seq<u8>), DecodeError>((b, rest)),
{
    assert((encode_bool(b) + rest).skip(1) =~= rest);
}

/// Digits that parse are the digits of the number they parse to: no number
/// has a second way to be written.
pub proof fn lemma_uleb128_canonical(s: Seq<u8>, depth: nat)
    ensures
        parse_uleb128_at(s, depth) matches Ok((n, rest)) ==> s == uleb128(n) + rest && (depth > 0
            ==> n > 0),
    decreases 5 - depth,
{
    if let Ok((n, rest)) = parse_uleb128_at(s, depth) {
        if s[0] < 128 {
            assert(s =~= uleb128(n) + rest);
        } else {
            lemma_uleb128_canonical(s.skip(1), depth + 1);
            if let Ok((high, tail)) = parse_uleb128_at(s.skip(1), depth + 1) {
                assert(n == (s[0] - 128) + 128 * high);
                assert(n / 128 == high && n % 128 == s[0] - 128);
                assert(s =~= seq![s[0]] + s.skip(1));
                assert(s =~= uleb128(n) + rest);
            }
        }
    }
}

/// A length that parses was written as it is encoded.
pub proof fn lemma_length_canonical(s: Seq<u8>)
    ensures
        parse_length(s) matches Ok((n, rest)) ==> s == uleb128(n) + rest && n
            <= MAX_SEQUENCE_LENGTH,
{
    lemma_uleb128_canonical(s, 0);
}

/// A variant index that parses was written as it is encoded.
pub proof fn lemma_variant_index_canonical(s: Seq<u8>)
    ensures
        parse_variant_index(s) matches Ok((n, rest)) ==> s == uleb128(n) + rest,
{
    lemma_uleb128_canonical(s, 0);
}

/// A byte string that parses was written as it is encoded.
pub proof fn lemma_bytes_canonical(s: Seq<u8>)
    ensures
        parse_bytes(s) matches Ok((b, rest)) ==> s == encode_bytes(b) + rest && b.len()
            <= MAX_SEQUENCE_LENGTH,
{
    lemma_length_canonical(s);
    if let Ok((n, tail)) = parse_length(s) {
        if tail.len() >= n {
            assert(tail =~= tail.take(n as int) + tail.skip(n as int));
            assert(s =~= encode_bytes(tail.take(n as int)) + tail.skip(n as int));
        }
    }
}

/// An integer that parses was written as it is encoded.
pub proof fn lemma_u64_canonical(s: Seq<u8>)
    ensures
        parse_u64(s) matches Ok((x, rest)) ==> s == encode_u64(x) + rest,
{
    lemma_auto_spec_u64_to_from_le_bytes();
    if s.len() >= 8 {
        assert(spec_u64_to_le_bytes(spec_u64_from_le_bytes(s.take(8))) == s.take(8));
        assert(s =~= s.take(8) + s.skip(8));
    }
}

/// A boolean that parses was written as it is encoded.
pub proof fn lemma_bool_canonical(s: Seq<u8>)
    ensures
        parse_bool(s) matches Ok((b, rest)) ==> s == encode_bool(b) + rest,
{
    if let Ok((b, rest)) = parse_bool(s) {
        assert(s =~= encode_bool(b) + rest);
    }
}

/// Appends the ULEB128 digits of `value`.
pub fn write_uleb128(out: &mut Vec<u8>, value: u32)
    ensures
        final(out)@ == old(out)@ + uleb128(value as nat),
{
    let ghost start = out@;
    let mut v: u32 = value;
    while v >= 128
        invariant
            start + uleb128(value as nat) == out@ + uleb128(v as nat),
        decreases v,
    {
        let ghost before = out@;
        let digit: u32 = 128 + v % 128;
        out.push(digit as u8);
        assert(before + uleb128(v as nat) =~= out@ + uleb128((v / 128) as nat));
        v = v / 128;
    }
    let ghost before = out@;
    out.push(v as u8);
    assert(before + uleb128(v as nat) =~= out@);
}

/// Appends the encoding of a byte string.
pub fn write_bytes(out: &mut Vec<u8>, b: &[u8])
    requires
        b@.len() <= MAX_SEQUENCE_LENGTH,
    ensures
        final(out)@ == old(out)@ + encode_bytes(b@),
{
    let ghost start = out@;
    write_uleb128(out, b.len() as u32);
    out.extend_from_slice(b);
    assert(out@ =~= start + encode_bytes(b@));
}

/// Appends the encoding of a 64-bit integer.
pub fn write_u64(out: &mut Vec<u8>, x: u64)
    ensures
        final(out)@ == old(out)@ + encode_u64(x),
{
    let le = u64_to_le_bytes(x);
    out.extend_from_slice(le.as_slice());
}

/// Appends the encoding of a boolean.
pub fn write_bool(out: &mut Vec<u8>, b: bool)
    ensures
        final(out)@ == old(out)@ + encode_bool(b),
{
    let ghost start = out@;
    if b {
        out.push(1u8);
    } else {
        out.push(0u8);
    }
    assert(out@ =~= start + encode_bool(b));
}

/// Reads base-128 digits at `pos`, `depth` of them having been read before.
fn read_uleb128_at(bytes: &[u8], pos: usize, depth: u8) -> (r: Result<(u64, usize), DecodeError>)
    requires
        pos <= bytes@.len(),
        depth <= 5,
    ensures
        match parse_uleb128_at(bytes@.skip(pos as int), depth as nat) {
            Ok((n, rest)) => r matches Ok((v, next)) && v == n && remains(bytes@, next, rest)
                && n < uleb128_capacity((5 - depth) as nat),
            Err(e) => r == Err::<(u64, usize), DecodeError>(e),
        },
    decreases 5 - depth,
{
    let ghost s = bytes@.skip(pos as int);
    if depth >= 5 {
        return Err(DecodeError::IntegerOverflowDuringUleb128Decoding);
    }
    if pos >= bytes.len() {
        return Err(DecodeError::Eof);
    }
    let byte = bytes[pos];
    assert(s[0] == byte);
    assert(s.skip(1) =~= bytes@.skip(pos + 1));
    assert(uleb128_capacity((5 - depth) as nat) == 128 * uleb128_capacity((4 - depth) as nat));
    assert(uleb128_capacity((4 - depth) as nat) >= 1 && uleb128_capacity((5 - depth) as nat)
        <= 34359738368) by {
        reveal_with_fuel(uleb128_capacity, 6);
    }
    if byte < 128 {
        if depth > 0 && byte == 0 {
            Err(DecodeError::NonCanonicalUleb128Encoding)
        } else {
            Ok((byte as u64, pos + 1))
        }
    } else {
        match read_uleb128_at(bytes, pos + 1, depth + 1) {
            Ok((high, next)) => Ok(((byte - 128) as u64 + 128 * high, next)),
            Err(e) => Err(e),
        }
    }
}

/// Reads the length of a byte string at `pos`.
pub fn read_length(bytes: &[u8], pos: usize) -> (r: Result<(usize, usize), DecodeError>)
    requires
        pos <= bytes@.len(),
    ensures
        match parse_length(bytes@.skip(pos as int)) {
            Ok((n, rest)) => r matches Ok((v, next)) && v == n && remains(bytes@, next, rest),
            Err(e) => r == Err::<(usize, usize), DecodeError>(e),
        },
{
    match read_uleb128_at(bytes, pos, 0) {
        Ok((n, next)) => {
            if n > 4294967295 {
                Err(DecodeError::IntegerOverflowDuringUleb128Decoding)
            } else if n > 2147483647 {
                Err(DecodeError::ExceededMaxLen)
            } else {
                Ok((n as usize, next))
            }
        },
        Err(e) => Err(e),
    }
}

/// Reads the index of an enum variant at `pos`.
pub fn read_variant_index(bytes: &[u8], pos: usize) -> (r: Result<(u32, usize), DecodeError>)
    requires
        pos <= bytes@.len(),
    ensures
        match parse_variant_index(bytes@.skip(pos as int)) {
            Ok((n, rest)) => r matches Ok((v, next)) && v == n && remains(bytes@, next, rest),
            Err(e) => r == Err::<(u32, usize), DecodeError>(e),
        },
{
    match read_uleb128_at(bytes, pos, 0) {
        Ok((n, next)) => {
            if n > 4294967295 {
                Err(DecodeError::IntegerOverflowDuringUleb128Decoding)
            } else {
                Ok((n as u32, next))
            }
        },
        Err(e) => Err(e),
    }
}

/// Reads a byte string at `pos`.
pub fn read_bytes(bytes: &[u8], pos: usize) -> (r: Result<(Vec<u8>, usize), DecodeError>)
    requires
        pos <= bytes@.len(),
    ensures
        match parse_bytes(bytes@.skip(pos as int)) {
            Ok((b, rest)) => r matches Ok((v, next)) && v@ == b && remains(bytes@, next, rest),
            Err(e) => r == Err::<(Vec<u8>, usize), DecodeError>(e),
        },
{
    match read_length(bytes, pos) {
        Ok((n, start)) => {
            if bytes.len() - start < n {
                Err(DecodeError::Eof)
            } else {
                let ghost rest = bytes@.skip(start as int);
                let mut v: Vec<u8> = Vec::new();
                v.extend_from_slice(slice_subrange(bytes, start, start + n));
                assert(v@ =~= rest.take(n as int));
                assert(rest.skip(n as int) =~= bytes@.skip(start + n));
                Ok((v, start + n))
            }
        },
        Err(e) => Err(e),
    }
}

/// Reads a 64-bit integer at `pos`.
pub fn read_u64(bytes: &[u8], pos: usize) -> (r: Result<(u64, usize), DecodeError>)
    requires
        pos <= bytes@.len(),
    ensures
        match parse_u64(bytes@.skip(pos as int)) {
            Ok((x, rest)) => r matches Ok((v, next)) && v == x && remains(bytes@, next, rest),
            Err(e) => r == Err::<(u64, usize), DecodeError>(e),
        },
{
    if bytes.len() - pos < 8 {
        Err(DecodeError::Eof)
    } else {
        let ghost s = bytes@.skip(pos as int);
        let x = u64_from_le_bytes(slice_subrange(bytes, pos, pos + 8));
        assert(s.take(8) =~= bytes@.subrange(pos as int, pos + 8));
        assert(s.skip(8) =~= bytes@.skip(pos + 8));
        Ok((x, pos + 8))
    }
}

/// Reads a boolean at `pos`.
pub fn read_bool(bytes: &[u8], pos: usize) -> (r: Result<(bool, usize), DecodeError>)
    requires
        pos <= bytes@.len(),
    ensures
        match parse_bool(bytes@.skip(pos as int)) {
            Ok((b, rest)) => r matches Ok((v, next)) && v == b && remains(bytes@, next, rest),
            Err(e) => r == Err::<(bool, usize), DecodeError>(e),
        },
{
    if pos >= bytes.len() {
        return Err(DecodeError::Eof);
    }
    let ghost s = bytes@.skip(pos as int);
    let byte = bytes[pos];
    assert(s[0] == byte);
    assert(s.skip(1) =~= bytes@.skip(pos + 1));
    if byte == 0 {
        Ok((false, pos + 1))
    } else if byte == 1 {
        Ok((true, pos + 1))
    } else {
        Err(DecodeError::ExpectedBoolean)
    }
}

/// Number of bytes in the encoding of a byte string of length `len`.
pub open spec fn encoded_bytes_len(len: nat) -> nat {
    uleb128(len).len() + len
}

/// Number of ULEB128 digits of `value`.
pub fn uleb128_len(value: u32) -> (n: usize)
    ensures
        n == uleb128(value as nat).len(),
        1 <= n <= 5,
{
    let mut v: u32 = value;
    let mut n: usize = 1;
    while v >= 128
        invariant
            uleb128(value as nat).len() == n - 1 + uleb128(v as nat).len(),
            1 <= n,
            n <= 4 ==> v <= u32::MAX,
            n == 2 ==> v < 33554432,
            n == 3 ==> v < 262144,
            n == 4 ==> v < 2048,
            n == 5 ==> v < 16,
            n <= 5,
        decreases v,
    {
        v = v / 128;
        n = n + 1;
    }
    n
}

} // verus!

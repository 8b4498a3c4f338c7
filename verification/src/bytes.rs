//! Byte encodings of values for pipes that move raw bytes: integers in
//! big-endian order and text as UTF-8.
use byteorder::{BigEndian, ReadBytesExt, WriteBytesExt};
use vstd::prelude::*;
use vstd::string::StrSliceExecFns;
use vstd::utf8::{decode_utf8, encode_utf8, encode_utf8_decode_utf8, encode_utf8_valid_utf8, valid_utf8};

verus! {

/// An I/O error.
#[verifier::external_type_specification]
#[verifier::external_body]
pub struct ExIoError(std::io::Error);

/// A failed UTF-8 conversion.
#[verifier::external_type_specification]
#[verifier::external_body]
pub struct ExFromUtf8Error(std::string::FromUtf8Error);

/// Why bytes could not be decoded.
#[derive(Debug, Clone, Copy, PartialEq, Eq)]
pub enum BytesError {
    /// Fewer bytes than the value needs.
    UnexpectedEof,
    /// Bytes that are not UTF-8.
    InvalidUtf8,
    /// The writer refused the bytes (writing into a vector never does).
    WriteFailed,
}

/// The unsigned value of `b`, most significant byte first.
pub open spec fn be_value(b: Seq<u8>) -> nat
    decreases b.len(),
{
    if b.len() == 0 {
        0
    } else {
        be_value(b.drop_last()) * 256 + b.last() as nat
    }
}

/// The `n` low bytes of `v`, most significant first.
pub open spec fn be_bytes(v: nat, n: nat) -> Seq<u8>
    decreases n,
{
    if n == 0 {
        Seq::empty()
    } else {
        be_bytes(v / 256, (n - 1) as nat).push((v % 256) as u8)
    }
}

/// `256` to the power `n`.
pub open spec fn byte_power(n: nat) -> nat
    decreases n,
{
    if n == 0 {
        1
    } else {
        256 * byte_power((n - 1) as nat)
    }
}

/// The two's complement reading of the unsigned `u` on `bits` bits.
pub open spec fn twos(u: nat, bits: nat) -> int {
    if u >= byte_power(bits / 8) / 2 {
        u - byte_power(bits / 8)
    } else {
        u as int
    }
}

/// The unsigned `bits`-bit pattern of `v`.
pub open spec fn unsigned_of(v: int, bits: nat) -> nat {
    if v < 0 {
        (v + byte_power(bits / 8)) as nat
    } else {
        v as nat
    }
}

/// The bytes decoded as a big-endian `u32`, if there are enough.
pub open spec fn u32_decoded(b: Seq<u8>) -> Option<u32> {
    if b.len() >= 4 {
        Some(be_value(b.take(4)) as u32)
    } else {
        None
    }
}

/// The bytes decoded as a big-endian `i32`, if there are enough.
pub open spec fn i32_decoded(b: Seq<u8>) -> Option<i32> {
    if b.len() >= 4 {
        Some(twos(be_value(b.take(4)), 32) as i32)
    } else {
        None
    }
}

/// The bytes decoded as a big-endian `u64`, if there are enough.
pub open spec fn u64_decoded(b: Seq<u8>) -> Option<u64> {
    if b.len() >= 8 {
        Some(be_value(b.take(8)) as u64)
    } else {
        None
    }
}

/// The bytes decoded as a big-endian `i64`, if there are enough.
pub open spec fn i64_decoded(b: Seq<u8>) -> Option<i64> {
    if b.len() >= 8 {
        Some(twos(be_value(b.take(8)), 64) as i64)
    } else {
        None
    }
}

/// Calls `read_u32::<BigEndian>` on a cursor over `bytes`: it fails when
/// fewer than 4 bytes are there, else reads the first 4, most significant
/// first.
#[verifier::external_body]
fn read_u32_be(bytes: &Vec<u8>) -> (r: Result<u32, std::io::Error>)
    ensures
        match r {
            Ok(v) => bytes.len() >= 4 && v as nat == be_value(bytes@.take(4)),
            Err(_) => bytes.len() < 4,
        },
{
    std::io::Cursor::new(bytes.as_slice()).read_u32::<BigEndian>()
}

/// Calls `read_i32::<BigEndian>` on a cursor over `bytes`: it fails when
/// fewer than 4 bytes are there, else reads the first 4 as two's complement,
/// most significant first.
#[verifier::external_body]
fn read_i32_be(bytes: &Vec<u8>) -> (r: Result<i32, std::io::Error>)
    ensures
        match r {
            Ok(v) => bytes.len() >= 4 && v as int == twos(be_value(bytes@.take(4)), 32),
            Err(_) => bytes.len() < 4,
        },
{
    std::io::Cursor::new(bytes.as_slice()).read_i32::<BigEndian>()
}

/// Calls `read_u64::<BigEndian>` on a cursor over `bytes`: it fails when
/// fewer than 8 bytes are there, else reads the first 8, most significant
/// first.
#[verifier::external_body]
fn read_u64_be(bytes: &Vec<u8>) -> (r: Result<u64, std::io::Error>)
    ensures
        match r {
            Ok(v) => bytes.len() >= 8 && v as nat == be_value(bytes@.take(8)),
            Err(_) => bytes.len() < 8,
        },
{
    std::io::Cursor::new(bytes.as_slice()).read_u64::<BigEndian>()
}

/// Calls `read_i64::<BigEndian>` on a cursor over `bytes`: it fails when
/// fewer than 8 bytes are there, else reads the first 8 as two's complement,
/// most significant first.
#[verifier::external_body]
fn read_i64_be(bytes: &Vec<u8>) -> (r: Result<i64, std::io::Error>)
    ensures
        match r {
            Ok(v) => bytes.len() >= 8 && v as int == twos(be_value(bytes@.take(8)), 64),
            Err(_) => bytes.len() < 8,
        },
{
    std::io::Cursor::new(bytes.as_slice()).read_i64::<BigEndian>()
}

/// Calls `write_u32::<BigEndian>` on an empty vector: it writes the 4 bytes
/// of `v`, most significant first, and a vector takes every write.
#[verifier::external_body]
fn write_u32_be(v: u32) -> (r: Result<Vec<u8>, std::io::Error>)
    ensures
        r is Ok,
        r.unwrap()@ == be_bytes(v as nat, 4),
{
    let mut w: Vec<u8> = Vec::new();
    match w.write_u32::<BigEndian>(v) {
        Ok(()) => Ok(w),
        Err(e) => Err(e),
    }
}

/// Calls `write_i32::<BigEndian>` on an empty vector: it writes the 4 bytes of
/// the two's complement of `v`, most significant first, and a vector takes
/// every write.
#[verifier::external_body]
fn write_i32_be(v: i32) -> (r: Result<Vec<u8>, std::io::Error>)
    ensures
        r is Ok,
        r.unwrap()@ == be_bytes(unsigned_of(v as int, 32), 4),
{
    let mut w: Vec<u8> = Vec::new();
    match w.write_i32::<BigEndian>(v) {
        Ok(()) => Ok(w),
        Err(e) => Err(e),
    }
}

/// Calls `write_u64::<BigEndian>` on an empty vector: it writes the 8 bytes
/// of `v`, most significant first, and a vector takes every write.
#[verifier::external_body]
fn write_u64_be(v: u64) -> (r: Result<Vec<u8>, std::io::Error>)
    ensures
        r is Ok,
        r.unwrap()@ == be_bytes(v as nat, 8),
{
    let mut w: Vec<u8> = Vec::new();
    match w.write_u64::<BigEndian>(v) {
        Ok(()) => Ok(w),
        Err(e) => Err(e),
    }
}

/// Calls `write_i64::<BigEndian>` on an empty vector: it writes the 8 bytes of
/// the two's complement of `v`, most significant first, and a vector takes
/// every write.
#[verifier::external_body]
fn write_i64_be(v: i64) -> (r: Result<Vec<u8>, std::io::Error>)
    ensures
        r is Ok,
        r.unwrap()@ == be_bytes(unsigned_of(v as int, 64), 8),
{
    let mut w: Vec<u8> = Vec::new();
    match w.write_i64::<BigEndian>(v) {
        Ok(()) => Ok(w),
        Err(e) => Err(e),
    }
}

/// Calls `String::from_utf8`: it accepts exactly the valid UTF-8 byte
/// sequences, and gives the characters they encode.
#[verifier::external_body]
fn string_from_utf8(bytes: Vec<u8>) -> (r: Result<String, std::string::FromUtf8Error>)
    ensures
        match r {
            Ok(s) => valid_utf8(bytes@) && s@ == decode_utf8(bytes@),
            Err(_) => !valid_utf8(bytes@),
        },
{
    String::from_utf8(bytes)
}

/// A value that can be read back from bytes.
pub trait FromBytes: Sized {
    fn from_bytes(bytes: Vec<u8>) -> Result<Self, BytesError>;
}

/// A value that can be written as bytes.
pub trait IntoBytes {
    fn into_bytes(&self) -> Result<Vec<u8>, BytesError>;
}

impl FromBytes for u32 {
    /// The first 4 bytes, most significant first.
    fn from_bytes(bytes: Vec<u8>) -> (r: Result<u32, BytesError>)
        ensures
            match u32_decoded(bytes@) {
                Some(v) => r == Ok::<u32, BytesError>(v),
                None => r == Err::<u32, BytesError>(BytesError::UnexpectedEof),
            },
    {
        match read_u32_be(&bytes) {
            Ok(v) => Ok(v),
            Err(_) => Err(BytesError::UnexpectedEof),
        }
    }
}

impl IntoBytes for u32 {
    /// The 4 bytes of the value, most significant first.
    fn into_bytes(&self) -> (r: Result<Vec<u8>, BytesError>)
        ensures
            r is Ok,
            r.unwrap()@ == be_bytes(*self as nat, 4),
    {
        match write_u32_be(*self) {
            Ok(w) => Ok(w),
            Err(_) => Err(BytesError::WriteFailed),
        }
    }
}

impl FromBytes for i32 {
    /// The first 4 bytes as two's complement, most significant first.
    fn from_bytes(bytes: Vec<u8>) -> (r: Result<i32, BytesError>)
        ensures
            match i32_decoded(bytes@) {
                Some(v) => r == Ok::<i32, BytesError>(v),
                None => r == Err::<i32, BytesError>(BytesError::UnexpectedEof),
            },
    {
        match read_i32_be(&bytes) {
            Ok(v) => Ok(v),
            Err(_) => Err(BytesError::UnexpectedEof),
        }
    }
}

impl IntoBytes for i32 {
    /// The 4 bytes of the value's two's complement, most significant first.
    fn into_bytes(&self) -> (r: Result<Vec<u8>, BytesError>)
        ensures
            r is Ok,
            r.unwrap()@ == be_bytes(unsigned_of(*self as int, 32), 4),
    {
        match write_i32_be(*self) {
            Ok(w) => Ok(w),
            Err(_) => Err(BytesError::WriteFailed),
        }
    }
}

impl FromBytes for u64 {
    /// The first 8 bytes, most significant first.
    fn from_bytes(bytes: Vec<u8>) -> (r: Result<u64, BytesError>)
        ensures
            match u64_decoded(bytes@) {
                Some(v) => r == Ok::<u64, BytesError>(v),
                None => r == Err::<u64, BytesError>(BytesError::UnexpectedEof),
            },
    {
        match read_u64_be(&bytes) {
            Ok(v) => Ok(v),
            Err(_) => Err(BytesError::UnexpectedEof),
        }
    }
}

impl IntoBytes for u64 {
    /// The 8 bytes of the value, most significant first.
    fn into_bytes(&self) -> (r: Result<Vec<u8>, BytesError>)
        ensures
            r is Ok,
            r.unwrap()@ == be_bytes(*self as nat, 8),
    {
        match write_u64_be(*self) {
            Ok(w) => Ok(w),
            Err(_) => Err(BytesError::WriteFailed),
        }
    }
}

impl FromBytes for i64 {
    /// The first 8 bytes as two's complement, most significant first.
    fn from_bytes(bytes: Vec<u8>) -> (r: Result<i64, BytesError>)
        ensures
            match i64_decoded(bytes@) {
                Some(v) => r == Ok::<i64, BytesError>(v),
                None => r == Err::<i64, BytesError>(BytesError::UnexpectedEof),
            },
    {
        match read_i64_be(&bytes) {
            Ok(v) => Ok(v),
            Err(_) => Err(BytesError::UnexpectedEof),
        }
    }
}

impl IntoBytes for i64 {
    /// The 8 bytes of the value's two's complement, most significant first.
    fn into_bytes(&self) -> (r: Result<Vec<u8>, BytesError>)
        ensures
            r is Ok,
            r.unwrap()@ == be_bytes(unsigned_of(*self as int, 64), 8),
    {
        match write_i64_be(*self) {
            Ok(w) => Ok(w),
            Err(_) => Err(BytesError::WriteFailed),
        }
    }
}

impl FromBytes for String {
    /// The text the bytes encode in UTF-8, or an error when they are not UTF-8.
    fn from_bytes(bytes: Vec<u8>) -> (r: Result<String, BytesError>)
        ensures
            valid_utf8(bytes@) ==> r is Ok && r.unwrap()@ == decode_utf8(bytes@),
            !valid_utf8(bytes@) ==> r == Err::<String, BytesError>(BytesError::InvalidUtf8),
    {
        match string_from_utf8(bytes) {
            Ok(s) => Ok(s),
            Err(_) => Err(BytesError::InvalidUtf8),
        }
    }
}

impl IntoBytes for String {
    /// The UTF-8 encoding of the text.
    fn into_bytes(&self) -> (r: Result<Vec<u8>, BytesError>)
        ensures
            r is Ok && r.unwrap()@ == encode_utf8(self@),
    {
        Ok(self.as_str().as_bytes_vec())
    }
}

/// Reading the bytes of `n` low bytes gives the value back, below `256^n`.
pub proof fn lemma_be_round_trip(v: nat, n: nat)
    requires
        v < byte_power(n),
    ensures
        be_bytes(v, n).len() == n,
        be_value(be_bytes(v, n)) == v,
    decreases n,
{
    if n > 0 {
        assert(v / 256 < byte_power((n - 1) as nat)) by (nonlinear_arith)
            requires
                v < 256 * byte_power((n - 1) as nat),
        ;
        lemma_be_round_trip(v / 256, (n - 1) as nat);
        let b = be_bytes(v, n);
        assert(b.drop_last() == be_bytes(v / 256, (n - 1) as nat));
        assert(v == (v / 256) * 256 + v % 256) by (nonlinear_arith);
    }
}

proof fn lemma_take_all(b: Seq<u8>, n: int)
    requires
        b.len() == n,
    ensures
        b.take(n) == b,
{
    assert(b.take(n) =~= b);
}

/// A `u32` written as bytes reads back as itself.
pub proof fn lemma_u32_round_trip(v: u32)
    ensures
        u32_decoded(be_bytes(v as nat, 4)) == Some(v),
{
    reveal_with_fuel(byte_power, 5);
    assert(byte_power(4) == 4294967296);
    lemma_be_round_trip(v as nat, 4);
    lemma_take_all(be_bytes(v as nat, 4), 4);
}

/// A `u64` written as bytes reads back as itself.
pub proof fn lemma_u64_round_trip(v: u64)
    ensures
        u64_decoded(be_bytes(v as nat, 8)) == Some(v),
{
    reveal_with_fuel(byte_power, 9);
    assert(byte_power(8) == 18446744073709551616);
    lemma_be_round_trip(v as nat, 8);
    lemma_take_all(be_bytes(v as nat, 8), 8);
}

/// An `i32` written as bytes reads back as itself.
pub proof fn lemma_i32_round_trip(v: i32)
    ensures
        i32_decoded(be_bytes(unsigned_of(v as int, 32), 4)) == Some(v),
{
    reveal_with_fuel(byte_power, 5);
    assert(byte_power(4) == 4294967296);
    lemma_be_round_trip(unsigned_of(v as int, 32), 4);
    lemma_take_all(be_bytes(unsigned_of(v as int, 32), 4), 4);
}

/// An `i64` written as bytes reads back as itself.
pub proof fn lemma_i64_round_trip(v: i64)
    ensures
        i64_decoded(be_bytes(unsigned_of(v as int, 64), 8)) == Some(v),
{
    reveal_with_fuel(byte_power, 9);
    assert(byte_power(8) == 18446744073709551616);
    lemma_be_round_trip(unsigned_of(v as int, 64), 8);
    lemma_take_all(be_bytes(unsigned_of(v as int, 64), 8), 8);
}

/// Text written as bytes reads back as itself.
pub proof fn lemma_text_round_trip(s: Seq<char>)
    ensures
        valid_utf8(encode_utf8(s)),
        decode_utf8(encode_utf8(s)) == s,
{
    encode_utf8_valid_utf8(s);
    encode_utf8_decode_utf8(s);
}

} // verus!

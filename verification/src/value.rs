//! Byte encodings of keys and values.

use vstd::bytes::{
    spec_u16_from_le_bytes, spec_u16_to_le_bytes, spec_u32_from_le_bytes, spec_u32_to_le_bytes,
    spec_u64_from_le_bytes, spec_u64_to_le_bytes,
};
use vstd::prelude::*;
use vstd::utf8::{decode_utf8, encode_utf8, valid_utf8};

verus! {

/// The element count that the storage engine puts in front of a byte vector:
/// one byte below 254, else a tag byte and two or four little-endian bytes.
/// Counts beyond four bytes are clamped.
pub open spec fn varint(len: nat) -> Seq<u8> {
    if len < 254 {
        seq![len as u8]
    } else if len <= u16::MAX {
        seq![254u8] + spec_u16_to_le_bytes(len as u16)
    } else if len <= u32::MAX {
        seq![255u8] + spec_u32_to_le_bytes(len as u32)
    } else {
        seq![255u8] + spec_u32_to_le_bytes(u32::MAX)
    }
}

/// How many bytes the prefix that starts `data` takes, by its first byte.
pub open spec fn varint_width(data: Seq<u8>) -> nat
    recommends
        data.len() > 0,
{
    if data[0] <= 253 {
        1
    } else if data[0] == 254 {
        3
    } else {
        5
    }
}

/// The element count that the prefix that starts `data` stands for.
pub open spec fn varint_count(data: Seq<u8>) -> nat
    recommends
        data.len() >= varint_width(data),
{
    if data[0] <= 253 {
        data[0] as nat
    } else if data[0] == 254 {
        spec_u16_from_le_bytes(data.subrange(1, 3)) as nat
    } else {
        spec_u32_from_le_bytes(data.subrange(1, 5)) as nat
    }
}

/// `data` without the prefix that starts it, or `data` itself where it is too
/// short to hold one.
pub open spec fn after_varint(data: Seq<u8>) -> Seq<u8> {
    if data.len() == 0 || data.len() < varint_width(data) {
        data
    } else {
        data.skip(varint_width(data) as int)
    }
}

/// Strip a single varint length prefix from the beginning of a byte slice.
///
/// Byte vectors are stored behind a varint-encoded element count. Use this to
/// recover the raw inner bytes.
///
/// Returns the bytes after the varint prefix, or the original slice unchanged
/// if the data is too short to contain a valid varint.
pub fn strip_varint(data: &[u8]) -> (rest: &[u8])
    ensures
        rest@ == after_varint(data@),
{
    if data.is_empty() {
        return data;
    }
    let consumed: usize = match data[0] {
        0..=253 => 1,
        254 => {
            if data.len() < 3 {
                return data;
            }
            3
        },
        255 => {
            if data.len() < 5 {
                return data;
            }
            5
        },
    };
    vstd::slice::slice_subrange(data, consumed, data.len())
}

/// A type whose values can be keys or values of a table.
pub trait StoredValue: View + Sized {
    /// The bytes under which a value is stored.
    spec fn encode(v: <Self as View>::V) -> Seq<u8>;

    /// Whether the encoding of a value fits in memory.
    spec fn encodable(v: <Self as View>::V) -> bool;

    /// Whether bytes are such that what is read from them is known.
    spec fn readable(bytes: Seq<u8>) -> bool;

    /// The value that is read from bytes.
    spec fn decode(bytes: Seq<u8>) -> <Self as View>::V;

    /// Whether the encoding of a value keeps all of it.
    spec fn lossless(v: <Self as View>::V) -> bool;

    /// Different values have different bytes.
    proof fn lemma_encode_injective(a: <Self as View>::V, b: <Self as View>::V)
        requires
            Self::encode(a) == Self::encode(b),
        ensures
            a == b,
    ;

    /// What was encoded is read back.
    proof fn lemma_decode_undoes_encode(v: <Self as View>::V)
        requires
            Self::lossless(v),
        ensures
            Self::readable(Self::encode(v)),
            Self::decode(Self::encode(v)) == v,
    ;

    /// The value as bytes.
    fn to_bytes(&self) -> (bytes: Vec<u8>)
        requires
            Self::encodable(self@),
        ensures
            bytes@ == Self::encode(self@),
    ;

    /// The value that bytes stand for.
    fn from_bytes(bytes: &[u8]) -> (value: Self)
        ensures
            Self::readable(bytes@) ==> value@ == Self::decode(bytes@),
    ;
}

/// Serialise a value to bytes.
pub fn serialize_value<T: StoredValue>(value: &T) -> (bytes: Vec<u8>)
    requires
        T::encodable(value@),
    ensures
        bytes@ == T::encode(value@),
{
    value.to_bytes()
}

// ---------------------------------------------------------------------------
// bool
// ---------------------------------------------------------------------------

/// Calls `shodh_redb::Value::as_bytes` for `bool`, which is taken to give one
/// byte: 1 for `true`, 0 for `false`.
#[verifier::external_body]
fn bool_as_bytes(value: &bool) -> (bytes: Vec<u8>)
    ensures
        bytes@ == seq![if *value { 1u8 } else { 0u8 }],
{
    <bool as shodh_redb::Value>::as_bytes(value).to_vec()
}

/// Calls `shodh_redb::Value::from_bytes` for `bool`, which is taken to give `true`
/// where there is a first byte other than 0.
#[verifier::external_body]
fn bool_from_bytes(bytes: &[u8]) -> (value: bool)
    ensures
        value == (bytes@.len() > 0 && bytes@[0] != 0),
{
    <bool as shodh_redb::Value>::from_bytes(bytes)
}

impl StoredValue for bool {
    open spec fn encode(v: bool) -> Seq<u8> {
        seq![if v { 1u8 } else { 0u8 }]
    }

    open spec fn encodable(v: bool) -> bool {
        true
    }

    open spec fn readable(bytes: Seq<u8>) -> bool {
        true
    }

    open spec fn decode(bytes: Seq<u8>) -> bool {
        bytes.len() > 0 && bytes[0] != 0
    }

    open spec fn lossless(v: bool) -> bool {
        true
    }

    proof fn lemma_encode_injective(a: bool, b: bool) {
        Self::lemma_decode_undoes_encode(a);
        Self::lemma_decode_undoes_encode(b);
    }

    proof fn lemma_decode_undoes_encode(v: bool) {
    }

    fn to_bytes(&self) -> (bytes: Vec<u8>) {
        bool_as_bytes(self)
    }

    fn from_bytes(bytes: &[u8]) -> (value: bool) {
        bool_from_bytes(bytes)
    }
}

// ---------------------------------------------------------------------------
// u8
// ---------------------------------------------------------------------------

/// Calls `shodh_redb::Value::as_bytes` for `u8`, which is taken to give the
/// number as one byte.
#[verifier::external_body]
fn u8_as_bytes(value: &u8) -> (bytes: Vec<u8>)
    ensures
        bytes@ == seq![*value],
{
    <u8 as shodh_redb::Value>::as_bytes(value).to_vec()
}

/// Calls `shodh_redb::Value::from_bytes` for `u8`, which is taken to give the one
/// byte that there is, and 0 where there is not just one.
#[verifier::external_body]
fn u8_from_bytes(bytes: &[u8]) -> (value: u8)
    ensures
        value == if bytes@.len() == 1 { bytes@[0] } else { 0 },
{
    <u8 as shodh_redb::Value>::from_bytes(bytes)
}

impl StoredValue for u8 {
    open spec fn encode(v: u8) -> Seq<u8> {
        seq![v]
    }

    open spec fn encodable(v: u8) -> bool {
        true
    }

    open spec fn readable(bytes: Seq<u8>) -> bool {
        true
    }

    open spec fn decode(bytes: Seq<u8>) -> u8 {
        if bytes.len() == 1 {
            bytes[0]
        } else {
            0
        }
    }

    open spec fn lossless(v: u8) -> bool {
        true
    }

    proof fn lemma_encode_injective(a: u8, b: u8) {
        Self::lemma_decode_undoes_encode(a);
        Self::lemma_decode_undoes_encode(b);
    }

    proof fn lemma_decode_undoes_encode(v: u8) {
    }

    fn to_bytes(&self) -> (bytes: Vec<u8>) {
        u8_as_bytes(self)
    }

    fn from_bytes(bytes: &[u8]) -> (value: u8) {
        u8_from_bytes(bytes)
    }
}

// ---------------------------------------------------------------------------
// u64
// ---------------------------------------------------------------------------

/// Calls `shodh_redb::Value::as_bytes` for `u64`, which is taken to give the
/// eight little-endian bytes of the number.
#[verifier::external_body]
fn u64_as_bytes(value: &u64) -> (bytes: Vec<u8>)
    ensures
        bytes@ == spec_u64_to_le_bytes(*value),
{
    <u64 as shodh_redb::Value>::as_bytes(value).to_vec()
}

/// Calls `shodh_redb::Value::from_bytes` for `u64`, which is taken to give the
/// number of eight little-endian bytes, and 0 where there are not just eight.
#[verifier::external_body]
fn u64_from_bytes(bytes: &[u8]) -> (value: u64)
    ensures
        value == if bytes@.len() == 8 { spec_u64_from_le_bytes(bytes@) } else { 0 },
{
    <u64 as shodh_redb::Value>::from_bytes(bytes)
}

impl StoredValue for u64 {
    open spec fn encode(v: u64) -> Seq<u8> {
        spec_u64_to_le_bytes(v)
    }

    open spec fn encodable(v: u64) -> bool {
        true
    }

    open spec fn readable(bytes: Seq<u8>) -> bool {
        true
    }

    open spec fn decode(bytes: Seq<u8>) -> u64 {
        if bytes.len() == 8 {
            spec_u64_from_le_bytes(bytes)
        } else {
            0
        }
    }

    open spec fn lossless(v: u64) -> bool {
        true
    }

    proof fn lemma_encode_injective(a: u64, b: u64) {
        Self::lemma_decode_undoes_encode(a);
        Self::lemma_decode_undoes_encode(b);
    }

    proof fn lemma_decode_undoes_encode(v: u64) {
        vstd::bytes::lemma_auto_spec_u64_to_from_le_bytes();
    }

    fn to_bytes(&self) -> (bytes: Vec<u8>) {
        u64_as_bytes(self)
    }

    fn from_bytes(bytes: &[u8]) -> (value: u64) {
        u64_from_bytes(bytes)
    }
}

// ---------------------------------------------------------------------------
// String
// ---------------------------------------------------------------------------

/// Calls `shodh_redb::Value::as_bytes` for `String`, which is taken to give the
/// UTF-8 bytes of the text.
#[verifier::external_body]
fn string_as_bytes(value: &String) -> (bytes: Vec<u8>)
    ensures
        bytes@ == encode_utf8(value@),
{
    <String as shodh_redb::Value>::as_bytes(value).as_bytes().to_vec()
}

/// Calls `shodh_redb::Value::from_bytes` for `String`, which is taken to give the
/// text that valid UTF-8 bytes stand for. What it puts in place of bytes that are
/// not valid UTF-8 is left unsaid.
#[verifier::external_body]
fn string_from_bytes(bytes: &[u8]) -> (value: String)
    ensures
        valid_utf8(bytes@) ==> value@ == decode_utf8(bytes@),
{
    <String as shodh_redb::Value>::from_bytes(bytes)
}

impl StoredValue for String {
    open spec fn encode(v: Seq<char>) -> Seq<u8> {
        encode_utf8(v)
    }

    open spec fn encodable(v: Seq<char>) -> bool {
        true
    }

    open spec fn readable(bytes: Seq<u8>) -> bool {
        valid_utf8(bytes)
    }

    open spec fn decode(bytes: Seq<u8>) -> Seq<char> {
        decode_utf8(bytes)
    }

    open spec fn lossless(v: Seq<char>) -> bool {
        true
    }

    proof fn lemma_encode_injective(a: Seq<char>, b: Seq<char>) {
        Self::lemma_decode_undoes_encode(a);
        Self::lemma_decode_undoes_encode(b);
    }

    proof fn lemma_decode_undoes_encode(v: Seq<char>) {
        vstd::utf8::encode_utf8_valid_utf8(v);
        vstd::utf8::encode_utf8_decode_utf8(v);
    }

    fn to_bytes(&self) -> (bytes: Vec<u8>) {
        string_as_bytes(self)
    }

    fn from_bytes(bytes: &[u8]) -> (value: String) {
        string_from_bytes(bytes)
    }
}

// ---------------------------------------------------------------------------
// Vec<u8>
// ---------------------------------------------------------------------------

/// The bytes that follow the prefix, as many as it counts and as there are; none
/// where the prefix is cut short.
pub open spec fn counted_bytes(data: Seq<u8>) -> Seq<u8> {
    if data.len() == 0 || data.len() < varint_width(data) {
        Seq::empty()
    } else {
        let rest = data.skip(varint_width(data) as int);
        if varint_count(data) <= rest.len() {
            rest.take(varint_count(data) as int)
        } else {
            rest
        }
    }
}

/// Calls `shodh_redb::Value::as_bytes` for `Vec<u8>`, which is taken to give the
/// varint of the length and then the bytes themselves. The call reserves five
/// bytes beyond the length, and panics where a vector cannot hold that many.
#[verifier::external_body]
fn blob_as_bytes(value: &Vec<u8>) -> (bytes: Vec<u8>)
    requires
        value@.len() + 5 <= isize::MAX,
    ensures
        bytes@ == varint(value@.len()) + value@,
{
    <Vec<u8> as shodh_redb::Value>::as_bytes(value)
}

/// Calls `shodh_redb::Value::from_bytes` for `Vec<u8>`, which is taken to give the
/// bytes that follow the varint, as many as it counts and as there are.
#[verifier::external_body]
fn blob_from_bytes(bytes: &[u8]) -> (value: Vec<u8>)
    ensures
        value@ == counted_bytes(bytes@),
{
    <Vec<u8> as shodh_redb::Value>::from_bytes(bytes)
}

impl StoredValue for Vec<u8> {
    open spec fn encode(v: Seq<u8>) -> Seq<u8> {
        varint(v.len()) + v
    }

    open spec fn encodable(v: Seq<u8>) -> bool {
        v.len() + 5 <= isize::MAX
    }

    open spec fn readable(bytes: Seq<u8>) -> bool {
        true
    }

    open spec fn decode(bytes: Seq<u8>) -> Seq<u8> {
        counted_bytes(bytes)
    }

    open spec fn lossless(v: Seq<u8>) -> bool {
        v.len() <= u32::MAX
    }

    proof fn lemma_encode_injective(a: Seq<u8>, b: Seq<u8>) {
        law_strip_undoes_encode(a);
        law_strip_undoes_encode(b);
    }

    proof fn lemma_decode_undoes_encode(v: Seq<u8>) {
        vstd::bytes::lemma_auto_spec_u16_to_from_le_bytes();
        vstd::bytes::lemma_auto_spec_u32_to_from_le_bytes();
        law_strip_undoes_encode(v);
        let data = Self::encode(v);
        if 254 <= v.len() <= u16::MAX {
            assert(spec_u16_to_le_bytes(v.len() as u16).len() == 2);
            assert(data.subrange(1, 3) =~= spec_u16_to_le_bytes(v.len() as u16));
        } else if v.len() > u16::MAX {
            assert(spec_u32_to_le_bytes(v.len() as u32).len() == 4);
            assert(data.subrange(1, 5) =~= spec_u32_to_le_bytes(v.len() as u32));
        }
        assert(varint_count(data) == v.len());
        assert(v.take(v.len() as int) =~= v);
    }

    fn to_bytes(&self) -> (bytes: Vec<u8>) {
        blob_as_bytes(self)
    }

    fn from_bytes(bytes: &[u8]) -> (value: Vec<u8>) {
        blob_from_bytes(bytes)
    }
}

/// Stripping the prefix of a stored byte vector gives back the bytes that were
/// stored, whatever their number.
pub proof fn law_strip_undoes_encode(v: Seq<u8>)
    ensures
        after_varint(<Vec<u8> as StoredValue>::encode(v)) == v,
{
    vstd::bytes::lemma_auto_spec_u16_to_from_le_bytes();
    vstd::bytes::lemma_auto_spec_u32_to_from_le_bytes();
    let data = varint(v.len()) + v;
    assert(varint_width(data) == varint(v.len()).len());
    assert(data.skip(varint(v.len()).len() as int) =~= v);
}

// ---------------------------------------------------------------------------
// What the bytes are
// ---------------------------------------------------------------------------

/// A `bool` is stored as the byte 1 or 0, a `u8` as itself, a `u64` as its eight
/// little-endian bytes, a `String` as its UTF-8 bytes. All of their values can be
/// stored and are kept whole; so is a byte vector of up to `u32::MAX` bytes.
pub proof fn law_stored_bytes(b: bool, n: u8, m: u64, text: Seq<char>, blob: Seq<u8>)
    ensures
        <bool as StoredValue>::encode(b).len() == 1,
        <bool as StoredValue>::encode(b)[0] == if b { 1u8 } else { 0u8 },
        <u8 as StoredValue>::encode(n).len() == 1,
        <u8 as StoredValue>::encode(n)[0] == n,
        <u64 as StoredValue>::encode(m) == spec_u64_to_le_bytes(m),
        <String as StoredValue>::encode(text) == encode_utf8(text),
        <bool as StoredValue>::encodable(b) && <bool as StoredValue>::lossless(b),
        <u8 as StoredValue>::encodable(n) && <u8 as StoredValue>::lossless(n),
        <u64 as StoredValue>::encodable(m) && <u64 as StoredValue>::lossless(m),
        <String as StoredValue>::encodable(text) && <String as StoredValue>::lossless(text),
        <Vec<u8> as StoredValue>::encodable(blob) <==> blob.len() + 5 <= isize::MAX,
        <Vec<u8> as StoredValue>::lossless(blob) <==> blob.len() <= u32::MAX,
        ({
            let stored = <Vec<u8> as StoredValue>::encode(blob);
            &&& stored.skip(stored.len() - blob.len()) == blob
            &&& blob.len() < 254 ==> stored.len() == blob.len() + 1 && stored[0] == blob.len()
            &&& 254 <= blob.len() <= u16::MAX ==> stored.len() == blob.len() + 3 && stored[0] == 254
                && stored.subrange(1, 3) == spec_u16_to_le_bytes(blob.len() as u16)
            &&& u16::MAX < blob.len() <= u32::MAX ==> stored.len() == blob.len() + 5 && stored[0]
                == 255 && stored.subrange(1, 5) == spec_u32_to_le_bytes(blob.len() as u32)
        }),
{
    vstd::bytes::lemma_auto_spec_u16_to_from_le_bytes();
    vstd::bytes::lemma_auto_spec_u32_to_from_le_bytes();
    let stored = <Vec<u8> as StoredValue>::encode(blob);
    assert(stored.skip(stored.len() - blob.len()) =~= blob);
    if 254 <= blob.len() <= u16::MAX {
        assert(spec_u16_to_le_bytes(blob.len() as u16).len() == 2);
        assert(stored.subrange(1, 3) =~= spec_u16_to_le_bytes(blob.len() as u16));
    } else if u16::MAX < blob.len() <= u32::MAX {
        assert(spec_u32_to_le_bytes(blob.len() as u32).len() == 4);
        assert(stored.subrange(1, 5) =~= spec_u32_to_le_bytes(blob.len() as u32));
    }
}

/// The first `n` bytes, or all of them where there are fewer.
pub open spec fn at_most(bytes: Seq<u8>, n: int) -> Seq<u8> {
    if n <= bytes.len() {
        bytes.take(n)
    } else {
        bytes
    }
}

/// What is read from bytes, whether or not a value was stored as them: a `bool` is
/// true where the first byte is not 0; a number is 0 where the length is wrong; text
/// is read from valid UTF-8; a byte vector has as many bytes behind its count as the
/// count says, as far as there are so many.
pub proof fn law_read_bytes(bytes: Seq<u8>)
    ensures
        <bool as StoredValue>::readable(bytes),
        <bool as StoredValue>::decode(bytes) <==> bytes.len() > 0 && bytes[0] != 0,
        <u8 as StoredValue>::readable(bytes),
        <u8 as StoredValue>::decode(bytes) == if bytes.len() == 1 { bytes[0] } else { 0 },
        <u64 as StoredValue>::readable(bytes),
        <u64 as StoredValue>::decode(bytes) == if bytes.len() == 8 {
            spec_u64_from_le_bytes(bytes)
        } else {
            0
        },
        <String as StoredValue>::readable(bytes) <==> valid_utf8(bytes),
        <String as StoredValue>::decode(bytes) == decode_utf8(bytes),
        <Vec<u8> as StoredValue>::readable(bytes),
        ({
            let read = <Vec<u8> as StoredValue>::decode(bytes);
            &&& bytes.len() == 0 ==> read.len() == 0
            &&& 1 <= bytes.len() < 3 && bytes[0] == 254 ==> read.len() == 0
            &&& 1 <= bytes.len() < 5 && bytes[0] == 255 ==> read.len() == 0
            &&& bytes.len() >= 1 && bytes[0] <= 253 ==> read == at_most(
                bytes.skip(1),
                bytes[0] as int,
            )
            &&& bytes.len() >= 3 && bytes[0] == 254 ==> read == at_most(
                bytes.skip(3),
                spec_u16_from_le_bytes(bytes.subrange(1, 3)) as int,
            )
            &&& bytes.len() >= 5 && bytes[0] == 255 ==> read == at_most(
                bytes.skip(5),
                spec_u32_from_le_bytes(bytes.subrange(1, 5)) as int,
            )
        }),
{
}

/// Stripping takes off one byte where the first is at most 253, three where it is
/// 254 and five where it is 255; where there are not so many, it takes off none.
pub proof fn law_strip_takes_off_the_prefix(data: Seq<u8>)
    ensures
        data.len() == 0 ==> after_varint(data) == data,
        data.len() >= 1 && data[0] <= 253 ==> after_varint(data) == data.skip(1),
        data.len() >= 3 && data[0] == 254 ==> after_varint(data) == data.skip(3),
        data.len() >= 5 && data[0] == 255 ==> after_varint(data) == data.skip(5),
        1 <= data.len() < 3 && data[0] == 254 ==> after_varint(data) == data,
        1 <= data.len() < 5 && data[0] == 255 ==> after_varint(data) == data,
{
}

} // verus!

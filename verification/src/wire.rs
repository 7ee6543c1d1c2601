//! Protocol Buffers wire-format building blocks. Each field writer appends to
//! a byte buffer through the `prost` encoding routines; its contract states
//! the exact bytes of the wire format.
use vstd::prelude::*;
use vstd::utf8::encode_utf8;

verus! {

/// Largest field number a Protocol Buffers key can carry.
pub const MAX_TAG: u32 = 536870911;

/// Base-128 varint: seven bits per byte, least significant group first, with
/// the high bit set on every byte but the last.
pub open spec fn varint(v: nat) -> Seq<u8>
    decreases v,
{
    if v < 128 {
        seq![v as u8]
    } else {
        seq![(v % 128 + 128) as u8] + varint(v / 128)
    }
}

/// Field key: the field number shifted past the three wire-type bits.
pub open spec fn key(tag: nat, wire_type: nat) -> Seq<u8> {
    varint(tag * 8 + wire_type)
}

/// Zig-zag mapping of a signed integer onto an unsigned one (0, -1, 1, -2, ...).
pub open spec fn zigzag(v: int) -> nat {
    if v >= 0 {
        (2 * v) as nat
    } else {
        (-2 * v - 1) as nat
    }
}

/// The eight little-endian bytes of a 64-bit word.
pub open spec fn le_bytes(w: u64) -> Seq<u8> {
    Seq::new(8, |j: int| (w >> (8 * j) as u64) as u8)
}

/// A varint-typed field (`uint64`, `uint32`, `int32` and enums).
pub open spec fn varint_field(tag: nat, v: nat) -> Seq<u8> {
    key(tag, 0) + varint(v)
}

/// A 64-bit field (`double`, given by its IEEE-754 bit pattern).
pub open spec fn fixed64_field(tag: nat, w: u64) -> Seq<u8> {
    key(tag, 1) + le_bytes(w)
}

/// A length-delimited field: strings, bytes and embedded messages.
pub open spec fn delimited_field(tag: nat, payload: Seq<u8>) -> Seq<u8> {
    key(tag, 2) + varint(payload.len()) + payload
}

/// How an `int32` value is widened before varint encoding: negative values
/// are sign-extended to 64 bits.
pub open spec fn int32_wire(v: i32) -> nat {
    if v >= 0 {
        v as nat
    } else {
        (v + 0x1_0000_0000_0000_0000) as nat
    }
}

/// Reads a varint from the front of `b`: its value and how many bytes it takes.
pub open spec fn decode_varint(b: Seq<u8>) -> Option<(nat, nat)>
    decreases b.len(),
{
    if b.len() == 0 {
        None
    } else if b[0] < 128 {
        Some((b[0] as nat, 1))
    } else {
        match decode_varint(b.drop_first()) {
            Some((v, n)) => Some((((b[0] - 128) + 128 * v) as nat, n + 1)),
            None => None,
        }
    }
}

/// A varint reads back as the value it encodes, whatever follows it.
pub proof fn lemma_varint_roundtrip(v: nat, rest: Seq<u8>)
    ensures
        decode_varint(varint(v) + rest) == Some((v, varint(v).len())),
    decreases v,
{
    let b = varint(v) + rest;
    if v < 128 {
        assert(b[0] == v as u8);
    } else {
        lemma_varint_roundtrip(v / 128, rest);
        assert(b.drop_first() =~= varint(v / 128) + rest);
        assert(b[0] == (v % 128 + 128) as u8);
    }
}

/// Appends the varint encoding of `value`.
///
/// Calls `prost::encoding::encode_varint`, which writes base-128 groups, least
/// significant first, with the continuation bit on all but the last byte.
#[verifier::external_body]
pub(crate) fn put_varint(value: u64, buf: &mut Vec<u8>)
    requires
        old(buf)@.len() + varint(value as nat).len() <= isize::MAX,
    ensures
        final(buf)@ == old(buf)@ + varint(value as nat),
{
    prost::encoding::encode_varint(value, buf);
}


/// Appends a `uint64` field.
///
/// Calls `prost::encoding::uint64::encode`, which writes the key with wire
/// type 0 and then the value as a varint.
#[verifier::external_body]
pub(crate) fn put_uint64(tag: u32, value: u64, buf: &mut Vec<u8>)
    requires
        1 <= tag <= MAX_TAG,
        old(buf)@.len() + varint_field(tag as nat, value as nat).len() <= isize::MAX,
    ensures
        final(buf)@ == old(buf)@ + varint_field(tag as nat, value as nat),
{
    prost::encoding::uint64::encode(tag, &value, buf);
}

/// Appends a `uint32` field.
///
/// Calls `prost::encoding::uint32::encode`, which writes the key with wire
/// type 0 and then the value as a varint.
#[verifier::external_body]
pub(crate) fn put_uint32(tag: u32, value: u32, buf: &mut Vec<u8>)
    requires
        1 <= tag <= MAX_TAG,
        old(buf)@.len() + varint_field(tag as nat, value as nat).len() <= isize::MAX,
    ensures
        final(buf)@ == old(buf)@ + varint_field(tag as nat, value as nat),
{
    prost::encoding::uint32::encode(tag, &value, buf);
}

/// Appends an `int32` (or enum) field.
///
/// Calls `prost::encoding::int32::encode`, which writes the key with wire
/// type 0 and then the value, sign-extended to 64 bits, as a varint.
#[verifier::external_body]
pub(crate) fn put_int32(tag: u32, value: i32, buf: &mut Vec<u8>)
    requires
        1 <= tag <= MAX_TAG,
        old(buf)@.len() + varint_field(tag as nat, int32_wire(value)).len() <= isize::MAX,
    ensures
        final(buf)@ == old(buf)@ + varint_field(tag as nat, int32_wire(value)),
{
    prost::encoding::int32::encode(tag, &value, buf);
}

/// Appends a `sint32` field.
///
/// Calls `prost::encoding::sint32::encode`, which writes the key with wire
/// type 0 and then the zig-zag mapped value as a varint.
#[verifier::external_body]
pub(crate) fn put_sint32(tag: u32, value: i32, buf: &mut Vec<u8>)
    requires
        1 <= tag <= MAX_TAG,
        old(buf)@.len() + varint_field(tag as nat, zigzag(value as int)).len() <= isize::MAX,
    ensures
        final(buf)@ == old(buf)@ + varint_field(tag as nat, zigzag(value as int)),
{
    prost::encoding::sint32::encode(tag, &value, buf);
}

/// Appends a `sint64` field.
///
/// Calls `prost::encoding::sint64::encode`, which writes the key with wire
/// type 0 and then the zig-zag mapped value as a varint.
#[verifier::external_body]
pub(crate) fn put_sint64(tag: u32, value: i64, buf: &mut Vec<u8>)
    requires
        1 <= tag <= MAX_TAG,
        old(buf)@.len() + varint_field(tag as nat, zigzag(value as int)).len() <= isize::MAX,
    ensures
        final(buf)@ == old(buf)@ + varint_field(tag as nat, zigzag(value as int)),
{
    prost::encoding::sint64::encode(tag, &value, buf);
}

/// Appends a 64-bit field; a `double` is written through its bit pattern.
///
/// Calls `prost::encoding::fixed64::encode`, which writes the key with wire
/// type 1 and then the eight little-endian bytes of the word.
#[verifier::external_body]
pub(crate) fn put_fixed64(tag: u32, word: u64, buf: &mut Vec<u8>)
    requires
        1 <= tag <= MAX_TAG,
        old(buf)@.len() + fixed64_field(tag as nat, word).len() <= isize::MAX,
    ensures
        final(buf)@ == old(buf)@ + fixed64_field(tag as nat, word),
{
    prost::encoding::fixed64::encode(tag, &word, buf);
}

/// Appends a `string` field.
///
/// Calls `prost::encoding::string::encode`, which writes the key with wire
/// type 2, the byte length as a varint, and the UTF-8 bytes of the string.
#[verifier::external_body]
pub(crate) fn put_string(tag: u32, value: &String, buf: &mut Vec<u8>)
    requires
        1 <= tag <= MAX_TAG,
        old(buf)@.len() + delimited_field(tag as nat, encode_utf8(value@)).len() <= isize::MAX,
    ensures
        final(buf)@ == old(buf)@ + delimited_field(tag as nat, encode_utf8(value@)),
{
    prost::encoding::string::encode(tag, value, buf);
}

/// Appends a length-delimited field holding `payload`, such as an encoded
/// embedded message.
///
/// Calls `prost::encoding::bytes::encode`, which writes the key with wire
/// type 2, the payload length as a varint, and the payload bytes.
#[verifier::external_body]
pub(crate) fn put_delimited(tag: u32, payload: &Vec<u8>, buf: &mut Vec<u8>)
    requires
        1 <= tag <= MAX_TAG,
        old(buf)@.len() + delimited_field(tag as nat, payload@).len() <= isize::MAX,
    ensures
        final(buf)@ == old(buf)@ + delimited_field(tag as nat, payload@),
{
    prost::encoding::bytes::encode(tag, payload, buf);
}

} // verus!

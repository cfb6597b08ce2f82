//! Byte buffers. The endpoint reads requests from `bytes::Bytes` and writes
//! responses into `bytes::BytesMut`; this module gives both a mathematical
//! content and states what each buffer operation does to it.

use bytes::{Buf, BufMut, Bytes, BytesMut};
use vstd::prelude::*;

verus! {

/// The `width` base-256 digits of `value`, most significant first.
pub open spec fn be_bytes(value: nat, width: nat) -> Seq<u8>
    decreases width,
{
    if width == 0 {
        Seq::empty()
    } else {
        be_bytes(value / 256, (width - 1) as nat).push((value % 256) as u8)
    }
}

/// The number whose base-256 digits, most significant first, are `bytes`.
pub open spec fn be_value(bytes: Seq<u8>) -> nat
    decreases bytes.len(),
{
    if bytes.len() == 0 {
        0
    } else {
        be_value(bytes.drop_last()) * 256 + bytes.last() as nat
    }
}

/// The two big-endian bytes of a signed 16-bit integer in two's complement.
pub open spec fn i16_be_bytes(value: i16) -> Seq<u8> {
    be_bytes((if value < 0 { value + 0x1_0000 } else { value as int }) as nat, 2)
}

/// The four big-endian bytes of a signed 32-bit integer in two's complement.
pub open spec fn i32_be_bytes(value: i32) -> Seq<u8> {
    be_bytes((if value < 0 { value + 0x1_0000_0000 } else { value as int }) as nat, 4)
}

/// The signed 16-bit integer that two big-endian bytes stand for.
pub open spec fn i16_from_be(bytes: Seq<u8>) -> i16 {
    let unsigned = be_value(bytes);
    if unsigned < 0x8000 {
        unsigned as i16
    } else {
        (unsigned - 0x1_0000) as i16
    }
}

/// The signed 32-bit integer that four big-endian bytes stand for.
pub open spec fn i32_from_be(bytes: Seq<u8>) -> i32 {
    let unsigned = be_value(bytes);
    if unsigned < 0x8000_0000 {
        unsigned as i32
    } else {
        (unsigned - 0x1_0000_0000) as i32
    }
}

/// `bytes::Bytes`, the buffer that requests are read from. Its inside is
/// not visible here; `pending` names what it holds.
#[verifier::external_type_specification]
#[verifier::external_body]
pub struct ExBytes(bytes::Bytes);

/// `bytes::BytesMut`, the buffer that responses are written into. Its
/// inside is not visible here; `written` names what it holds.
#[verifier::external_type_specification]
#[verifier::external_body]
pub struct ExBytesMut(bytes::BytesMut);

/// The bytes that a read buffer still holds, in reading order.
pub uninterp spec fn pending(buf: Bytes) -> Seq<u8>;

/// The bytes that a write buffer holds, in writing order.
pub uninterp spec fn written(buf: BytesMut) -> Seq<u8>;

/// `Buf::remaining` on `Bytes`: the number of bytes not yet read.
#[verifier::external_body]
pub(crate) fn remaining(buf: &Bytes) -> (count: usize)
    ensures
        count == pending(*buf).len(),
{
    buf.remaining()
}

/// `Buf::has_remaining` on `Bytes`: whether a byte is left to read.
#[verifier::external_body]
pub(crate) fn has_remaining(buf: &Bytes) -> (any: bool)
    ensures
        any == (pending(*buf).len() > 0),
{
    buf.has_remaining()
}

/// `Buf::get_u8` on `Bytes`: takes the first byte off the buffer. The call
/// panics on an empty buffer, which the precondition rules out.
#[verifier::external_body]
pub(crate) fn get_u8(buf: &mut Bytes) -> (byte: u8)
    requires
        pending(*old(buf)).len() >= 1,
    ensures
        byte == pending(*old(buf))[0],
        pending(*final(buf)) == pending(*old(buf)).skip(1),
{
    buf.get_u8()
}

/// `Buf::get_i16` on `Bytes`: takes two bytes off the buffer and reads them
/// as a big-endian signed integer. The call panics on fewer than two bytes.
#[verifier::external_body]
pub(crate) fn get_i16(buf: &mut Bytes) -> (value: i16)
    requires
        pending(*old(buf)).len() >= 2,
    ensures
        value == i16_from_be(pending(*old(buf)).take(2)),
        pending(*final(buf)) == pending(*old(buf)).skip(2),
{
    buf.get_i16()
}

/// `Buf::get_i32` on `Bytes`: takes four bytes off the buffer and reads them
/// as a big-endian signed integer. The call panics on fewer than four bytes.
#[verifier::external_body]
pub(crate) fn get_i32(buf: &mut Bytes) -> (value: i32)
    requires
        pending(*old(buf)).len() >= 4,
    ensures
        value == i32_from_be(pending(*old(buf)).take(4)),
        pending(*final(buf)) == pending(*old(buf)).skip(4),
{
    buf.get_i32()
}

/// `BytesMut::new`: an empty write buffer.
#[verifier::external_body]
pub(crate) fn new_buffer() -> (buf: BytesMut)
    ensures
        written(buf) == Seq::<u8>::empty(),
{
    BytesMut::new()
}

/// `BufMut::put_u8` on `BytesMut`: appends one byte. The buffer grows as
/// needed up to `isize::MAX` bytes; the call panics beyond that.
#[verifier::external_body]
pub(crate) fn put_u8(buf: &mut BytesMut, byte: u8)
    requires
        written(*old(buf)).len() + 1 <= isize::MAX,
    ensures
        written(*final(buf)) == written(*old(buf)).push(byte),
{
    buf.put_u8(byte)
}

/// `BufMut::put_i16` on `BytesMut`: appends the two big-endian bytes of
/// `value`. The call panics where the buffer would pass `isize::MAX` bytes.
#[verifier::external_body]
pub(crate) fn put_i16(buf: &mut BytesMut, value: i16)
    requires
        written(*old(buf)).len() + 2 <= isize::MAX,
    ensures
        written(*final(buf)) == written(*old(buf)) + i16_be_bytes(value),
{
    buf.put_i16(value)
}

/// `BufMut::put_i32` on `BytesMut`: appends the four big-endian bytes of
/// `value`. The call panics where the buffer would pass `isize::MAX` bytes.
#[verifier::external_body]
pub(crate) fn put_i32(buf: &mut BytesMut, value: i32)
    requires
        written(*old(buf)).len() + 4 <= isize::MAX,
    ensures
        written(*final(buf)) == written(*old(buf)) + i32_be_bytes(value),
{
    buf.put_i32(value)
}

/// `BufMut::put_u32` on `BytesMut`: appends the four big-endian bytes of
/// `value`. The call panics where the buffer would pass `isize::MAX` bytes.
#[verifier::external_body]
pub(crate) fn put_u32(buf: &mut BytesMut, value: u32)
    requires
        written(*old(buf)).len() + 4 <= isize::MAX,
    ensures
        written(*final(buf)) == written(*old(buf)) + be_bytes(value as nat, 4),
{
    buf.put_u32(value)
}

/// `BufMut::put_u128` on `BytesMut`: appends the sixteen big-endian bytes of
/// `value`. The call panics where the buffer would pass `isize::MAX` bytes.
#[verifier::external_body]
pub(crate) fn put_u128(buf: &mut BytesMut, value: u128)
    requires
        written(*old(buf)).len() + 16 <= isize::MAX,
    ensures
        written(*final(buf)) == written(*old(buf)) + be_bytes(value as nat, 16),
{
    buf.put_u128(value)
}

/// `BytesMut::extend_from_slice`: appends `bytes`. The call panics where
/// the buffer would pass `isize::MAX` bytes.
#[verifier::external_body]
pub(crate) fn extend_from_slice(buf: &mut BytesMut, bytes: &[u8])
    requires
        written(*old(buf)).len() + bytes@.len() <= isize::MAX,
    ensures
        written(*final(buf)) == written(*old(buf)) + bytes@,
{
    buf.extend_from_slice(bytes)
}

/// `BytesMut::freeze`: the written bytes as a read buffer.
#[verifier::external_body]
pub(crate) fn freeze(buf: BytesMut) -> (frozen: Bytes)
    ensures
        pending(frozen) == written(buf),
{
    buf.freeze()
}

/// `Bytes::split_to`: takes the first `at` bytes off the buffer and returns
/// them as a buffer of their own. The call panics where `at` is more than
/// the buffer holds.
#[verifier::external_body]
pub(crate) fn split_to(buf: &mut Bytes, at: usize) -> (head: Bytes)
    requires
        at <= pending(*old(buf)).len(),
    ensures
        pending(head) == pending(*old(buf)).take(at as int),
        pending(*final(buf)) == pending(*old(buf)).skip(at as int),
{
    buf.split_to(at)
}

/// `AsRef::as_ref` on `Bytes`: the bytes not yet read, as a slice.
#[verifier::external_body]
pub(crate) fn as_slice(buf: &Bytes) -> (bytes: &[u8])
    ensures
        bytes@ == pending(*buf),
{
    buf.as_ref()
}

/// A big-endian encoding has as many bytes as it was asked for.
pub proof fn lemma_be_bytes_len(value: nat, width: nat)
    ensures
        be_bytes(value, width).len() == width,
    decreases width,
{
    if width > 0 {
        lemma_be_bytes_len(value / 256, (width - 1) as nat);
    }
}

/// The bytes of a number spell the number, up to what `width` bytes hold.
pub proof fn lemma_be_value_of_bytes(value: nat, width: nat)
    ensures
        be_value(be_bytes(value, width)) == value % be_limit(width),
    decreases width,
{
    if width > 0 {
        let shorter = be_bytes(value / 256, (width - 1) as nat);
        let encoded = be_bytes(value, width);
        let limit = be_limit((width - 1) as nat);
        lemma_be_value_of_bytes(value / 256, (width - 1) as nat);
        lemma_be_limit_positive((width - 1) as nat);
        assert(encoded.drop_last() == shorter);
        assert(encoded.last() == (value % 256) as u8);
        assert(be_value(encoded) == ((value / 256) % limit) * 256 + value % 256);
        vstd::arithmetic::div_mod::lemma_breakdown(value as int, 256, limit as int);
    }
}

/// 256 to the power `width`: one more than the largest number of `width`
/// bytes.
pub open spec fn be_limit(width: nat) -> nat
    decreases width,
{
    if width == 0 {
        1
    } else {
        256 * be_limit((width - 1) as nat)
    }
}

proof fn lemma_be_limit_positive(width: nat)
    ensures
        be_limit(width) > 0,
    decreases width,
{
    if width > 0 {
        lemma_be_limit_positive((width - 1) as nat);
    }
}

/// Signed integers written big-endian are read back unchanged.
pub proof fn lemma_signed_be_round_trip(short: i16, long: i32)
    ensures
        i16_be_bytes(short).len() == 2,
        i32_be_bytes(long).len() == 4,
        i16_from_be(i16_be_bytes(short)) == short,
        i32_from_be(i32_be_bytes(long)) == long,
{
    reveal_with_fuel(be_limit, 5);
    let short_bits = (if short < 0 {
        short + 0x1_0000
    } else {
        short as int
    }) as nat;
    let long_bits = (if long < 0 {
        long + 0x1_0000_0000
    } else {
        long as int
    }) as nat;
    lemma_be_bytes_len(short_bits, 2);
    lemma_be_bytes_len(long_bits, 4);
    lemma_be_value_of_bytes(short_bits, 2);
    lemma_be_value_of_bytes(long_bits, 4);
    assert(be_limit(2) == 0x1_0000);
    assert(be_limit(4) == 0x1_0000_0000);
}

} // verus!

//! The primitives of the wire format: fixed-width big-endian fields,
//! unsigned varints, compact strings, compact arrays and tag buffers.
//!
//! Each decoder has a model over `Seq<u8>` that gives, for every input, the
//! value or the failure and the bytes left unread. The executable decoders
//! work on a `Bytes` buffer and are proved to agree with the model.

use crate::buffer::{
    extend_from_slice, get_i16, get_i32, get_u8, has_remaining, i16_be_bytes, i16_from_be,
    i32_be_bytes, i32_from_be, lemma_signed_be_round_trip, pending, put_u8, remaining, written,
};
use crate::errors::{DecodeError, Field};
use crate::text::{read_text, text_of};
use bytes::{Bytes, BytesMut};
use vstd::prelude::*;
use vstd::utf8::encode_utf8;

verus! {

/// What a decoder makes of its input: a value or a failure, and the bytes
/// left unread in either case.
pub struct Decoded<T> {
    pub result: Result<T, DecodeError>,
    pub rest: Seq<u8>,
}

impl<T> Decoded<T> {
    /// The failure of this decoder as the outcome of a decoder that
    /// called it: the same error, the same bytes left.
    pub open spec fn failure<U>(self) -> Decoded<U> {
        Decoded { result: Err(self.result->Err_0), rest: self.rest }
    }
}

/// 128 to the power `exponent`: the weight of a varint's group.
pub open spec fn pow128(exponent: nat) -> nat
    decreases exponent,
{
    if exponent == 0 {
        1
    } else {
        128 * pow128((exponent - 1) as nat)
    }
}

/// The number of bytes of the varint at the head of `input`: up to and
/// including the first byte without the continuation bit, if one is found
/// among the first `budget` bytes.
pub open spec fn varint_len(input: Seq<u8>, budget: nat) -> Option<nat>
    decreases budget,
{
    if budget == 0 || input.len() == 0 {
        None
    } else if input[0] < 128 {
        Some(1)
    } else {
        match varint_len(input.skip(1), (budget - 1) as nat) {
            Some(n) => Some(n + 1),
            None => None,
        }
    }
}

/// The number that the 7-bit groups of `bytes` spell, least significant
/// group first.
pub open spec fn uvarint_value(bytes: Seq<u8>) -> nat
    decreases bytes.len(),
{
    if bytes.len() == 0 {
        0
    } else {
        (bytes[0] % 128) as nat + 128 * uvarint_value(bytes.skip(1))
    }
}

/// Decodes the unsigned varint at the head of `input`.
///
/// The varint ends at the first byte without the continuation bit. It is
/// malformed if the first five bytes all continue, or if the fifth byte ends
/// it with a payload above `0x0F`, which would not fit 32 bits; five bytes
/// are consumed then. If the input ends before the varint does, all of it
/// is consumed.
pub open spec fn decode_uvarint(input: Seq<u8>, field: Field) -> Decoded<u32> {
    match varint_len(input, 5) {
        None => if input.len() < 5 {
            Decoded { result: Err(DecodeError::UnexpectedEof { field }), rest: Seq::empty() }
        } else {
            Decoded {
                result: Err(DecodeError::MalformedVarint { field, byte: input[4] }),
                rest: input.skip(5),
            }
        },
        Some(n) => if n == 5 && input[4] > 0x0F {
            Decoded {
                result: Err(DecodeError::MalformedVarint { field, byte: input[4] }),
                rest: input.skip(5),
            }
        } else {
            Decoded {
                result: Ok(uvarint_value(input.take(n as int)) as u32),
                rest: input.skip(n as int),
            }
        },
    }
}

/// The canonical encoding of `value`: 7-bit groups, least significant first,
/// with the continuation bit on every byte but the last, and no more bytes
/// than the value needs.
pub open spec fn encode_uvarint(value: nat) -> Seq<u8>
    decreases value,
{
    if value < 128 {
        seq![value as u8]
    } else {
        seq![(value % 128 + 128) as u8] + encode_uvarint(value / 128)
    }
}

proof fn lemma_byte_groups(byte: u8)
    by (bit_vector)
    ensures
        byte & 0x7F == byte % 128,
        (byte & 0x80 == 0) <==> byte < 128,
{
}

proof fn lemma_add_group(acc: u32, payload: u32, shift: u32)
    by (bit_vector)
    requires
        shift == 0 || shift == 7 || shift == 14 || shift == 21 || shift == 28,
        acc < (1u32 << shift),
        payload < 128,
        shift == 28 ==> payload < 16,
    ensures
        (acc | (payload << shift)) == acc + payload * (1u32 << shift),
        shift < 28 ==> (acc | (payload << shift)) < (1u32 << ((shift + 7) as u32)),
{
}

proof fn lemma_shifts()
    by (bit_vector)
    ensures
        1u32 << 0u32 == 1,
        1u32 << 7u32 == 128,
        1u32 << 14u32 == 16384,
        1u32 << 21u32 == 2097152,
        1u32 << 28u32 == 268435456,
{
}


/// A run of continuation bytes at the head of the input only postpones the
/// end of the varint.
proof fn lemma_varint_len_skip(input: Seq<u8>, budget: nat, run: nat)
    requires
        run <= budget,
        run <= input.len(),
        forall|j: int| 0 <= j < run ==> input[j] >= 128,
    ensures
        varint_len(input, budget) == match varint_len(
            input.skip(run as int),
            (budget - run) as nat,
        ) {
            Some(n) => Some(n + run),
            None => None,
        },
    decreases run,
{
    if run > 0 {
        let tail = input.skip(1);
        assert forall|j: int| 0 <= j < run - 1 implies tail[j] >= 128 by {
            assert(tail[j] == input[j + 1]);
        }
        lemma_varint_len_skip(tail, (budget - 1) as nat, (run - 1) as nat);
        assert(tail.skip(run - 1) == input.skip(run as int));
    } else {
        assert(input.skip(0) == input);
    }
}

/// One more group adds its payload at the weight of its position.
proof fn lemma_uvarint_value_push(bytes: Seq<u8>, byte: u8)
    ensures
        uvarint_value(bytes.push(byte)) == uvarint_value(bytes) + (byte % 128) * pow128(
            bytes.len(),
        ),
    decreases bytes.len(),
{
    let longer = bytes.push(byte);
    let group = (byte % 128) as nat;
    if bytes.len() == 0 {
        assert(longer.skip(1).len() == 0);
        assert(uvarint_value(longer.skip(1)) == 0);
        assert(pow128(0) == 1);
        assert(group * 1 == group);
    } else {
        let tail = bytes.skip(1);
        lemma_uvarint_value_push(tail, byte);
        assert(longer.skip(1) == tail.push(byte));
        assert(longer[0] == bytes[0]);
        let weight = pow128(tail.len());
        assert(pow128(bytes.len()) == 128 * weight);
        assert(uvarint_value(longer) == (bytes[0] % 128) as nat + 128 * (uvarint_value(tail) + group
            * weight));
        assert(128 * (uvarint_value(tail) + group * weight) == 128 * uvarint_value(tail) + group
            * (128 * weight)) by (nonlinear_arith);
        assert(uvarint_value(longer) == uvarint_value(bytes) + group * pow128(bytes.len()));
    }
}

/// The weights of the five groups of a 32-bit varint.
proof fn lemma_pow128_values()
    ensures
        pow128(0) == 1,
        pow128(1) == 128,
        pow128(2) == 16384,
        pow128(3) == 2097152,
        pow128(4) == 268435456,
        pow128(5) == 34359738368,
{
    reveal_with_fuel(pow128, 6);
}

/// Reads the unsigned varint at the head of `message`.
pub fn read_uvarint(message: &mut Bytes, field: Field) -> (outcome: Result<u32, DecodeError>)
    ensures
        outcome == decode_uvarint(pending(*old(message)), field).result,
        pending(*final(message)) == decode_uvarint(pending(*old(message)), field).rest,
{
    let ghost input = pending(*message);
    let mut result: u32 = 0;
    let mut shift: u32 = 0;
    let mut index: usize = 0;
    proof {
        lemma_pow128_values();
        lemma_shifts();
        assert(input.skip(0) == input);
    }
    loop
        invariant
            index < 5,
            shift == 7 * index,
            index <= input.len(),
            pending(*message) == input.skip(index as int),
            forall|j: int| 0 <= j < index ==> input[j] >= 128,
            result == uvarint_value(input.take(index as int)),
            result < pow128(index as nat),
            pow128(index as nat) == (1u32 << shift),
            input == pending(*old(message)),
        decreases 5 - index,
    {
        proof {
            lemma_varint_len_skip(input, 5, index as nat);
        }
        if !has_remaining(message) {
            assert(input.skip(index as int).len() == 0);
            assert(pending(*message) == Seq::<u8>::empty());
            return Err(DecodeError::UnexpectedEof { field });
        }
        let byte = get_u8(message);
        let payload = (byte & 0x7F) as u32;
        proof {
            lemma_byte_groups(byte);
            lemma_pow128_values();
            lemma_shifts();
            assert(byte == input[index as int]);
            assert(input.skip(index as int).skip(1) == input.skip(index + 1));
            assert(input.take(index + 1) == input.take(index as int).push(byte));
            lemma_uvarint_value_push(input.take(index as int), byte);
        }
        if byte & 0x80 == 0 {
            if index == 4 && payload > 0x0F {
                return Err(DecodeError::MalformedVarint { field, byte });
            }
            proof {
                lemma_add_group(result, payload, shift);
                assert(payload * (1u32 << shift) == (byte % 128) * pow128(index as nat));
            }
            return Ok(result | (payload << shift));
        }
        if index == 4 {
            proof {
                let tail = input.skip(4);
                assert(varint_len(tail.skip(1), 0) == None::<nat>);
                assert(varint_len(tail, 1) == None::<nat>);
            }
            return Err(DecodeError::MalformedVarint { field, byte });
        }
        proof {
            lemma_add_group(result, payload, shift);
            assert(payload * (1u32 << shift) == (byte % 128) * pow128(index as nat));
        }
        result = result | (payload << shift);
        shift = shift + 7;
        index = index + 1;
    }
}


proof fn lemma_low_group(value: u32)
    by (bit_vector)
    ensures
        value >= 128 ==> (((value as u8) & 0x7F) | 0x80) == value % 128 + 128,
        value < 128 ==> (value as u8) == value,
        value >> 7u32 == value / 128,
{
}

/// Appends the canonical varint encoding of `val` to `buf`.
pub fn write_uvarint(buf: &mut BytesMut, val: u32)
    requires
        written(*old(buf)).len() + encode_uvarint(val as nat).len() <= isize::MAX,
    ensures
        written(*final(buf)) == written(*old(buf)) + encode_uvarint(val as nat),
{
    let mut left = val;
    loop
        invariant
            written(*buf) + encode_uvarint(left as nat) == written(*old(buf)) + encode_uvarint(
                val as nat,
            ),
            written(*old(buf)).len() + encode_uvarint(val as nat).len() <= isize::MAX,
        decreases left,
    {
        proof {
            lemma_low_group(left);
            assert((written(*buf) + encode_uvarint(left as nat)).len() == (written(*old(buf))
                + encode_uvarint(val as nat)).len());
        }
        if left < 0x80 {
            put_u8(buf, #[verifier::truncate] (left as u8));
            return ;
        }
        let ghost before = written(*buf);
        let ghost group = (left % 128 + 128) as u8;
        put_u8(buf, (#[verifier::truncate] (left as u8) & 0x7F) | 0x80);
        assert(before.push(group) + encode_uvarint((left / 128) as nat) == before + (seq![group]
            + encode_uvarint((left / 128) as nat)));
        left = left >> 7;
    }
}

/// The shape of a canonical encoding: every byte but the last continues,
/// the groups spell the value, and a value below `top * 128^(groups-1)`
/// takes at most `groups` bytes, the last of them below `top`.
proof fn lemma_encode_uvarint_shape(value: nat, groups: nat, top: nat)
    requires
        groups >= 1,
        top <= 128,
        value < top * pow128((groups - 1) as nat),
    ensures
        1 <= encode_uvarint(value).len() <= groups,
        forall|j: int| 0 <= j < encode_uvarint(value).len() - 1 ==> encode_uvarint(value)[j] >= 128,
        encode_uvarint(value).last() < 128,
        encode_uvarint(value).len() == groups ==> encode_uvarint(value).last() < top,
        encode_uvarint(value).len() > 1 ==> encode_uvarint(value).last() > 0,
        uvarint_value(encode_uvarint(value)) == value,
    decreases value,
{
    let encoded = encode_uvarint(value);
    if value < 128 {
        assert(encoded.skip(1).len() == 0);
        assert(uvarint_value(encoded.skip(1)) == 0);
        if groups == 1 {
            assert(top * pow128(0) == top) by (nonlinear_arith)
                requires
                    pow128(0) == 1,
            ;
        }
    } else {
        let tail = encode_uvarint(value / 128);
        assert(encoded.skip(1) == tail);
        if groups == 1 {
            assert(top * pow128(0) == top) by (nonlinear_arith)
                requires
                    pow128(0) == 1,
            ;
            assert(false);
        }
        let weight = pow128((groups - 2) as nat);
        assert(pow128((groups - 1) as nat) == 128 * weight);
        assert(value / 128 < top * weight) by (nonlinear_arith)
            requires
                value < top * (128 * weight),
        ;
        lemma_encode_uvarint_shape(value / 128, (groups - 1) as nat, top);
        assert(encoded.last() == tail.last());
        assert forall|j: int| 0 <= j < encoded.len() - 1 implies encoded[j] >= 128 by {
            if j > 0 {
                assert(encoded[j] == tail[j - 1]);
            }
        }
        if tail.len() == 1 {
            assert(tail.last() == (value / 128) as u8);
        }
    }
}

/// A varint that was written is read back: decoding the canonical encoding
/// of any 32-bit value, with whatever follows it, gives the value and
/// leaves what follows.
pub proof fn lemma_uvarint_round_trip(value: u32, rest: Seq<u8>, field: Field)
    ensures
        decode_uvarint(encode_uvarint(value as nat) + rest, field) == (Decoded {
            result: Ok(value),
            rest,
        }),
        1 <= encode_uvarint(value as nat).len() <= 5,
{
    let encoded = encode_uvarint(value as nat);
    let input = encoded + rest;
    lemma_pow128_values();
    lemma_encode_uvarint_shape(value as nat, 5, 16);
    let run = (encoded.len() - 1) as nat;
    assert forall|j: int| 0 <= j < run implies input[j] >= 128 by {
        assert(input[j] == encoded[j]);
    }
    lemma_varint_len_skip(input, 5, run);
    assert(input.skip(run as int)[0] == encoded.last());
    assert(varint_len(input, 5) == Some(encoded.len()));
    assert(input.take(encoded.len() as int) == encoded);
    assert(input.skip(encoded.len() as int) == rest);
    if encoded.len() == 5 {
        assert(input[4] == encoded.last());
    }
}

/// The encoding is minimal: it has the continuation bit on every byte but
/// the last, and its last byte is zero only for the value zero.
pub proof fn lemma_encode_uvarint_canonical(value: u32)
    ensures
        forall|j: int|
            0 <= j < encode_uvarint(value as nat).len() - 1 ==> encode_uvarint(value as nat)[j]
                >= 128,
        encode_uvarint(value as nat).last() < 128,
        encode_uvarint(value as nat).last() == 0 ==> value == 0,
{
    lemma_pow128_values();
    lemma_encode_uvarint_shape(value as nat, 5, 16);
}

/// A varint whose fifth byte carries a payload above `0x0F` is rejected,
/// whatever follows it.
pub proof fn lemma_uvarint_rejects_overflow(input: Seq<u8>, field: Field)
    requires
        input.len() >= 5,
        forall|j: int| 0 <= j < 4 ==> input[j] >= 128,
        input[4] % 128 > 0x0F,
    ensures
        decode_uvarint(input, field) == (Decoded::<u32> {
            result: Err(DecodeError::MalformedVarint { field, byte: input[4] }),
            rest: input.skip(5),
        }),
{
    lemma_varint_len_skip(input, 5, 4);
    let tail = input.skip(4);
    assert(tail[0] == input[4]);
    assert(varint_len(tail.skip(1), 0) == None::<nat>);
}


/// The model of an executable outcome: the model of the value, or the
/// failure as it is.
pub open spec fn outcome_view<T: DeepView>(outcome: Result<T, DecodeError>) -> Result<
    T::V,
    DecodeError,
> {
    match outcome {
        Ok(value) => Ok(value.deep_view()),
        Err(error) => Err(error),
    }
}

/// Decodes one byte. Nothing is consumed where the input is empty.
pub open spec fn decode_u8(input: Seq<u8>, field: Field) -> Decoded<u8> {
    if input.len() < 1 {
        Decoded { result: Err(DecodeError::UnexpectedEof { field }), rest: input }
    } else {
        Decoded { result: Ok(input[0]), rest: input.skip(1) }
    }
}

/// Decodes a big-endian signed 16-bit integer. Nothing is consumed where
/// fewer than two bytes are left.
pub open spec fn decode_i16(input: Seq<u8>, field: Field) -> Decoded<i16> {
    if input.len() < 2 {
        Decoded { result: Err(DecodeError::UnexpectedEof { field }), rest: input }
    } else {
        Decoded { result: Ok(i16_from_be(input.take(2))), rest: input.skip(2) }
    }
}

/// Decodes a big-endian signed 32-bit integer. Nothing is consumed where
/// fewer than four bytes are left.
pub open spec fn decode_i32(input: Seq<u8>, field: Field) -> Decoded<i32> {
    if input.len() < 4 {
        Decoded { result: Err(DecodeError::UnexpectedEof { field }), rest: input }
    } else {
        Decoded { result: Ok(i32_from_be(input.take(4))), rest: input.skip(4) }
    }
}

/// Decodes a tag buffer: one byte, which must be zero. A byte that is not
/// zero is consumed and reported.
pub open spec fn decode_tag_buffer(input: Seq<u8>, field: Field) -> Decoded<()> {
    if input.len() < 1 {
        Decoded { result: Err(DecodeError::UnexpectedEof { field }), rest: input }
    } else if input[0] != 0 {
        Decoded {
            result: Err(DecodeError::UnexpectedTagBuffer { field, tag: input[0] }),
            rest: input.skip(1),
        }
    } else {
        Decoded { result: Ok(()), rest: input.skip(1) }
    }
}

/// Decodes the head of a compact array: a varint that holds the element
/// count plus one, or zero for the null array.
pub open spec fn decode_compact_array_len(input: Seq<u8>, field: Field) -> Decoded<Option<u32>> {
    let head = decode_uvarint(input, field);
    match head.result {
        Err(error) => Decoded { result: Err(error), rest: head.rest },
        Ok(count) => if count == 0 {
            Decoded { result: Ok(None), rest: head.rest }
        } else {
            Decoded { result: Ok(Some((count - 1) as u32)), rest: head.rest }
        },
    }
}

/// Decodes a compact string: a varint that holds the byte length plus one,
/// or zero for the null string, and then that many bytes of text. Where
/// fewer bytes are left than the length announces, only the varint is
/// consumed.
pub open spec fn decode_compact_string(input: Seq<u8>, field: Field) -> Decoded<
    Option<Seq<char>>,
> {
    let head = decode_uvarint(input, field);
    match head.result {
        Err(error) => Decoded { result: Err(error), rest: head.rest },
        Ok(count) => if count == 0 {
            Decoded { result: Ok(None), rest: head.rest }
        } else if head.rest.len() < count - 1 {
            Decoded { result: Err(DecodeError::UnexpectedEof { field }), rest: head.rest }
        } else {
            Decoded {
                result: Ok(Some(text_of(head.rest.take(count - 1)))),
                rest: head.rest.skip(count - 1),
            }
        },
    }
}

/// The head of a compact array of `count` elements.
pub open spec fn encode_compact_array_len(count: nat) -> Seq<u8> {
    encode_uvarint(count + 1)
}

/// A compact string: the byte length plus one as a varint, then the text
/// as UTF-8.
pub open spec fn encode_compact_string(text: Seq<char>) -> Seq<u8> {
    encode_uvarint(encode_utf8(text).len() + 1) + encode_utf8(text)
}

/// Reads one byte of `field`.
pub fn read_u8(message: &mut Bytes, field: Field) -> (outcome: Result<u8, DecodeError>)
    ensures
        outcome == decode_u8(pending(*old(message)), field).result,
        pending(*final(message)) == decode_u8(pending(*old(message)), field).rest,
{
    if !has_remaining(message) {
        return Err(DecodeError::UnexpectedEof { field });
    }
    Ok(get_u8(message))
}

/// Reads `field` as a big-endian signed 16-bit integer.
pub fn read_i16(message: &mut Bytes, field: Field) -> (outcome: Result<i16, DecodeError>)
    ensures
        outcome == decode_i16(pending(*old(message)), field).result,
        pending(*final(message)) == decode_i16(pending(*old(message)), field).rest,
{
    if remaining(message) < 2 {
        return Err(DecodeError::UnexpectedEof { field });
    }
    Ok(get_i16(message))
}

/// Reads `field` as a big-endian signed 32-bit integer.
pub fn read_i32(message: &mut Bytes, field: Field) -> (outcome: Result<i32, DecodeError>)
    ensures
        outcome == decode_i32(pending(*old(message)), field).result,
        pending(*final(message)) == decode_i32(pending(*old(message)), field).rest,
{
    if remaining(message) < 4 {
        return Err(DecodeError::UnexpectedEof { field });
    }
    Ok(get_i32(message))
}

/// Reads the tag buffer `field` and rejects every tag count but zero.
pub fn read_tag_buffer(message: &mut Bytes, field: Field) -> (outcome: Result<(), DecodeError>)
    ensures
        outcome == decode_tag_buffer(pending(*old(message)), field).result,
        pending(*final(message)) == decode_tag_buffer(pending(*old(message)), field).rest,
{
    if !has_remaining(message) {
        return Err(DecodeError::UnexpectedEof { field });
    }
    match get_u8(message) {
        0x00 => Ok(()),
        tag => Err(DecodeError::UnexpectedTagBuffer { field, tag }),
    }
}

/// Reads the head of a compact array: `None` for the null array, else the
/// number of elements that follow.
pub fn read_compact_array_len(message: &mut Bytes, field: Field) -> (outcome: Result<
    Option<u32>,
    DecodeError,
>)
    ensures
        outcome == decode_compact_array_len(pending(*old(message)), field).result,
        pending(*final(message)) == decode_compact_array_len(pending(*old(message)), field).rest,
{
    match read_uvarint(message, field) {
        Ok(count) => if count == 0 {
            Ok(None)
        } else {
            Ok(Some(count - 1))
        },
        Err(error) => Err(error),
    }
}

/// Reads a compact string: `None` for the null string, else the text, read
/// permissively.
pub fn read_compact_string(message: &mut Bytes, field: Field) -> (outcome: Result<
    Option<String>,
    DecodeError,
>)
    ensures
        outcome_view(outcome) == decode_compact_string(pending(*old(message)), field).result,
        pending(*final(message)) == decode_compact_string(pending(*old(message)), field).rest,
{
    let count = match read_uvarint(message, field) {
        Ok(count) => count,
        Err(error) => {
            return Err(error);
        },
    };
    if count == 0 {
        return Ok(None);
    }
    let len = (count - 1) as usize;
    if remaining(message) < len {
        return Err(DecodeError::UnexpectedEof { field });
    }
    let ghost body = pending(*message);
    let mut buf: Vec<u8> = Vec::with_capacity(len);
    let mut taken: usize = 0;
    while taken < len
        invariant
            taken <= len <= body.len(),
            buf@ == body.take(taken as int),
            pending(*message) == body.skip(taken as int),
        decreases len - taken,
    {
        let byte = get_u8(message);
        buf.push(byte);
        taken = taken + 1;
        proof {
            assert(body.skip(taken - 1).skip(1) == body.skip(taken as int));
            assert(body.take(taken as int) == body.take(taken - 1).push(body[taken - 1]));
        }
    }
    Ok(Some(read_text(buf.as_slice())))
}


/// Appends the head of a compact array of `count` elements to `buf`.
pub fn write_compact_array_len(buf: &mut BytesMut, count: u32)
    requires
        count < u32::MAX,
        written(*old(buf)).len() + encode_compact_array_len(count as nat).len() <= isize::MAX,
    ensures
        written(*final(buf)) == written(*old(buf)) + encode_compact_array_len(count as nat),
{
    write_uvarint(buf, count + 1);
}

/// Appends `text` to `buf` as a compact string.
pub fn write_compact_string(buf: &mut BytesMut, text: &str)
    requires
        encode_utf8(text@).len() < u32::MAX,
        written(*old(buf)).len() + encode_compact_string(text@).len() <= isize::MAX,
    ensures
        written(*final(buf)) == written(*old(buf)) + encode_compact_string(text@),
{
    let bytes = text.as_bytes();
    let ghost before = written(*buf);
    let ghost head = encode_uvarint(encode_utf8(text@).len() + 1);
    write_uvarint(buf, (bytes.len() as u32) + 1);
    extend_from_slice(buf, bytes);
    assert((before + head) + bytes@ == before + (head + bytes@));
}

/// A compact string that was written is read back: decoding the encoding
/// of any text whose length fits the varint, with whatever follows it,
/// gives the text and leaves what follows. The length announced is the
/// number of bytes of the text.
pub proof fn lemma_compact_string_round_trip(text: Seq<char>, rest: Seq<u8>, field: Field)
    requires
        encode_utf8(text).len() < u32::MAX,
    ensures
        decode_compact_string(encode_compact_string(text) + rest, field) == (Decoded {
            result: Ok(Some(text)),
            rest,
        }),
        decode_uvarint(encode_compact_string(text) + rest, field).result == Ok::<u32, DecodeError>(
            (encode_utf8(text).len() + 1) as u32,
        ),
{
    let bytes = encode_utf8(text);
    let count = (bytes.len() + 1) as u32;
    let input = encode_compact_string(text) + rest;
    assert(input == encode_uvarint(count as nat) + (bytes + rest));
    lemma_uvarint_round_trip(count, bytes + rest, field);
    assert((bytes + rest).take(bytes.len() as int) == bytes);
    assert((bytes + rest).skip(bytes.len() as int) == rest);
    crate::text::lemma_text_round_trip(text);
}

/// The head of a compact array that was written is read back: for every
/// count that fits the varint, decoding gives the count and leaves what
/// follows.
pub proof fn lemma_compact_array_len_round_trip(count: u32, rest: Seq<u8>, field: Field)
    requires
        count < u32::MAX,
    ensures
        decode_compact_array_len(encode_compact_array_len(count as nat) + rest, field) == (Decoded {
            result: Ok(Some(count)),
            rest,
        }),
{
    lemma_uvarint_round_trip((count + 1) as u32, rest, field);
}

/// Length zero stands for the null string and the null array, length one
/// for the empty ones.
pub proof fn lemma_compact_null_and_empty(rest: Seq<u8>, field: Field)
    ensures
        decode_compact_string(seq![0u8] + rest, field) == (Decoded::<Option<Seq<char>>> {
            result: Ok(None),
            rest,
        }),
        decode_compact_string(seq![1u8] + rest, field) == (Decoded {
            result: Ok(Some(Seq::<char>::empty())),
            rest,
        }),
        decode_compact_array_len(seq![0u8] + rest, field) == (Decoded::<Option<u32>> {
            result: Ok(None),
            rest,
        }),
        decode_compact_array_len(seq![1u8] + rest, field) == (Decoded {
            result: Ok(Some(0u32)),
            rest,
        }),
        encode_compact_string(Seq::<char>::empty()) == seq![1u8],
        encode_compact_array_len(0) == seq![1u8],
{
    assert(encode_uvarint(0) == seq![0u8]);
    assert(encode_uvarint(1) == seq![1u8]);
    lemma_uvarint_round_trip(0, rest, field);
    lemma_uvarint_round_trip(1, rest, field);
    assert(encode_utf8(Seq::<char>::empty()) == Seq::<u8>::empty());
    assert(encode_compact_string(Seq::<char>::empty()) == seq![1u8]);
    lemma_compact_string_round_trip(Seq::<char>::empty(), rest, field);
}


/// An empty tag buffer: the tag count zero as a varint, a single zero byte.
pub open spec fn tag_buffer() -> Seq<u8> {
    encode_uvarint(0)
}

/// Appends an empty tag buffer to `buf`.
pub fn write_tag_buffer(buf: &mut BytesMut)
    requires
        written(*old(buf)).len() + 1 <= isize::MAX,
    ensures
        written(*final(buf)) == written(*old(buf)) + tag_buffer(),
        tag_buffer() == seq![0u8],
{
    assert(encode_uvarint(0) == seq![0u8]);
    write_uvarint(buf, 0);
}

/// The number of bytes that the varint encoding of `val` takes.
pub fn uvarint_size(val: u32) -> (size: usize)
    ensures
        size == encode_uvarint(val as nat).len(),
        1 <= size <= 5,
{
    proof {
        lemma_uvarint_round_trip(val, Seq::empty(), Field::MessageSize);
    }
    let mut left = val;
    let mut size: usize = 1;
    while left >= 0x80
        invariant
            size + encode_uvarint(left as nat).len() == encode_uvarint(val as nat).len() + 1,
            encode_uvarint(val as nat).len() <= 5,
            size >= 1,
        decreases left,
    {
        proof {
            lemma_low_group(left);
            assert(encode_uvarint(left as nat).len() == 1 + encode_uvarint(
                (left / 128) as nat,
            ).len());
        }
        left = left >> 7;
        size = size + 1;
    }
    size
}

/// The byte strings of `parts`, one after the other.
pub open spec fn concat(parts: Seq<Seq<u8>>) -> Seq<u8>
    decreases parts.len(),
{
    if parts.len() == 0 {
        Seq::empty()
    } else {
        concat(parts.drop_last()) + parts.last()
    }
}

/// A compact array: the element count plus one as a varint, then each
/// element in order.
pub open spec fn encode_compact_array(elements: Seq<Seq<u8>>) -> Seq<u8> {
    encode_compact_array_len(elements.len()) + concat(elements)
}

/// The first `count + 1` parts are the first `count` parts and one more;
/// no run of leading parts is longer than all of them together.
pub proof fn lemma_concat_take(parts: Seq<Seq<u8>>, count: int)
    requires
        0 <= count < parts.len(),
    ensures
        concat(parts.take(count + 1)) == concat(parts.take(count)) + parts[count],
        concat(parts.take(count + 1)).len() <= concat(parts).len(),
        concat(parts.take(parts.len() as int)) == concat(parts),
    decreases parts.len() - count,
{
    assert(parts.take(count + 1).drop_last() == parts.take(count));
    assert(parts.take(parts.len() as int) == parts);
    if count + 1 < parts.len() {
        lemma_concat_take(parts, count + 1);
    }
}


/// Parts that each hold a byte hold at least as many bytes together as
/// there are parts.
pub proof fn lemma_concat_len(parts: Seq<Seq<u8>>)
    requires
        forall|i: int| 0 <= i < parts.len() ==> parts[i].len() >= 1,
    ensures
        concat(parts).len() >= parts.len(),
    decreases parts.len(),
{
    if parts.len() > 0 {
        lemma_concat_len(parts.drop_last());
    }
}


/// A signed 16-bit field written big-endian is read back, and what follows
/// it is left.
pub proof fn lemma_i16_round_trip(value: i16, rest: Seq<u8>, field: Field)
    ensures
        decode_i16(i16_be_bytes(value) + rest, field) == (Decoded { result: Ok(value), rest }),
{
    lemma_signed_be_round_trip(value, 0);
    let input = i16_be_bytes(value) + rest;
    assert(input.take(2) == i16_be_bytes(value));
    assert(input.skip(2) == rest);
}

/// A signed 32-bit field written big-endian is read back, and what follows
/// it is left.
pub proof fn lemma_i32_round_trip(value: i32, rest: Seq<u8>, field: Field)
    ensures
        decode_i32(i32_be_bytes(value) + rest, field) == (Decoded { result: Ok(value), rest }),
{
    lemma_signed_be_round_trip(0, value);
    let input = i32_be_bytes(value) + rest;
    assert(input.take(4) == i32_be_bytes(value));
    assert(input.skip(4) == rest);
}

/// A tag byte is accepted exactly if it is zero; any other byte is rejected
/// with the field it was read for and its value.
pub proof fn lemma_tag_byte(tag: u8, rest: Seq<u8>, field: Field)
    ensures
        decode_tag_buffer(seq![tag] + rest, field) == (Decoded {
            result: if tag == 0 {
                Ok(())
            } else {
                Err(DecodeError::UnexpectedTagBuffer { field, tag })
            },
            rest,
        }),
        tag != 0 ==> (DecodeError::UnexpectedTagBuffer { field, tag }).at() == field,
        tag_buffer() == seq![0u8],
{
    let input = seq![tag] + rest;
    assert(input.skip(1) == rest);
    assert(encode_uvarint(0) == seq![0u8]);
}

} // verus!

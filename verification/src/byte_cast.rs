//! Reinterpretation of byte buffers as wider pixels and back.
//!
//! A word of several bytes is read and written in the byte order of the machine. The contracts
//! therefore say that one of the two orders was used, for the whole buffer.

use vstd::prelude::*;

verus! {

/// The order of the bytes of a word in memory.
pub enum ByteOrder {
    /// The least significant byte comes first.
    Little,
    /// The most significant byte comes first.
    Big,
}

/// The 16 bit word stored as the bytes `first`, `second`.
pub open spec fn word16(first: u8, second: u8, order: ByteOrder) -> u16 {
    match order {
        ByteOrder::Little => (first + 256 * second) as u16,
        ByteOrder::Big => (second + 256 * first) as u16,
    }
}

/// The 32 bit word stored as the bytes `b0`, `b1`, `b2`, `b3`.
pub open spec fn word32(b0: u8, b1: u8, b2: u8, b3: u8, order: ByteOrder) -> u32 {
    match order {
        ByteOrder::Little => (b0 + 256 * b1 + 65536 * b2 + 16777216 * b3) as u32,
        ByteOrder::Big => (b3 + 256 * b2 + 65536 * b1 + 16777216 * b0) as u32,
    }
}

/// The signed word with the two's complement representation `word`.
pub open spec fn signed16(word: u16) -> i16 {
    if word < 32768 {
        word as i16
    } else {
        (word - 65536) as i16
    }
}

/// The two's complement representation of `value`.
pub open spec fn unsigned16(value: i16) -> u16 {
    if value >= 0 {
        value as u16
    } else {
        (value + 65536) as u16
    }
}

/// The 16 bit words that `bytes` hold.
pub open spec fn words16(bytes: Seq<u8>, order: ByteOrder) -> Seq<u16> {
    Seq::new(bytes.len() / 2, |i: int| word16(bytes[2 * i], bytes[2 * i + 1], order))
}

/// The 32 bit words that `bytes` hold.
pub open spec fn words32(bytes: Seq<u8>, order: ByteOrder) -> Seq<u32> {
    Seq::new(
        bytes.len() / 4,
        |i: int|
            word32(bytes[4 * i], bytes[4 * i + 1], bytes[4 * i + 2], bytes[4 * i + 3], order),
    )
}

/// The byte at position `k` of the memory representation of a 16 bit word.
pub open spec fn byte_of_word16(word: u16, k: int, order: ByteOrder) -> u8 {
    if (k == 0) == (order is Little) {
        (word % 256) as u8
    } else {
        (word / 256) as u8
    }
}

/// The byte of a 32 bit word with the weight `256^rank`.
pub open spec fn ranked_byte(word: u32, rank: int) -> u8 {
    if rank == 0 {
        (word % 256) as u8
    } else if rank == 1 {
        (word / 256 % 256) as u8
    } else if rank == 2 {
        (word / 65536 % 256) as u8
    } else {
        (word / 16777216) as u8
    }
}

/// The byte at position `k` of the memory representation of a 32 bit word.
pub open spec fn byte_of_word32(word: u32, k: int, order: ByteOrder) -> u8 {
    match order {
        ByteOrder::Little => ranked_byte(word, k),
        ByteOrder::Big => ranked_byte(word, 3 - k),
    }
}

/// The memory representation of a buffer of 16 bit words.
pub open spec fn bytes_of_words16(words: Seq<u16>, order: ByteOrder) -> Seq<u8> {
    Seq::new(2 * words.len(), |i: int| byte_of_word16(words[i / 2], i % 2, order))
}

/// The memory representation of a buffer of 32 bit words.
pub open spec fn bytes_of_words32(words: Seq<u32>, order: ByteOrder) -> Seq<u8> {
    Seq::new(4 * words.len(), |i: int| byte_of_word32(words[i / 4], i % 4, order))
}

/// The words of a buffer of pairs, one pair after the other.
pub open spec fn flat_pairs(pairs: Seq<[u16; 2]>) -> Seq<u16> {
    Seq::new(2 * pairs.len(), |i: int| pairs[i / 2]@[i % 2])
}

/// The bytes of a buffer of quadruples, one quadruple after the other.
pub open spec fn flat_quads(quads: Seq<[u8; 4]>) -> Seq<u8> {
    Seq::new(4 * quads.len(), |i: int| quads[i / 4]@[i % 4])
}

/// The two's complement representations of a buffer of signed words.
pub open spec fn unsigned_words16(values: Seq<i16>) -> Seq<u16> {
    values.map_values(|value: i16| unsigned16(value))
}

/// The signed words that `bytes` hold.
pub open spec fn signed_words16(bytes: Seq<u8>, order: ByteOrder) -> Seq<i16> {
    words16(bytes, order).map_values(|word: u16| signed16(word))
}

/// `bytemuck::pod_collect_to_vec` from bytes to `u16`.
///
/// It copies the bytes into a buffer of words and accepts a slice at any address. What is claimed:
/// for an even number of bytes the result holds the words that the bytes represent, in the byte
/// order of the machine.
#[verifier::external_body]
pub(crate) fn collect_u16(bytes: &[u8]) -> (words: Vec<u16>)
    requires
        bytes@.len() % 2 == 0,
    ensures
        words@ == words16(bytes@, ByteOrder::Little) || words@ == words16(bytes@, ByteOrder::Big),
{
    bytemuck::pod_collect_to_vec(bytes)
}

/// `bytemuck::pod_collect_to_vec` from bytes to `i16`.
///
/// As for `u16`, the words taken as two's complement numbers.
#[verifier::external_body]
pub(crate) fn collect_i16(bytes: &[u8]) -> (words: Vec<i16>)
    requires
        bytes@.len() % 2 == 0,
    ensures
        words@ == signed_words16(bytes@, ByteOrder::Little) || words@ == signed_words16(
            bytes@,
            ByteOrder::Big,
        ),
{
    bytemuck::pod_collect_to_vec(bytes)
}

/// `bytemuck::pod_collect_to_vec` from bytes to `[u16; 2]`.
///
/// As for `u16`, the words taken two at a time.
#[verifier::external_body]
pub(crate) fn collect_u16_pairs(bytes: &[u8]) -> (pairs: Vec<[u16; 2]>)
    requires
        bytes@.len() % 4 == 0,
    ensures
        pairs@.len() == bytes@.len() / 4,
        flat_pairs(pairs@) == words16(bytes@, ByteOrder::Little) || flat_pairs(pairs@) == words16(
            bytes@,
            ByteOrder::Big,
        ),
{
    bytemuck::pod_collect_to_vec(bytes)
}

/// `bytemuck::pod_collect_to_vec` from bytes to `u32`.
///
/// As for `u16`, with words of four bytes.
#[verifier::external_body]
pub(crate) fn collect_u32(bytes: &[u8]) -> (words: Vec<u32>)
    requires
        bytes@.len() % 4 == 0,
    ensures
        words@ == words32(bytes@, ByteOrder::Little) || words@ == words32(bytes@, ByteOrder::Big),
{
    bytemuck::pod_collect_to_vec(bytes)
}

/// `bytemuck::pod_read_unaligned` from bytes to an array of `u32`.
///
/// The words are those that the bytes hold in the byte order of the machine. It panics when the number
/// of bytes is not that of the array.
#[verifier::external_body]
pub(crate) fn read_words(bytes: &[u8]) -> (words: [u32; 24])
    requires
        bytes@.len() == 96,
    ensures
        words@ == words32(bytes@, ByteOrder::Little) || words@ == words32(bytes@, ByteOrder::Big),
{
    bytemuck::pod_read_unaligned(bytes)
}

/// `bytemuck::pod_collect_to_vec` from bytes to `[u8; 4]`.
///
/// The bytes are taken four at a time, in order.
#[verifier::external_body]
pub(crate) fn collect_u8_quads(bytes: &[u8]) -> (quads: Vec<[u8; 4]>)
    requires
        bytes@.len() % 4 == 0,
    ensures
        quads@.len() == bytes@.len() / 4,
        flat_quads(quads@) == bytes@,
{
    bytemuck::pod_collect_to_vec(bytes)
}

/// `bytemuck::cast_slice` from `u16` to bytes, which never fails in that direction.
///
/// The result is the memory representation of the words.
#[verifier::external_body]
pub(crate) fn bytes_of_u16(words: &[u16]) -> (bytes: &[u8])
    ensures
        bytes@ == bytes_of_words16(words@, ByteOrder::Little) || bytes@ == bytes_of_words16(
            words@,
            ByteOrder::Big,
        ),
{
    bytemuck::cast_slice(words)
}

/// `bytemuck::cast_slice` from `i16` to bytes.
///
/// The result is the memory representation of the words.
#[verifier::external_body]
pub(crate) fn bytes_of_i16(words: &[i16]) -> (bytes: &[u8])
    ensures
        bytes@ == bytes_of_words16(unsigned_words16(words@), ByteOrder::Little) || bytes@
            == bytes_of_words16(unsigned_words16(words@), ByteOrder::Big),
{
    bytemuck::cast_slice(words)
}

/// `bytemuck::cast_slice` from `[u16; 2]` to bytes.
///
/// The result is the memory representation of the words of all pairs.
#[verifier::external_body]
pub(crate) fn bytes_of_u16_pairs(pairs: &[[u16; 2]]) -> (bytes: &[u8])
    ensures
        bytes@ == bytes_of_words16(flat_pairs(pairs@), ByteOrder::Little) || bytes@
            == bytes_of_words16(flat_pairs(pairs@), ByteOrder::Big),
{
    bytemuck::cast_slice(pairs)
}

/// `bytemuck::cast_slice` from `u32` to bytes.
///
/// The result is the memory representation of the words.
#[verifier::external_body]
pub(crate) fn bytes_of_u32(words: &[u32]) -> (bytes: &[u8])
    ensures
        bytes@ == bytes_of_words32(words@, ByteOrder::Little) || bytes@ == bytes_of_words32(
            words@,
            ByteOrder::Big,
        ),
{
    bytemuck::cast_slice(words)
}

/// `bytemuck::cast_slice` from `[u8; 4]` to bytes.
///
/// The result is the bytes of all quadruples, in order.
#[verifier::external_body]
pub(crate) fn bytes_of_u8_quads(quads: &[[u8; 4]]) -> (bytes: &[u8])
    ensures
        bytes@ == flat_quads(quads@),
{
    bytemuck::cast_slice(quads)
}

/// Reading words out of bytes and writing them back in the same byte order gives the bytes back.
pub proof fn bytes_round_trip_through_words16(bytes: Seq<u8>, order: ByteOrder)
    requires
        bytes.len() % 2 == 0,
    ensures
        bytes_of_words16(words16(bytes, order), order) == bytes,
{
    let words = words16(bytes, order);
    assert forall|i: int| 0 <= i < bytes.len() implies bytes_of_words16(words, order)[i]
        == bytes[i] by {
        let j = i / 2;
        assert(words[j] == word16(bytes[2 * j], bytes[2 * j + 1], order));
        assert(i == 2 * j || i == 2 * j + 1);
    }
    assert(bytes_of_words16(words, order) =~= bytes);
}

/// The bytes of a 32 bit word are the digits of its representation to base 256.
proof fn digits_of_word32(b0: u8, b1: u8, b2: u8, b3: u8, word: u32)
    requires
        word == b0 + 256 * b1 + 65536 * b2 + 16777216 * b3,
    ensures
        ranked_byte(word, 0) == b0,
        ranked_byte(word, 1) == b1,
        ranked_byte(word, 2) == b2,
        ranked_byte(word, 3) == b3,
{
    let high1 = b1 + 256 * b2 + 65536 * b3;
    let high2 = b2 + 256 * b3;
    assert(word == 256 * high1 + b0);
    assert(word as int / 256 == high1 && word as int % 256 == b0);
    assert(high1 == 256 * high2 + b1);
    assert(high1 % 256 == b1);
    assert(word == 65536 * high2 + (256 * b1 + b0));
    assert(word as int / 65536 == high2);
    assert(high2 % 256 == b2);
    assert(word as int / 16777216 == b3);
}

/// Reading 32 bit words out of bytes and writing them back in the same byte order gives the bytes
/// back.
pub proof fn bytes_round_trip_through_words32(bytes: Seq<u8>, order: ByteOrder)
    requires
        bytes.len() % 4 == 0,
    ensures
        bytes_of_words32(words32(bytes, order), order) == bytes,
{
    let words = words32(bytes, order);
    assert forall|i: int| 0 <= i < bytes.len() implies bytes_of_words32(words, order)[i]
        == bytes[i] by {
        let j = i / 4;
        let k = i % 4;
        assert(words[j] == word32(
            bytes[4 * j],
            bytes[4 * j + 1],
            bytes[4 * j + 2],
            bytes[4 * j + 3],
            order,
        ));
        assert(i == 4 * j + k);
        match order {
            ByteOrder::Little => digits_of_word32(
                bytes[4 * j],
                bytes[4 * j + 1],
                bytes[4 * j + 2],
                bytes[4 * j + 3],
                words[j],
            ),
            ByteOrder::Big => digits_of_word32(
                bytes[4 * j + 3],
                bytes[4 * j + 2],
                bytes[4 * j + 1],
                bytes[4 * j],
                words[j],
            ),
        }
    }
    assert(bytes_of_words32(words, order) =~= bytes);
}

} // verus!

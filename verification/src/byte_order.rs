//! Fixed-width integers as they lie in a byte buffer, in either byte order.
//!
//! The layout is defined arithmetically: a 32-bit word is the number whose
//! four base-256 digits are the four bytes, and a 64-bit word is made of two
//! 32-bit words. Reading and writing are proved against that definition.
use vstd::arithmetic::div_mod::lemma_fundamental_div_mod_converse;
use vstd::prelude::*;

verus! {

/// The order in which the bytes of a multi-byte field are stored.
#[derive(Clone, Copy, Debug, PartialEq, Eq, Structural)]
pub enum ByteOrder {
    /// Least significant byte first.
    LittleEndian,
    /// Most significant byte first.
    BigEndian,
}

/// The number whose base-256 digits, least significant first, are `d0` to `d3`.
pub open spec fn u32_from_digits(d0: u8, d1: u8, d2: u8, d3: u8) -> u32 {
    (d0 + 0x100 * d1 + 0x1_0000 * d2 + 0x100_0000 * d3) as u32
}

/// The 32-bit word stored in `bytes[at..at + 4]`.
pub open spec fn u32_at(bytes: Seq<u8>, at: int, order: ByteOrder) -> u32 {
    match order {
        ByteOrder::LittleEndian => u32_from_digits(
            bytes[at],
            bytes[at + 1],
            bytes[at + 2],
            bytes[at + 3],
        ),
        ByteOrder::BigEndian => u32_from_digits(
            bytes[at + 3],
            bytes[at + 2],
            bytes[at + 1],
            bytes[at],
        ),
    }
}

/// The 64-bit word stored in `bytes[at..at + 8]`: two 32-bit words, the less
/// significant one first in little-endian order and last in big-endian order.
pub open spec fn u64_at(bytes: Seq<u8>, at: int, order: ByteOrder) -> u64 {
    match order {
        ByteOrder::LittleEndian => (u32_at(bytes, at, order) + 0x1_0000_0000 * u32_at(
            bytes,
            at + 4,
            order,
        )) as u64,
        ByteOrder::BigEndian => (0x1_0000_0000 * u32_at(bytes, at, order) + u32_at(
            bytes,
            at + 4,
            order,
        )) as u64,
    }
}

/// The signed number that a 64-bit word stands for in two's complement.
pub open spec fn signed_of(word: u64) -> i64 {
    if word < 0x8000_0000_0000_0000 {
        word as i64
    } else {
        (word - 0x1_0000_0000_0000_0000) as i64
    }
}

/// The 64-bit word that stands for a signed number in two's complement.
pub open spec fn word_of(value: i64) -> u64 {
    if value >= 0 {
        value as u64
    } else {
        (value + 0x1_0000_0000_0000_0000) as u64
    }
}

/// The signed 64-bit number stored in `bytes[at..at + 8]`.
pub open spec fn i64_at(bytes: Seq<u8>, at: int, order: ByteOrder) -> i64 {
    signed_of(u64_at(bytes, at, order))
}

/// The four bytes that store `value`.
pub open spec fn u32_bytes(value: u32, order: ByteOrder) -> Seq<u8> {
    let d0 = (value % 0x100) as u8;
    let d1 = (value / 0x100 % 0x100) as u8;
    let d2 = (value / 0x1_0000 % 0x100) as u8;
    let d3 = (value / 0x100_0000) as u8;
    match order {
        ByteOrder::LittleEndian => seq![d0, d1, d2, d3],
        ByteOrder::BigEndian => seq![d3, d2, d1, d0],
    }
}

/// The eight bytes that store `value`.
pub open spec fn u64_bytes(value: u64, order: ByteOrder) -> Seq<u8> {
    let low = (value % 0x1_0000_0000) as u32;
    let high = (value / 0x1_0000_0000) as u32;
    match order {
        ByteOrder::LittleEndian => u32_bytes(low, order) + u32_bytes(high, order),
        ByteOrder::BigEndian => u32_bytes(high, order) + u32_bytes(low, order),
    }
}

/// The eight bytes that store the signed number `value`.
pub open spec fn i64_bytes(value: i64, order: ByteOrder) -> Seq<u8> {
    u64_bytes(word_of(value), order)
}

/// Two's complement loses nothing in either direction.
pub proof fn lemma_signed_word_inverse(value: i64, word: u64)
    ensures
        signed_of(word_of(value)) == value,
        word_of(signed_of(word)) == word,
{
}

/// A 32-bit word takes four bytes, and reading them back where they lie in
/// any buffer gives the word again.
pub proof fn lemma_u32_round_trip(bytes: Seq<u8>, at: int, value: u32, order: ByteOrder)
    requires
        0 <= at,
        at + 4 <= bytes.len(),
        bytes.subrange(at, at + 4) == u32_bytes(value, order),
    ensures
        u32_bytes(value, order).len() == 4,
        u32_at(bytes, at, order) == value,
{
    let stored = u32_bytes(value, order);
    assert(forall|k: int| 0 <= k < 4 ==> bytes[at + k] == #[trigger] stored[k]) by {
        assert forall|k: int| 0 <= k < 4 implies bytes[at + k] == #[trigger] stored[k] by {
            assert(bytes.subrange(at, at + 4)[k] == bytes[at + k]);
        }
    }
    assert(bytes[at] == stored[0]);
    assert(bytes[at + 1] == stored[1]);
    assert(bytes[at + 2] == stored[2]);
    assert(bytes[at + 3] == stored[3]);
}

/// The base-256 digits of a number made from four digits are those digits.
proof fn lemma_digits_of_u32(d0: u8, d1: u8, d2: u8, d3: u8)
    ensures
        u32_from_digits(d0, d1, d2, d3) % 0x100 == d0,
        u32_from_digits(d0, d1, d2, d3) / 0x100 % 0x100 == d1,
        u32_from_digits(d0, d1, d2, d3) / 0x1_0000 % 0x100 == d2,
        u32_from_digits(d0, d1, d2, d3) / 0x100_0000 == d3,
{
    let value = u32_from_digits(d0, d1, d2, d3) as int;
    let above0 = d1 + 0x100 * d2 + 0x1_0000 * d3;
    let above1 = d2 + 0x100 * d3;
    lemma_fundamental_div_mod_converse(value, 0x100, above0, d0 as int);
    lemma_fundamental_div_mod_converse(above0, 0x100, above1, d1 as int);
    lemma_fundamental_div_mod_converse(
        value,
        0x1_0000,
        above1,
        d0 + 0x100 * d1,
    );
    lemma_fundamental_div_mod_converse(above1, 0x100, d3 as int, d2 as int);
    lemma_fundamental_div_mod_converse(
        value,
        0x100_0000,
        d3 as int,
        d0 + 0x100 * d1 + 0x1_0000 * d2,
    );
}

/// The four bytes of a buffer at `at` are the bytes that store the word read
/// from them.
pub proof fn lemma_u32_bytes_of_read(bytes: Seq<u8>, at: int, order: ByteOrder)
    requires
        0 <= at,
        at + 4 <= bytes.len(),
    ensures
        u32_bytes(u32_at(bytes, at, order), order) == bytes.subrange(at, at + 4),
{
    match order {
        ByteOrder::LittleEndian => {
            lemma_digits_of_u32(bytes[at], bytes[at + 1], bytes[at + 2], bytes[at + 3]);
        },
        ByteOrder::BigEndian => {
            lemma_digits_of_u32(bytes[at + 3], bytes[at + 2], bytes[at + 1], bytes[at]);
        },
    }
    assert(u32_bytes(u32_at(bytes, at, order), order) =~= bytes.subrange(at, at + 4));
}

/// A 64-bit word takes eight bytes, and reading them back where they lie in
/// any buffer gives the word again.
pub proof fn lemma_u64_round_trip(bytes: Seq<u8>, at: int, value: u64, order: ByteOrder)
    requires
        0 <= at,
        at + 8 <= bytes.len(),
        bytes.subrange(at, at + 8) == u64_bytes(value, order),
    ensures
        u64_bytes(value, order).len() == 8,
        u64_at(bytes, at, order) == value,
{
    let low = (value % 0x1_0000_0000) as u32;
    let high = (value / 0x1_0000_0000) as u32;
    let stored = u64_bytes(value, order);
    assert(stored.len() == 8);
    assert(bytes.subrange(at, at + 4) =~= stored.subrange(0, 4));
    assert(bytes.subrange(at + 4, at + 8) =~= stored.subrange(4, 8));
    match order {
        ByteOrder::LittleEndian => {
            assert(stored.subrange(0, 4) =~= u32_bytes(low, order));
            assert(stored.subrange(4, 8) =~= u32_bytes(high, order));
            lemma_u32_round_trip(bytes, at, low, order);
            lemma_u32_round_trip(bytes, at + 4, high, order);
        },
        ByteOrder::BigEndian => {
            assert(stored.subrange(0, 4) =~= u32_bytes(high, order));
            assert(stored.subrange(4, 8) =~= u32_bytes(low, order));
            lemma_u32_round_trip(bytes, at, high, order);
            lemma_u32_round_trip(bytes, at + 4, low, order);
        },
    }
}

/// The eight bytes of a buffer at `at` are the bytes that store the word read
/// from them.
pub proof fn lemma_u64_bytes_of_read(bytes: Seq<u8>, at: int, order: ByteOrder)
    requires
        0 <= at,
        at + 8 <= bytes.len(),
    ensures
        u64_bytes(u64_at(bytes, at, order), order) == bytes.subrange(at, at + 8),
{
    lemma_u32_bytes_of_read(bytes, at, order);
    lemma_u32_bytes_of_read(bytes, at + 4, order);
    let first = u32_at(bytes, at, order);
    let second = u32_at(bytes, at + 4, order);
    let word = u64_at(bytes, at, order);
    match order {
        ByteOrder::LittleEndian => {
            lemma_fundamental_div_mod_converse(
                word as int,
                0x1_0000_0000,
                second as int,
                first as int,
            );
        },
        ByteOrder::BigEndian => {
            lemma_fundamental_div_mod_converse(
                word as int,
                0x1_0000_0000,
                first as int,
                second as int,
            );
        },
    }
    assert(bytes.subrange(at, at + 8) =~= bytes.subrange(at, at + 4) + bytes.subrange(
        at + 4,
        at + 8,
    ));
}

/// Reads the 32-bit word stored at `at`.
pub(crate) fn read_u32(bytes: &[u8], at: usize, order: ByteOrder) -> (value: u32)
    requires
        at + 4 <= bytes.len(),
    ensures
        value == u32_at(bytes@, at as int, order),
{
    let b0: u32 = bytes[at] as u32;
    let b1: u32 = bytes[at + 1] as u32;
    let b2: u32 = bytes[at + 2] as u32;
    let b3: u32 = bytes[at + 3] as u32;
    match order {
        ByteOrder::LittleEndian => b0 + 0x100 * b1 + 0x1_0000 * b2 + 0x100_0000 * b3,
        ByteOrder::BigEndian => b3 + 0x100 * b2 + 0x1_0000 * b1 + 0x100_0000 * b0,
    }
}

/// Reads the 64-bit word stored at `at`.
pub(crate) fn read_u64(bytes: &[u8], at: usize, order: ByteOrder) -> (value: u64)
    requires
        at + 8 <= bytes.len(),
    ensures
        value == u64_at(bytes@, at as int, order),
{
    let first: u64 = read_u32(bytes, at, order) as u64;
    let second: u64 = read_u32(bytes, at + 4, order) as u64;
    match order {
        ByteOrder::LittleEndian => first + 0x1_0000_0000 * second,
        ByteOrder::BigEndian => 0x1_0000_0000 * first + second,
    }
}

/// Reads the signed 64-bit number stored at `at`.
pub(crate) fn read_i64(bytes: &[u8], at: usize, order: ByteOrder) -> (value: i64)
    requires
        at + 8 <= bytes.len(),
    ensures
        value == i64_at(bytes@, at as int, order),
{
    let word: u64 = read_u64(bytes, at, order);
    if word < 0x8000_0000_0000_0000 {
        word as i64
    } else {
        (word - 0x8000_0000_0000_0000) as i64 + i64::MIN
    }
}

/// Appends the four bytes that store `value`.
pub(crate) fn write_u32(out: &mut Vec<u8>, value: u32, order: ByteOrder)
    ensures
        final(out)@ == old(out)@ + u32_bytes(value, order),
{
    let d0: u8 = (value % 0x100) as u8;
    let d1: u8 = (value / 0x100 % 0x100) as u8;
    let d2: u8 = (value / 0x1_0000 % 0x100) as u8;
    let d3: u8 = (value / 0x100_0000) as u8;
    match order {
        ByteOrder::LittleEndian => {
            out.push(d0);
            out.push(d1);
            out.push(d2);
            out.push(d3);
        },
        ByteOrder::BigEndian => {
            out.push(d3);
            out.push(d2);
            out.push(d1);
            out.push(d0);
        },
    }
    assert(out@ =~= old(out)@ + u32_bytes(value, order));
}

/// Appends the eight bytes that store `value`.
pub(crate) fn write_u64(out: &mut Vec<u8>, value: u64, order: ByteOrder)
    ensures
        final(out)@ == old(out)@ + u64_bytes(value, order),
{
    let low: u32 = (value % 0x1_0000_0000) as u32;
    let high: u32 = (value / 0x1_0000_0000) as u32;
    match order {
        ByteOrder::LittleEndian => {
            write_u32(out, low, order);
            write_u32(out, high, order);
        },
        ByteOrder::BigEndian => {
            write_u32(out, high, order);
            write_u32(out, low, order);
        },
    }
    assert(out@ =~= old(out)@ + u64_bytes(value, order));
}

/// Appends the eight bytes that store the signed number `value`.
pub(crate) fn write_i64(out: &mut Vec<u8>, value: i64, order: ByteOrder)
    ensures
        final(out)@ == old(out)@ + i64_bytes(value, order),
{
    let word: u64 = if value >= 0 {
        value as u64
    } else {
        (value - i64::MIN) as u64 + 0x8000_0000_0000_0000
    };
    write_u64(out, word, order);
}

} // verus!

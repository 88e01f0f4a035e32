//! Atom headers and the padding rule that governs how atoms are stored.
//!
//! Each header type mirrors one fixed-layout record of the format. A header is
//! read from a byte buffer at a given offset and written by appending its
//! bytes; both are stated against the byte-level layout of `byte_order`.
use crate::byte_order::{
    i64_at, i64_bytes, lemma_signed_word_inverse, lemma_u32_bytes_of_read, lemma_u32_round_trip,
    lemma_u64_bytes_of_read, lemma_u64_round_trip, read_i64, read_u32, u32_at, u32_bytes,
    u64_at, word_of, write_i64, write_u32, ByteOrder,
};
use vstd::prelude::*;

verus! {

/// An integer that the host's mapping service assigned to a URI.
pub type Lv2Urid = u32;

/// Bytes taken by an atom header: size and type.
pub const LV2_ATOM_HEADER_SIZE: usize = 8;

/// Bytes taken by the fixed header of a sequence body: unit and padding.
pub const LV2_ATOM_SEQUENCE_BODY_HEADER_SIZE: usize = 8;

/// Bytes taken by the fixed part of an event: time stamp and atom header.
pub const LV2_ATOM_EVENT_HEADER_SIZE: usize = 16;

/// Bytes taken by a sequence atom up to its first event: atom header and
/// body header.
pub const LV2_ATOM_SEQUENCE_HEADER_SIZE: usize = 16;

/// The largest content size whose padded size still fits in 32 bits.
pub const LV2_ATOM_MAX_PADDABLE_SIZE: u32 = 0xFFFF_FFF8;

/// The storage footprint of `size` content bytes: the least multiple of 8
/// that is not smaller than `size`.
pub open spec fn padded_size(size: nat) -> nat {
    ((size + 7) / 8) * 8
}

/// `padded_size(size)` is a multiple of 8 and adds fewer than 8 bytes to
/// `size`.
pub proof fn lemma_padded_size_bounds(size: nat)
    ensures
        padded_size(size) % 8 == 0,
        size <= padded_size(size) <= size + 7,
{
}

/// No multiple of 8 below `padded_size(size)` holds `size` bytes.
pub proof fn lemma_padded_size_is_least(size: nat, room: nat)
    requires
        room % 8 == 0,
        size <= room,
    ensures
        padded_size(size) <= room,
{
}

/// A size that is already a multiple of 8 is its own padded size, so padding
/// twice changes nothing.
pub proof fn lemma_padded_size_idempotent(size: nat)
    ensures
        size % 8 == 0 ==> padded_size(size) == size,
        padded_size(padded_size(size)) == padded_size(size),
{
}

/// Pad a size to 64 bits.
///
/// The result is the least multiple of 8 that is not smaller than `size`.
/// Above `LV2_ATOM_MAX_PADDABLE_SIZE` that multiple is 2^32, which no 32-bit
/// result can hold, so those seven sizes are not accepted.
pub fn lv2_atom_pad_size(size: u32) -> (padded: u32)
    requires
        size <= LV2_ATOM_MAX_PADDABLE_SIZE,
    ensures
        padded == padded_size(size as nat),
        padded % 8 == 0 && size <= padded <= size + 7,
{
    let bumped: u32 = size + 7u32;
    let padded: u32 = bumped & !7u32;
    assert(padded == bumped - bumped % 8) by (bit_vector)
        requires
            padded == bumped & !7u32,
    ;
    padded
}

/// The header of an atom:Atom.
#[derive(Clone, Copy, Debug, PartialEq, Eq, Structural)]
pub struct LV2_Atom {
    /// Size in bytes, not including type and size.
    pub size: u32,
    /// Type of this atom (mapped URI).
    pub mytype: Lv2Urid,
}

impl LV2_Atom {
    /// The header stored in `bytes[at..at + 8]`.
    pub open spec fn spec_decode(bytes: Seq<u8>, at: int, order: ByteOrder) -> LV2_Atom {
        LV2_Atom { size: u32_at(bytes, at, order), mytype: u32_at(bytes, at + 4, order) }
    }

    /// The eight bytes that store this header.
    pub open spec fn spec_encode(self, order: ByteOrder) -> Seq<u8> {
        u32_bytes(self.size, order) + u32_bytes(self.mytype, order)
    }

    /// Reads the header stored at `at`, or nothing if fewer than eight bytes
    /// lie there.
    pub fn decode(bytes: &[u8], at: usize, order: ByteOrder) -> (atom: Option<LV2_Atom>)
        ensures
            atom == if at + LV2_ATOM_HEADER_SIZE <= bytes@.len() {
                Some(LV2_Atom::spec_decode(bytes@, at as int, order))
            } else {
                None
            },
    {
        let len: usize = bytes.len();
        if at > len || len - at < LV2_ATOM_HEADER_SIZE {
            return None;
        }
        let size: u32 = read_u32(bytes, at, order);
        let mytype: u32 = read_u32(bytes, at + 4, order);
        Some(LV2_Atom { size, mytype })
    }

    /// Appends the eight bytes that store this header.
    pub fn encode(&self, out: &mut Vec<u8>, order: ByteOrder)
        ensures
            final(out)@ == old(out)@ + self.spec_encode(order),
    {
        write_u32(out, self.size, order);
        write_u32(out, self.mytype, order);
        assert(out@ =~= old(out)@ + self.spec_encode(order));
    }

    /// A header takes eight bytes, and decoding them where they lie in any
    /// buffer gives the header again.
    pub proof fn lemma_round_trip(self, bytes: Seq<u8>, at: int, order: ByteOrder)
        requires
            0 <= at,
            at + 8 <= bytes.len(),
            bytes.subrange(at, at + 8) == self.spec_encode(order),
        ensures
            self.spec_encode(order).len() == 8,
            LV2_Atom::spec_decode(bytes, at, order) == self,
    {
        let stored = self.spec_encode(order);
        assert(bytes.subrange(at, at + 4) =~= stored.subrange(0, 4));
        assert(bytes.subrange(at + 4, at + 8) =~= stored.subrange(4, 8));
        assert(stored.subrange(0, 4) =~= u32_bytes(self.size, order));
        assert(stored.subrange(4, 8) =~= u32_bytes(self.mytype, order));
        lemma_u32_round_trip(bytes, at, self.size, order);
        lemma_u32_round_trip(bytes, at + 4, self.mytype, order);
    }

    /// Encoding the header decoded from eight bytes gives those bytes.
    pub proof fn lemma_encode_of_decode(bytes: Seq<u8>, at: int, order: ByteOrder)
        requires
            0 <= at,
            at + 8 <= bytes.len(),
        ensures
            LV2_Atom::spec_decode(bytes, at, order).spec_encode(order) == bytes.subrange(
                at,
                at + 8,
            ),
    {
        lemma_u32_bytes_of_read(bytes, at, order);
        lemma_u32_bytes_of_read(bytes, at + 4, order);
        assert(bytes.subrange(at, at + 8) =~= bytes.subrange(at, at + 4) + bytes.subrange(
            at + 4,
            at + 8,
        ));
    }
}

/// An event in a sequence: a time stamp and the header of the atom that
/// follows it.
#[derive(Clone, Copy, Debug, PartialEq, Eq, Structural)]
pub struct LV2_Atom_Event {
    /// Time stamp, in audio frames.
    pub time_in_frames: i64,
    /// Header of the event's atom; its contents follow the header.
    pub body: LV2_Atom,
}

impl LV2_Atom_Event {
    /// The event header stored in `bytes[at..at + 16]`.
    pub open spec fn spec_decode(bytes: Seq<u8>, at: int, order: ByteOrder) -> LV2_Atom_Event {
        LV2_Atom_Event {
            time_in_frames: i64_at(bytes, at, order),
            body: LV2_Atom::spec_decode(bytes, at + 8, order),
        }
    }

    /// The sixteen bytes that store this event header.
    pub open spec fn spec_encode(self, order: ByteOrder) -> Seq<u8> {
        i64_bytes(self.time_in_frames, order) + self.body.spec_encode(order)
    }

    /// Reads the event header stored at `at`, or nothing if fewer than
    /// sixteen bytes lie there.
    pub fn decode(bytes: &[u8], at: usize, order: ByteOrder) -> (event: Option<LV2_Atom_Event>)
        ensures
            event == if at + LV2_ATOM_EVENT_HEADER_SIZE <= bytes@.len() {
                Some(LV2_Atom_Event::spec_decode(bytes@, at as int, order))
            } else {
                None
            },
    {
        let len: usize = bytes.len();
        if at > len || len - at < LV2_ATOM_EVENT_HEADER_SIZE {
            return None;
        }
        let time_in_frames: i64 = read_i64(bytes, at, order);
        let size: u32 = read_u32(bytes, at + 8, order);
        let mytype: u32 = read_u32(bytes, at + 12, order);
        Some(LV2_Atom_Event { time_in_frames, body: LV2_Atom { size, mytype } })
    }

    /// Appends the sixteen bytes that store this event header.
    pub fn encode(&self, out: &mut Vec<u8>, order: ByteOrder)
        ensures
            final(out)@ == old(out)@ + self.spec_encode(order),
    {
        write_i64(out, self.time_in_frames, order);
        self.body.encode(out, order);
        assert(out@ =~= old(out)@ + self.spec_encode(order));
    }

    /// An event header takes sixteen bytes, and decoding them where they lie
    /// in any buffer gives the header again.
    pub proof fn lemma_round_trip(self, bytes: Seq<u8>, at: int, order: ByteOrder)
        requires
            0 <= at,
            at + 16 <= bytes.len(),
            bytes.subrange(at, at + 16) == self.spec_encode(order),
        ensures
            self.spec_encode(order).len() == 16,
            LV2_Atom_Event::spec_decode(bytes, at, order) == self,
    {
        let stored = self.spec_encode(order);
        let word = word_of(self.time_in_frames);
        assert(bytes.subrange(at, at + 8) =~= stored.subrange(0, 8));
        assert(bytes.subrange(at + 8, at + 16) =~= stored.subrange(8, 16));
        assert(stored.subrange(0, 8) =~= i64_bytes(self.time_in_frames, order));
        assert(stored.subrange(8, 16) =~= self.body.spec_encode(order));
        lemma_u64_round_trip(bytes, at, word, order);
        lemma_signed_word_inverse(self.time_in_frames, word);
        self.body.lemma_round_trip(bytes, at + 8, order);
    }

    /// Encoding the event header decoded from sixteen bytes gives those bytes.
    pub proof fn lemma_encode_of_decode(bytes: Seq<u8>, at: int, order: ByteOrder)
        requires
            0 <= at,
            at + 16 <= bytes.len(),
        ensures
            LV2_Atom_Event::spec_decode(bytes, at, order).spec_encode(order) == bytes.subrange(
                at,
                at + 16,
            ),
    {
        lemma_u64_bytes_of_read(bytes, at, order);
        lemma_signed_word_inverse(0, u64_at(bytes, at, order));
        LV2_Atom::lemma_encode_of_decode(bytes, at + 8, order);
        assert(bytes.subrange(at, at + 16) =~= bytes.subrange(at, at + 8) + bytes.subrange(
            at + 8,
            at + 16,
        ));
    }
}

/// The fixed header of the body of a sequence; the events follow it.
#[derive(Clone, Copy, Debug, PartialEq, Eq, Structural)]
pub struct LV2_Atom_Sequence_Body {
    /// URID of unit of event time stamps.
    pub unit: Lv2Urid,
    /// Currently unused.
    pub pad: u32,
}

impl LV2_Atom_Sequence_Body {
    /// The body header stored in `bytes[at..at + 8]`.
    pub open spec fn spec_decode(bytes: Seq<u8>, at: int, order: ByteOrder) -> LV2_Atom_Sequence_Body {
        LV2_Atom_Sequence_Body { unit: u32_at(bytes, at, order), pad: u32_at(bytes, at + 4, order) }
    }

    /// The eight bytes that store this body header.
    pub open spec fn spec_encode(self, order: ByteOrder) -> Seq<u8> {
        u32_bytes(self.unit, order) + u32_bytes(self.pad, order)
    }

    /// Reads the body header stored at `at`, or nothing if fewer than eight
    /// bytes lie there.
    pub fn decode(bytes: &[u8], at: usize, order: ByteOrder) -> (header: Option<
        LV2_Atom_Sequence_Body,
    >)
        ensures
            header == if at + LV2_ATOM_SEQUENCE_BODY_HEADER_SIZE <= bytes@.len() {
                Some(LV2_Atom_Sequence_Body::spec_decode(bytes@, at as int, order))
            } else {
                None
            },
    {
        let len: usize = bytes.len();
        if at > len || len - at < LV2_ATOM_SEQUENCE_BODY_HEADER_SIZE {
            return None;
        }
        let unit: u32 = read_u32(bytes, at, order);
        let pad: u32 = read_u32(bytes, at + 4, order);
        Some(LV2_Atom_Sequence_Body { unit, pad })
    }

    /// Appends the eight bytes that store this body header.
    pub fn encode(&self, out: &mut Vec<u8>, order: ByteOrder)
        ensures
            final(out)@ == old(out)@ + self.spec_encode(order),
    {
        write_u32(out, self.unit, order);
        write_u32(out, self.pad, order);
        assert(out@ =~= old(out)@ + self.spec_encode(order));
    }

    /// A body header takes eight bytes, and decoding them where they lie in
    /// any buffer gives the header again.
    pub proof fn lemma_round_trip(self, bytes: Seq<u8>, at: int, order: ByteOrder)
        requires
            0 <= at,
            at + 8 <= bytes.len(),
            bytes.subrange(at, at + 8) == self.spec_encode(order),
        ensures
            self.spec_encode(order).len() == 8,
            LV2_Atom_Sequence_Body::spec_decode(bytes, at, order) == self,
    {
        let stored = self.spec_encode(order);
        assert(bytes.subrange(at, at + 4) =~= stored.subrange(0, 4));
        assert(bytes.subrange(at + 4, at + 8) =~= stored.subrange(4, 8));
        assert(stored.subrange(0, 4) =~= u32_bytes(self.unit, order));
        assert(stored.subrange(4, 8) =~= u32_bytes(self.pad, order));
        lemma_u32_round_trip(bytes, at, self.unit, order);
        lemma_u32_round_trip(bytes, at + 4, self.pad, order);
    }

    /// Encoding the body header decoded from eight bytes gives those bytes.
    pub proof fn lemma_encode_of_decode(bytes: Seq<u8>, at: int, order: ByteOrder)
        requires
            0 <= at,
            at + 8 <= bytes.len(),
        ensures
            LV2_Atom_Sequence_Body::spec_decode(bytes, at, order).spec_encode(order)
                == bytes.subrange(at, at + 8),
    {
        lemma_u32_bytes_of_read(bytes, at, order);
        lemma_u32_bytes_of_read(bytes, at + 4, order);
        assert(bytes.subrange(at, at + 8) =~= bytes.subrange(at, at + 4) + bytes.subrange(
            at + 4,
            at + 8,
        ));
    }
}

/// An atom:Sequence up to its first event.
#[derive(Clone, Copy, Debug, PartialEq, Eq, Structural)]
pub struct LV2_Atom_Sequence {
    /// Atom header. Its size counts the body header and the events.
    pub atom: LV2_Atom,
    /// Body.
    pub body: LV2_Atom_Sequence_Body,
}

impl LV2_Atom_Sequence {
    /// The sequence header stored in `bytes[at..at + 16]`.
    pub open spec fn spec_decode(bytes: Seq<u8>, at: int, order: ByteOrder) -> LV2_Atom_Sequence {
        LV2_Atom_Sequence {
            atom: LV2_Atom::spec_decode(bytes, at, order),
            body: LV2_Atom_Sequence_Body::spec_decode(bytes, at + 8, order),
        }
    }

    /// The sixteen bytes that store this sequence header.
    pub open spec fn spec_encode(self, order: ByteOrder) -> Seq<u8> {
        self.atom.spec_encode(order) + self.body.spec_encode(order)
    }

    /// Reads the sequence header stored at `at`, or nothing if fewer than
    /// sixteen bytes lie there.
    pub fn decode(bytes: &[u8], at: usize, order: ByteOrder) -> (sequence: Option<
        LV2_Atom_Sequence,
    >)
        ensures
            sequence == if at + LV2_ATOM_SEQUENCE_HEADER_SIZE <= bytes@.len() {
                Some(LV2_Atom_Sequence::spec_decode(bytes@, at as int, order))
            } else {
                None
            },
    {
        let len: usize = bytes.len();
        if at > len || len - at < LV2_ATOM_SEQUENCE_HEADER_SIZE {
            return None;
        }
        let size: u32 = read_u32(bytes, at, order);
        let mytype: u32 = read_u32(bytes, at + 4, order);
        let unit: u32 = read_u32(bytes, at + 8, order);
        let pad: u32 = read_u32(bytes, at + 12, order);
        Some(
            LV2_Atom_Sequence {
                atom: LV2_Atom { size, mytype },
                body: LV2_Atom_Sequence_Body { unit, pad },
            },
        )
    }

    /// Appends the sixteen bytes that store this sequence header.
    pub fn encode(&self, out: &mut Vec<u8>, order: ByteOrder)
        ensures
            final(out)@ == old(out)@ + self.spec_encode(order),
    {
        self.atom.encode(out, order);
        self.body.encode(out, order);
        assert(out@ =~= old(out)@ + self.spec_encode(order));
    }

    /// A sequence header takes sixteen bytes, and decoding them where they
    /// lie in any buffer gives the header again.
    pub proof fn lemma_round_trip(self, bytes: Seq<u8>, at: int, order: ByteOrder)
        requires
            0 <= at,
            at + 16 <= bytes.len(),
            bytes.subrange(at, at + 16) == self.spec_encode(order),
        ensures
            self.spec_encode(order).len() == 16,
            LV2_Atom_Sequence::spec_decode(bytes, at, order) == self,
    {
        let stored = self.spec_encode(order);
        assert(bytes.subrange(at, at + 8) =~= stored.subrange(0, 8));
        assert(bytes.subrange(at + 8, at + 16) =~= stored.subrange(8, 16));
        assert(stored.subrange(0, 8) =~= self.atom.spec_encode(order));
        assert(stored.subrange(8, 16) =~= self.body.spec_encode(order));
        self.atom.lemma_round_trip(bytes, at, order);
        self.body.lemma_round_trip(bytes, at + 8, order);
    }

    /// Encoding the sequence header decoded from sixteen bytes gives those
    /// bytes.
    pub proof fn lemma_encode_of_decode(bytes: Seq<u8>, at: int, order: ByteOrder)
        requires
            0 <= at,
            at + 16 <= bytes.len(),
        ensures
            LV2_Atom_Sequence::spec_decode(bytes, at, order).spec_encode(order) == bytes.subrange(
                at,
                at + 16,
            ),
    {
        LV2_Atom::lemma_encode_of_decode(bytes, at, order);
        LV2_Atom_Sequence_Body::lemma_encode_of_decode(bytes, at + 8, order);
        assert(bytes.subrange(at, at + 16) =~= bytes.subrange(at, at + 8) + bytes.subrange(
            at + 8,
            at + 16,
        ));
    }
}

} // verus!

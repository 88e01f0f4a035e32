//! Forward iteration over the events packed in a sequence body.
//!
//! A sequence body is an eight-byte header followed by events laid back to
//! back. Each event is a sixteen-byte fixed part (time stamp and atom header)
//! followed by its contents, padded to a multiple of eight bytes. A walk
//! starts behind the body header, steps from one event to the next by the
//! size that the event declares, and is over once the offset reaches the size
//! that the sequence declares for its body.
//!
//! The declared sizes are trusted for where the walk goes, never for what it
//! reads: a step is refused when the event does not lie within the buffer.
use crate::atom::{
    lemma_padded_size_bounds, lv2_atom_pad_size, padded_size, LV2_Atom_Event, LV2_Atom_Sequence,
    LV2_ATOM_EVENT_HEADER_SIZE, LV2_ATOM_HEADER_SIZE, LV2_ATOM_MAX_PADDABLE_SIZE,
    LV2_ATOM_SEQUENCE_BODY_HEADER_SIZE, LV2_ATOM_SEQUENCE_HEADER_SIZE,
};
use crate::byte_order::{read_u32, u32_at, ByteOrder};
use vstd::prelude::*;

verus! {

/// A position in the storage of a sequence body, at the start of an event or
/// behind the last one.
#[derive(Clone, Copy, Debug)]
pub struct LV2_Atom_Event_Cursor<'a> {
    /// The storage of the body, from the first byte of the body header.
    pub body: &'a [u8],
    /// The byte order of the fields stored in `body`.
    pub order: ByteOrder,
    /// The distance in bytes from the start of `body`.
    pub offset: usize,
}

/// The size that the event at `offset` declares for its contents.
pub open spec fn event_size_at(body: Seq<u8>, order: ByteOrder, offset: int) -> u32 {
    u32_at(body, offset + 8, order)
}

/// The bytes taken by an event with `size` bytes of contents: its fixed part
/// and its padded contents.
pub open spec fn event_footprint(size: u32) -> nat {
    16 + padded_size(size as nat)
}

/// Where the event behind the one at `offset` starts.
pub open spec fn next_offset(body: Seq<u8>, order: ByteOrder, offset: int) -> int {
    offset + event_footprint(event_size_at(body, order, offset))
}

/// Whether the event at `offset` lies within `body`, its fixed part and its
/// padded contents.
pub open spec fn holds_event_at(body: Seq<u8>, order: ByteOrder, offset: int) -> bool {
    &&& 0 <= offset
    &&& offset + 16 <= body.len()
    &&& next_offset(body, order, offset) <= body.len()
}

/// Where a walk stands after `steps` steps from the beginning.
pub open spec fn offset_after(body: Seq<u8>, order: ByteOrder, steps: nat) -> int
    decreases steps,
{
    if steps == 0 {
        8
    } else {
        next_offset(body, order, offset_after(body, order, (steps - 1) as nat))
    }
}

/// The bytes taken together by the first `count` events of a walk.
pub open spec fn events_footprint(body: Seq<u8>, order: ByteOrder, count: nat) -> nat
    decreases count,
{
    if count == 0 {
        0
    } else {
        let before = (count - 1) as nat;
        events_footprint(body, order, before) + event_footprint(
            event_size_at(body, order, offset_after(body, order, before)),
        )
    }
}

/// The number of events that a walk from `offset` visits before it reaches
/// `size`.
pub open spec fn events_from(body: Seq<u8>, order: ByteOrder, size: int, offset: int) -> nat
    decreases
            if offset < size {
                size - offset
            } else {
                0
            },
{
    if offset >= size {
        0
    } else {
        1 + events_from(body, order, size, next_offset(body, order, offset))
    }
}

/// The number of events that a walk from the beginning visits in a body whose
/// declared size is `size`.
pub open spec fn event_count(body: Seq<u8>, order: ByteOrder, size: u32) -> nat {
    events_from(body, order, size as int, 8)
}

/// Whether the event at `offset` can be read from `body`: its fixed part and
/// as many bytes of contents as it declares.
pub open spec fn holds_contents_at(body: Seq<u8>, order: ByteOrder, offset: int) -> bool {
    &&& 0 <= offset
    &&& offset + 16 <= body.len()
    &&& offset + 16 + event_size_at(body, order, offset) <= body.len()
}

/// The contents of the event at `offset`, without their padding.
pub open spec fn contents_at(body: Seq<u8>, order: ByteOrder, offset: int) -> Seq<u8> {
    body.subrange(offset + 16, offset + 16 + event_size_at(body, order, offset))
}

impl<'a> LV2_Atom_Event_Cursor<'a> {
    /// Reads the header of the event at the cursor, or nothing if fewer than
    /// sixteen bytes lie there.
    pub fn event(&self) -> (event: Option<LV2_Atom_Event>)
        ensures
            event == if self.offset + LV2_ATOM_EVENT_HEADER_SIZE <= self.body@.len() {
                Some(LV2_Atom_Event::spec_decode(self.body@, self.offset as int, self.order))
            } else {
                None
            },
            event matches Some(e) ==> e.body.size == event_size_at(
                self.body@,
                self.order,
                self.offset as int,
            ),
    {
        LV2_Atom_Event::decode(self.body, self.offset, self.order)
    }

    /// Borrows the contents of the event at the cursor, without their
    /// padding, or nothing if the body ends before they do.
    pub fn contents(&self) -> (contents: Option<&'a [u8]>)
        ensures
            contents.is_some() == holds_contents_at(self.body@, self.order, self.offset as int),
            contents matches Some(bytes) ==> bytes@ == contents_at(
                self.body@,
                self.order,
                self.offset as int,
            ),
    {
        let len: usize = self.body.len();
        if self.offset > len || len - self.offset < LV2_ATOM_EVENT_HEADER_SIZE {
            return None;
        }
        let size: u32 = read_u32(self.body, self.offset + 8, self.order);
        let start: usize = self.offset + LV2_ATOM_EVENT_HEADER_SIZE;
        if size as u64 > (len - start) as u64 {
            return None;
        }
        let end: usize = start + size as usize;
        let body: &'a [u8] = self.body;
        Some(&body[start..end])
    }
}

/// Get an iterator pointing to the first event in a Sequence body.
///
/// The cursor stands behind the body header, whatever the length of `body`.
pub fn lv2_atom_sequence_begin<'a>(body: &'a [u8], order: ByteOrder) -> (first:
    LV2_Atom_Event_Cursor<'a>)
    ensures
        first.body == body,
        first.order == order,
        first.offset == LV2_ATOM_SEQUENCE_BODY_HEADER_SIZE,
        first.offset == offset_after(body@, order, 0),
{
    LV2_Atom_Event_Cursor { body, order, offset: LV2_ATOM_SEQUENCE_BODY_HEADER_SIZE }
}

/// Opens the sequence atom stored at the start of `buffer`: the size that the
/// sequence declares for its body, and a cursor at the first event of the
/// body, which is the buffer behind the atom header.
///
/// Nothing is returned exactly when the buffer is too short for the header
/// of a sequence.
pub fn lv2_atom_sequence_events<'a>(buffer: &'a [u8], order: ByteOrder) -> (events: Option<
    (u32, LV2_Atom_Event_Cursor<'a>),
>)
    ensures
        events.is_some() == (buffer@.len() >= LV2_ATOM_SEQUENCE_HEADER_SIZE),
        events matches Some((size, first)) ==> {
            &&& size == LV2_Atom_Sequence::spec_decode(buffer@, 0, order).atom.size
            &&& size == u32_at(buffer@, 0, order)
            &&& first.body@ == buffer@.subrange(
                LV2_ATOM_HEADER_SIZE as int,
                buffer@.len() as int,
            )
            &&& first.order == order
            &&& first.offset == LV2_ATOM_SEQUENCE_BODY_HEADER_SIZE
        },
{
    match LV2_Atom_Sequence::decode(buffer, 0, order) {
        None => None,
        Some(sequence) => {
            let end: usize = buffer.len();
            let body: &'a [u8] = &buffer[LV2_ATOM_HEADER_SIZE..end];
            Some((sequence.atom.size, lv2_atom_sequence_begin(body, order)))
        },
    }
}

/// Return an iterator to the element following `i`.
///
/// The step is made exactly when the event at `i` lies within the body, and
/// then leads behind its padded contents.
pub fn lv2_atom_sequence_next<'a>(i: LV2_Atom_Event_Cursor<'a>) -> (next: Option<
    LV2_Atom_Event_Cursor<'a>,
>)
    ensures
        next.is_some() == holds_event_at(i.body@, i.order, i.offset as int),
        next matches Some(j) ==> {
            &&& j.body == i.body
            &&& j.order == i.order
            &&& j.offset == next_offset(i.body@, i.order, i.offset as int)
            &&& j.offset >= i.offset + LV2_ATOM_EVENT_HEADER_SIZE
            &&& j.offset <= i.body@.len()
        },
{
    let len: usize = i.body.len();
    if i.offset > len || len - i.offset < LV2_ATOM_EVENT_HEADER_SIZE {
        return None;
    }
    let size: u32 = read_u32(i.body, i.offset + 8, i.order);
    let room: usize = len - i.offset - LV2_ATOM_EVENT_HEADER_SIZE;
    let padded: u64 = if size <= LV2_ATOM_MAX_PADDABLE_SIZE {
        lv2_atom_pad_size(size) as u64
    } else {
        0x1_0000_0000
    };
    assert(padded == padded_size(size as nat));
    if padded > room as u64 {
        return None;
    }
    let step: usize = padded as usize;
    Some(
        LV2_Atom_Event_Cursor {
            body: i.body,
            order: i.order,
            offset: i.offset + LV2_ATOM_EVENT_HEADER_SIZE + step,
        },
    )
}

/// Return true iff `i` has reached the end of a body whose declared size is
/// `size`.
pub fn lv2_atom_sequence_is_end(size: u32, i: LV2_Atom_Event_Cursor) -> (at_end: bool)
    ensures
        at_end == (i.offset >= size),
{
    i.offset as u64 >= size as u64
}

/// Every step moves a walk forward by at least the fixed part of an event, and
/// keeps it on a multiple of eight bytes.
pub proof fn lemma_walk_advances(body: Seq<u8>, order: ByteOrder, steps: nat)
    ensures
        offset_after(body, order, steps) >= 8 + 16 * steps,
        offset_after(body, order, steps + 1) >= offset_after(body, order, steps) + 16,
        offset_after(body, order, steps) % 8 == 0,
        offset_after(body, order, steps) == 8 + events_footprint(body, order, steps),
    decreases steps,
{
    if steps > 0 {
        let before = (steps - 1) as nat;
        lemma_walk_advances(body, order, before);
        let here = offset_after(body, order, before);
        lemma_padded_size_bounds(event_size_at(body, order, here) as nat);
        assert(offset_after(body, order, steps) == next_offset(body, order, here));
    }
    let here = offset_after(body, order, steps);
    lemma_padded_size_bounds(event_size_at(body, order, here) as nat);
    assert(offset_after(body, order, steps + 1) == next_offset(body, order, here));
}

/// A walk is further along after more steps.
pub proof fn lemma_walk_is_monotonic(body: Seq<u8>, order: ByteOrder, earlier: nat, later: nat)
    requires
        earlier < later,
    ensures
        offset_after(body, order, earlier) + 16 <= offset_after(body, order, later),
    decreases later,
{
    let before = (later - 1) as nat;
    lemma_walk_advances(body, order, before);
    if earlier < before {
        lemma_walk_is_monotonic(body, order, earlier, before);
    }
}

/// A walk that has not reached `size` after `steps` steps visits as many
/// events from there as a walk from the beginning has left.
proof fn lemma_events_from_walk(body: Seq<u8>, order: ByteOrder, size: int, steps: nat)
    requires
        forall|k: nat| k < steps ==> offset_after(body, order, k) < size,
    ensures
        events_from(body, order, size, 8) == steps + events_from(
            body,
            order,
            size,
            offset_after(body, order, steps),
        ),
    decreases steps,
{
    if steps > 0 {
        let before = (steps - 1) as nat;
        lemma_events_from_walk(body, order, size, before);
        assert(offset_after(body, order, before) < size);
    }
}

/// A walk visits exactly `count` events when it is short of `size` after
/// fewer than `count` steps and has reached `size` after `count` steps.
pub proof fn lemma_event_count(body: Seq<u8>, order: ByteOrder, size: u32, count: nat)
    requires
        count > 0 ==> offset_after(body, order, (count - 1) as nat) < size,
        offset_after(body, order, count) >= size,
    ensures
        event_count(body, order, size) == count,
        forall|k: nat| k < count ==> offset_after(body, order, k) < size,
{
    assert forall|k: nat| k < count implies offset_after(body, order, k) < size by {
        if k < count - 1 {
            lemma_walk_is_monotonic(body, order, k, (count - 1) as nat);
        }
    }
    lemma_events_from_walk(body, order, size as int, count);
}

/// A body whose declared size is the sum of the footprints of its first
/// `count` events is walked in exactly `count` steps: the cursor is short of
/// the end at each of those events and at the end behind the last of them.
pub proof fn lemma_walk_visits_each_event_once(
    body: Seq<u8>,
    order: ByteOrder,
    size: u32,
    count: nat,
)
    requires
        events_footprint(body, order, count) == size,
    ensures
        event_count(body, order, size) == count,
        forall|k: nat| k < count ==> offset_after(body, order, k) < size,
        offset_after(body, order, count) >= size,
{
    lemma_walk_advances(body, order, count);
    if count > 0 {
        lemma_walk_advances(body, order, (count - 1) as nat);
    }
    lemma_event_count(body, order, size, count);
}

/// A body whose declared size counts the body header and the footprints of
/// its first `count` events is walked in exactly `count` steps, and the walk
/// ends exactly at the declared size.
pub proof fn lemma_walk_ends_behind_last_event(
    body: Seq<u8>,
    order: ByteOrder,
    size: u32,
    count: nat,
)
    requires
        8 + events_footprint(body, order, count) == size,
    ensures
        event_count(body, order, size) == count,
        forall|k: nat| k < count ==> offset_after(body, order, k) < size,
        offset_after(body, order, count) == size,
{
    lemma_walk_advances(body, order, count);
    if count > 0 {
        lemma_walk_advances(body, order, (count - 1) as nat);
    }
    lemma_event_count(body, order, size, count);
}

/// A body whose declared size is that of the body header holds no event: the
/// cursor is at the end from the beginning.
pub proof fn lemma_empty_body_has_no_events(body: Seq<u8>, order: ByteOrder, size: u32)
    requires
        size <= 8,
    ensures
        event_count(body, order, size) == 0,
        offset_after(body, order, 0) >= size,
{
}

/// In a buffer that reaches as far as a walk does after `count` steps, each
/// of the first `count` events lies within the buffer, so no step is refused.
pub proof fn lemma_walk_within_buffer(body: Seq<u8>, order: ByteOrder, count: nat)
    requires
        offset_after(body, order, count) <= body.len(),
    ensures
        forall|k: nat| k < count ==> holds_event_at(body, order, offset_after(body, order, k)),
{
    assert forall|k: nat| k < count implies holds_event_at(
        body,
        order,
        offset_after(body, order, k),
    ) by {
        lemma_walk_advances(body, order, k);
        if k + 1 < count {
            lemma_walk_is_monotonic(body, order, k + 1, count);
        }
    }
}

} // verus!

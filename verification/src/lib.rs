//! Binary layout of LV2 atom event sequences, forward iteration over the
//! events packed in a sequence body, and classification of MIDI status bytes.
//!
//! All data is read from and written to caller-owned byte buffers. Nothing
//! here allocates while iterating, and every read is checked against the
//! length of the buffer it is made from.
#![allow(non_camel_case_types)]

pub mod atom;
pub mod byte_order;
pub mod midi;
pub mod sequence;

pub use crate::atom::{
    lv2_atom_pad_size, LV2_Atom, LV2_Atom_Event, LV2_Atom_Sequence, LV2_Atom_Sequence_Body,
    Lv2Urid, LV2_ATOM_EVENT_HEADER_SIZE, LV2_ATOM_HEADER_SIZE, LV2_ATOM_MAX_PADDABLE_SIZE,
    LV2_ATOM_SEQUENCE_BODY_HEADER_SIZE, LV2_ATOM_SEQUENCE_HEADER_SIZE,
};
pub use crate::byte_order::ByteOrder;
pub use crate::midi::{lv2_midi_is_voice_message, lv2_midi_message_type, LV2_Midi_Message_Type};
pub use crate::sequence::{
    lv2_atom_sequence_begin, lv2_atom_sequence_events, lv2_atom_sequence_is_end,
    lv2_atom_sequence_next, LV2_Atom_Event_Cursor,
};

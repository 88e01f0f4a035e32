//! Classification of MIDI messages by their status byte.
//!
//! A status byte from 0x80 up to 0xEF opens a voice message: its high nibble
//! names the kind of message and its low nibble the channel. Bytes below 0x80
//! are data bytes, and bytes from 0xF0 on open system messages; neither is
//! classified here.
use vstd::prelude::*;

verus! {

/// The kind of a MIDI message.
#[derive(Clone, Copy, Debug, PartialEq, Eq, Structural)]
pub enum LV2_Midi_Message_Type {
    /// Invalid Message
    LV2_MIDI_MSG_INVALID,
    /// Note Off
    LV2_MIDI_MSG_NOTE_OFF,
    /// Note On
    LV2_MIDI_MSG_NOTE_ON,
    /// A voice message of a kind that is recognised but not told apart.
    LV2_MIDI_MSG_NOT_IMPLEMENTED,
}

impl LV2_Midi_Message_Type {
    /// The kind that a status code names: 0 is the invalid message, 0x80 is
    /// note off, 0x90 is note on, and every other code is not told apart.
    pub open spec fn spec_from_int(x: u8) -> LV2_Midi_Message_Type {
        if x == 0 {
            LV2_Midi_Message_Type::LV2_MIDI_MSG_INVALID
        } else if x == 0x80 {
            LV2_Midi_Message_Type::LV2_MIDI_MSG_NOTE_OFF
        } else if x == 0x90 {
            LV2_Midi_Message_Type::LV2_MIDI_MSG_NOTE_ON
        } else {
            LV2_Midi_Message_Type::LV2_MIDI_MSG_NOT_IMPLEMENTED
        }
    }

    /// The kind that the status code `x` names.
    pub fn from_int(x: u8) -> (kind: LV2_Midi_Message_Type)
        ensures
            kind == LV2_Midi_Message_Type::spec_from_int(x),
    {
        match x {
            0 => LV2_Midi_Message_Type::LV2_MIDI_MSG_INVALID,
            0x80 => LV2_Midi_Message_Type::LV2_MIDI_MSG_NOTE_OFF,
            0x90 => LV2_Midi_Message_Type::LV2_MIDI_MSG_NOTE_ON,
            _ => LV2_Midi_Message_Type::LV2_MIDI_MSG_NOT_IMPLEMENTED,
        }
    }
}

/// Whether a status byte opens a voice message, one that has a channel.
pub open spec fn is_voice_message(status: u8) -> bool {
    0x80 <= status < 0xF0
}

/// The kind of the message that a status byte opens.
pub open spec fn message_type(status: u8) -> LV2_Midi_Message_Type {
    if 0x80 <= status < 0x90 {
        LV2_Midi_Message_Type::LV2_MIDI_MSG_NOTE_OFF
    } else if 0x90 <= status < 0xA0 {
        LV2_Midi_Message_Type::LV2_MIDI_MSG_NOTE_ON
    } else if 0xA0 <= status < 0xF0 {
        LV2_Midi_Message_Type::LV2_MIDI_MSG_NOT_IMPLEMENTED
    } else {
        LV2_Midi_Message_Type::LV2_MIDI_MSG_INVALID
    }
}

/// Return true iff `msg` is a MIDI voice message (which has a channel).
pub fn lv2_midi_is_voice_message(msg: u8) -> (voice: bool)
    ensures
        voice == is_voice_message(msg),
{
    msg >= 0x80 && msg < 0xF0
}

/// Return the type of a MIDI message.
///
/// `msg` is the status byte, the first byte of the message. The result
/// depends on that byte alone.
pub fn lv2_midi_message_type(msg: u8) -> (kind: LV2_Midi_Message_Type)
    ensures
        kind == message_type(msg),
{
    if lv2_midi_is_voice_message(msg) {
        let status: u8 = msg & 0xF0;
        assert(status == msg / 16 * 16) by (bit_vector)
            requires
                status == msg & 0xF0,
        ;
        LV2_Midi_Message_Type::from_int(status)
    } else {
        LV2_Midi_Message_Type::LV2_MIDI_MSG_INVALID
    }
}

/// A message is invalid exactly when its status byte opens no voice message.
pub proof fn lemma_invalid_iff_not_voice(status: u8)
    ensures
        message_type(status) == LV2_Midi_Message_Type::LV2_MIDI_MSG_INVALID <==> !is_voice_message(
            status,
        ),
{
}

/// The kind of a voice message does not depend on its channel: it is the kind
/// that the status byte with channel 0 names.
pub proof fn lemma_kind_ignores_channel(status: u8)
    requires
        is_voice_message(status),
    ensures
        message_type(status) == message_type((status - status % 16) as u8),
        message_type(status) == LV2_Midi_Message_Type::spec_from_int((status - status % 16) as u8),
{
}

} // verus!

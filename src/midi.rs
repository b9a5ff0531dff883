//! Raw MIDI messages read into typed ones.
use vstd::prelude::*;

verus! {

#[derive(Clone, Copy, Debug, PartialEq, Eq)]
pub enum MessageError {
    UnknownMessage(u8),
    BadLength(usize),
}

#[derive(Clone, Copy, Debug, PartialEq, Eq)]
pub struct Message {
    pub channel: u8,
    pub data: MessageData,
}

#[derive(Clone, Copy, Debug, PartialEq, Eq)]
pub enum MessageData {
    NoteOn { node: u8, velocity: u8 },
    NoteOff { node: u8, velocity: u8 },
    ControlChange { control: u8, value: u8 },
    ChannelMode { control: u8, value: u8 },
}

/// The message that `bytes` encode: a status byte whose high nibble is the
/// message type and low nibble the channel, then two data bytes. Control
/// numbers from 120 up are channel-mode messages.
pub open spec fn parse_message(bytes: Seq<u8>) -> Result<Message, MessageError> {
    let n = bytes.len();
    if n != 3 {
        Err(MessageError::BadLength(n as usize))
    } else {
        let channel = bytes[0] & 0x0f;
        let msg_type = bytes[0] >> 4;
        if msg_type == 0x8 {
            Ok(Message { channel, data: MessageData::NoteOff { node: bytes[1], velocity: bytes[2] } })
        } else if msg_type == 0x9 {
            Ok(Message { channel, data: MessageData::NoteOn { node: bytes[1], velocity: bytes[2] } })
        } else if msg_type == 0xb {
            if bytes[1] < 120 {
                Ok(Message { channel, data: MessageData::ControlChange { control: bytes[1], value: bytes[2] } })
            } else {
                Ok(Message { channel, data: MessageData::ChannelMode { control: bytes[1], value: bytes[2] } })
            }
        } else {
            Err(MessageError::UnknownMessage(msg_type))
        }
    }
}

impl Message {
    /// Reads one message from its raw bytes.
    pub fn parse(bytes: &[u8]) -> (r: Result<Message, MessageError>)
        ensures
            r == parse_message(bytes@),
    {
        let n = bytes.len();
        if n == 0 || n > 3 {
            return Err(MessageError::BadLength(n));
        }
        let channel = bytes[0] & 0x0f;
        let msg_type = bytes[0] >> 4;

        let data = if n == 3 {
            match msg_type {
                0x8 => MessageData::NoteOff { node: bytes[1], velocity: bytes[2] },
                0x9 => MessageData::NoteOn { node: bytes[1], velocity: bytes[2] },
                0xb => {
                    if bytes[1] < 120 {
                        MessageData::ControlChange { control: bytes[1], value: bytes[2] }
                    } else {
                        MessageData::ChannelMode { control: bytes[1], value: bytes[2] }
                    }
                },
                _ => return Err(MessageError::UnknownMessage(msg_type)),
            }
        } else {
            return Err(MessageError::BadLength(n));
        };

        Ok(Message { channel, data })
    }
}

impl<'a> TryFrom<&'a [u8]> for Message {
    type Error = MessageError;

    fn try_from(bytes: &'a [u8]) -> (r: Result<Message, MessageError>)
        ensures
            r == parse_message(bytes@),
    {
        Message::parse(bytes)
    }
}

impl<'a> vstd::std_specs::convert::TryFromSpecImpl<&'a [u8]> for Message {
    open spec fn obeys_try_from_spec() -> bool {
        true
    }

    open spec fn try_from_spec(bytes: &'a [u8]) -> Result<Message, MessageError> {
        parse_message(bytes@)
    }
}

} // verus!

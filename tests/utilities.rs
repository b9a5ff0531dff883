use art_util::easing::{Easing, Linear};
use art_util::midi::{Message, MessageData, MessageError};
use art_util::{add_linear_index, RayInt};
use std::convert::TryFrom;

#[test]
fn test_linear_map_unity() {
    assert_eq!(Linear::map_unity(0.2), 0.2);
    assert_eq!(Linear::map_unity(0.8), 0.8);
}

#[test]
fn midi_note_messages() {
    let on = Message::try_from(&[0x93u8, 60, 100][..]);
    assert_eq!(on, Ok(Message { channel: 3, data: MessageData::NoteOn { node: 60, velocity: 100 } }));
    let off = Message::try_from(&[0x80u8, 61, 0][..]);
    assert_eq!(off, Ok(Message { channel: 0, data: MessageData::NoteOff { node: 61, velocity: 0 } }));
}

#[test]
fn midi_control_messages() {
    let cc = Message::parse(&[0xbfu8, 119, 5]);
    assert_eq!(cc, Ok(Message { channel: 15, data: MessageData::ControlChange { control: 119, value: 5 } }));
    let mode = Message::parse(&[0xb1u8, 120, 0]);
    assert_eq!(mode, Ok(Message { channel: 1, data: MessageData::ChannelMode { control: 120, value: 0 } }));
}

#[test]
fn midi_errors() {
    assert_eq!(Message::parse(&[]), Err(MessageError::BadLength(0)));
    assert_eq!(Message::parse(&[0x90u8, 1]), Err(MessageError::BadLength(2)));
    assert_eq!(Message::parse(&[0x90u8, 1, 2, 3]), Err(MessageError::BadLength(4)));
    assert_eq!(Message::parse(&[0xc0u8, 1, 2]), Err(MessageError::UnknownMessage(0xc)));
}

#[test]
fn ray_intersection_parameters() {
    let i: RayInt<f64> = RayInt::Intersection(0.25, 0.75);
    assert_eq!(i.t1(), Some(0.25));
    assert_eq!(i.t2(), Some(0.75));
    let p: RayInt<f64> = RayInt::Parallel;
    assert_eq!(p.t1(), None);
    assert_eq!(p.t2(), None);
    let c: RayInt<f32> = RayInt::Colinear;
    assert_eq!(c.t1(), None);
}

#[test]
fn linear_index_without_loop() {
    assert_eq!(add_linear_index(0, 3, false), vec![0, 1, 1, 2]);
    assert_eq!(add_linear_index(10, 1, false), Vec::<u32>::new());
}

#[test]
fn linear_index_with_loop() {
    assert_eq!(add_linear_index(5, 3, true), vec![5, 6, 6, 7, 7, 8]);
    assert_eq!(add_linear_index(0, 0, true), Vec::<u32>::new());
}

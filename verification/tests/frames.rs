use greeter::bytes_be::{get_be, put_be};
use greeter::wire::{ping_frame, window_update_frame, FrameError, HttpFrame};

fn frame(kind: u8, flags: u8, stream_id: u32, payload: &[u8]) -> Vec<u8> {
    let len = payload.len() as u32;
    let mut raw = vec![(len >> 16) as u8, (len >> 8) as u8, len as u8, kind, flags];
    raw.extend_from_slice(&stream_id.to_be_bytes());
    raw.extend_from_slice(payload);
    raw
}

#[test]
fn numbers_go_out_most_significant_byte_first() {
    let mut out = vec![9u8];
    put_be(&mut out, 0x0102_0304, 3);
    assert_eq!(out, vec![9, 2, 3, 4]);
    assert_eq!(get_be(&out, 1, 3), 0x02_0304);
    assert_eq!(get_be(&out, 0, 0), 0);
}

#[test]
fn a_number_is_read_back() {
    let mut out = Vec::new();
    put_be(&mut out, u64::MAX - 7, 8);
    assert_eq!(get_be(&out, 0, 8), u64::MAX - 7);
}

#[test]
fn a_ping_frame_has_seventeen_bytes() {
    let raw = ping_frame(1, 0x0102_0304_0506_0708);
    assert_eq!(raw, vec![0, 0, 8, 6, 1, 0, 0, 0, 0, 1, 2, 3, 4, 5, 6, 7, 8]);
    match HttpFrame::from_raw(raw) {
        Ok(HttpFrame::Ping { ack, opaque_data }) => {
            assert!(ack);
            assert_eq!(opaque_data, 0x0102_0304_0506_0708);
        }
        _ => panic!("no ping"),
    }
}

#[test]
fn a_window_update_frame_has_thirteen_bytes() {
    let raw = window_update_frame(0x8000_0010);
    assert_eq!(raw, vec![0, 0, 4, 8, 0, 0, 0, 0, 0, 0x80, 0, 0, 0x10]);
    match HttpFrame::from_raw(raw) {
        Ok(HttpFrame::WindowUpdate { increment }) => assert_eq!(increment, 0x10),
        _ => panic!("no window update"),
    }
}

#[test]
fn data_is_read_without_its_padding() {
    match HttpFrame::from_raw(frame(0, 0x8, 5, &[2, 10, 11, 12, 0, 0])) {
        Ok(HttpFrame::Data(data)) => {
            assert_eq!(data.stream_id, 5);
            assert_eq!(data.data, vec![10, 11, 12]);
            assert_eq!(data.payload_len, 6);
        }
        _ => panic!("no data"),
    }
}

#[test]
fn data_without_padding_is_read_as_it_is() {
    match HttpFrame::from_raw(frame(0, 1, 7, &[1, 2])) {
        Ok(HttpFrame::Data(data)) => {
            assert_eq!(data.stream_id, 7);
            assert_eq!(data.data, vec![1, 2]);
            assert_eq!(data.payload_len, 2);
        }
        _ => panic!("no data"),
    }
}

#[test]
fn headers_are_read_without_their_priority() {
    match HttpFrame::from_raw(frame(1, 0x24, 3, &[0, 0, 0, 0, 16, 0x82, 0x87])) {
        Ok(HttpFrame::Headers { fragment }) => assert_eq!(fragment, vec![0x82, 0x87]),
        _ => panic!("no headers"),
    }
    match HttpFrame::from_raw(frame(1, 0x2c, 3, &[1, 0, 0, 0, 0, 16, 0x82, 0])) {
        Ok(HttpFrame::Headers { fragment }) => assert_eq!(fragment, vec![0x82]),
        _ => panic!("no headers"),
    }
}

#[test]
fn headers_too_short_for_their_priority_are_told_apart() {
    assert_eq!(HttpFrame::from_raw(frame(1, 0x24, 3, &[0, 0, 0, 0])).err(), Some(FrameError::ShortPriority));
    assert_eq!(
        HttpFrame::from_raw(frame(1, 0x2c, 3, &[2, 0, 0, 0, 0, 16, 0])).err(),
        Some(FrameError::ShortPriority)
    );
    assert_eq!(HttpFrame::from_raw(frame(1, 0x24, 0, &[0, 0])).err(), Some(FrameError::Invalid));
}

#[test]
fn settings_are_told_from_their_acknowledgement() {
    match HttpFrame::from_raw(frame(4, 0, 0, &[0, 5, 0, 0, 0x40, 0])) {
        Ok(HttpFrame::Settings { ack }) => assert!(!ack),
        _ => panic!("no settings"),
    }
    match HttpFrame::from_raw(frame(4, 1, 0, &[])) {
        Ok(HttpFrame::Settings { ack }) => assert!(ack),
        _ => panic!("no settings"),
    }
}

#[test]
fn frames_that_are_only_looked_at_are_told_apart() {
    assert!(matches!(HttpFrame::from_raw(frame(3, 0, 1, &[0, 0, 0, 8])), Ok(HttpFrame::RstStream)));
    assert!(matches!(HttpFrame::from_raw(frame(7, 0, 0, &[0; 8])), Ok(HttpFrame::Goaway)));
    match HttpFrame::from_raw(frame(2, 0, 1, &[0, 0, 0, 0, 1])) {
        Ok(HttpFrame::Unknown(raw)) => assert_eq!(raw, frame(2, 0, 1, &[0, 0, 0, 0, 1])),
        _ => panic!("no unknown frame"),
    }
}

#[test]
fn invalid_frames_are_refused() {
    let wrong = vec![
        frame(0, 0, 0, &[1]),
        frame(0, 8, 1, &[1]),
        frame(0, 8, 1, &[]),
        frame(1, 4, 0, &[0x82]),
        frame(3, 0, 0, &[0; 4]),
        frame(3, 0, 1, &[0; 5]),
        frame(4, 0, 1, &[]),
        frame(4, 0, 0, &[0; 5]),
        frame(4, 1, 0, &[0; 6]),
        frame(6, 0, 1, &[0; 8]),
        frame(6, 0, 0, &[0; 7]),
        frame(7, 0, 1, &[0; 8]),
        frame(7, 0, 0, &[0; 7]),
        frame(8, 0, 0, &[0; 3]),
        vec![0, 0, 9, 6, 0, 0, 0, 0, 0, 1, 2, 3, 4, 5, 6, 7, 8],
    ];
    for raw in wrong {
        assert_eq!(HttpFrame::from_raw(raw).err(), Some(FrameError::Invalid));
    }
}

#[test]
fn a_large_payload_length_is_read() {
    let payload = vec![7u8; 0x1_0203];
    match HttpFrame::from_raw(frame(0, 0, 1, &payload)) {
        Ok(HttpFrame::Data(data)) => {
            assert_eq!(data.payload_len, 0x1_0203);
            assert_eq!(data.data, payload);
        }
        _ => panic!("no data"),
    }
}

use greeter::client::{assemble, is_acceptable, Action, Client, Event, Progress, RESERVE};
use greeter::error::{Cause, Error, Fault, HttpError, Stop};
use greeter::hello::HelloRequest;
use greeter::wire::{DataFrame, HttpFrame};

const PREFACE: &[u8] = b"PRI * HTTP/2.0\r\n\r\nSM\r\n\r\n";

fn frame(kind: u8, flags: u8, stream_id: u32, payload: &[u8]) -> Vec<u8> {
    let len = payload.len() as u32;
    let mut raw = vec![(len >> 16) as u8, (len >> 8) as u8, len as u8, kind, flags];
    raw.extend_from_slice(&stream_id.to_be_bytes());
    raw.extend_from_slice(payload);
    raw
}

fn settings() -> Vec<u8> {
    frame(4, 0, 0, &[0, 5, 0, 0, 0x40, 0])
}

fn request(name: &str) -> Vec<u8> {
    let mut message = vec![0x0a, name.len() as u8];
    message.extend_from_slice(name.as_bytes());
    let mut data = vec![0, 0, 0, 0, message.len() as u8];
    data.extend_from_slice(&message);
    data
}

fn encoded(headers: &[(&[u8], &[u8])]) -> Vec<u8> {
    hpack::Encoder::new().encode(headers.iter().map(|h| (h.0, h.1)))
}

fn response(stream_id: u32, payload_len: u32, ping: u64, name: &str) -> Vec<u8> {
    let text = format!("Hello {}", name);
    let mut out = frame(8, 0, 0, &payload_len.to_be_bytes());
    out.extend(frame(6, 0, 0, &ping.to_be_bytes()));
    out.extend(frame(
        1,
        4,
        stream_id,
        &encoded(&[(b":status", b"200"), (b"content-type", b"application/grpc")]),
    ));
    out.extend(frame(0, 0, stream_id, &request(&text)));
    out.extend(frame(1, 5, stream_id, &encoded(&[(b"grpc-status", b"0"), (b"grpc-message", b"")])));
    out
}

// Hands over bytes in one read, and gives back what is written before the client settles.
fn deliver(client: &mut Client, bytes: &[u8]) -> Result<(Vec<Vec<u8>>, bool), Stop> {
    if !bytes.is_empty() {
        assert!(matches!(client.handle(Event::Received(bytes.to_vec())), Ok(Action::Read)));
    }
    let mut writes = Vec::new();
    let mut next = client.handle(Event::WouldBlock)?;
    loop {
        match next {
            Action::Write(bytes) => writes.push(bytes),
            Action::WindowFull => return Ok((writes, true)),
            Action::Done => return Ok((writes, false)),
            Action::Read => panic!("nothing to read"),
        }
        next = client.handle(Event::Written)?;
    }
}

fn started() -> Client {
    let mut client = Client::new(100);
    let (writes, full) = deliver(&mut client, PREFACE).ok().unwrap();
    assert_eq!(writes, vec![settings()]);
    assert!(!full);
    client
}

#[test]
fn a_new_connection_announces_its_frame_size() {
    let mut client = Client::new(100);
    match client.handle(Event::Ready { readable: false, writable: true }) {
        Ok(Action::Write(bytes)) => assert_eq!(bytes, settings()),
        _ => panic!("no settings"),
    }
    assert!(matches!(client.handle(Event::Written), Ok(Action::Done)));
}

#[test]
fn a_readable_socket_is_read() {
    let mut client = Client::new(100);
    assert!(matches!(client.handle(Event::Ready { readable: true, writable: true }), Ok(Action::Read)));
    assert_eq!(RESERVE, 8192);
}

#[test]
fn nothing_is_written_before_the_preface_is_complete() {
    let mut client = Client::new(100);
    let (writes, _) = deliver(&mut client, &PREFACE[..23]).ok().unwrap();
    assert!(writes.is_empty());
    let (writes, _) = deliver(&mut client, &PREFACE[23..]).ok().unwrap();
    assert_eq!(writes, vec![settings()]);
}

#[test]
fn a_wrong_preface_is_refused() {
    let mut client = Client::new(100);
    let mut wrong = PREFACE.to_vec();
    wrong[0] = b'p';
    match deliver(&mut client, &wrong) {
        Err(Stop::Reject(e)) => {
            assert!(matches!(e, Error::WrongPreface));
            assert_eq!(e.message(), "wrong preface string");
        }
        _ => panic!("accepted"),
    }
}

#[test]
fn whoever_asks_is_greeted_by_name() {
    let mut client = started();
    let data = request("Joe");
    let (writes, full) = deliver(&mut client, &frame(0, 1, 1, &data)).ok().unwrap();
    assert_eq!(writes, vec![response(1, 10, 100, "Joe")]);
    assert!(!full);
    let reply = b"\x00\x00\x10\x00\x00\x00\x00\x00\x01\x00\x00\x00\x00\x0b\x0a\x09Hello Joe";
    assert!(writes[0].windows(reply.len()).any(|w| w == reply));
    // The next ping has the next number.
    let (writes, _) = deliver(&mut client, &frame(0, 1, 3, &request("Ann"))).ok().unwrap();
    assert_eq!(writes, vec![response(3, 10, 101, "Ann")]);
}

#[test]
fn the_headers_of_a_response_can_be_decoded() {
    let mut client = started();
    let (writes, _) = deliver(&mut client, &frame(0, 1, 1, &request("Joe"))).ok().unwrap();
    let out = &writes[0];
    let mut decoder = hpack::Decoder::new();
    let mut lists = Vec::new();
    let mut at = 0;
    while at < out.len() {
        let len = ((out[at] as usize) << 16) | ((out[at + 1] as usize) << 8) | out[at + 2] as usize;
        if out[at + 3] == 1 {
            lists.push(decoder.decode(&out[at + 9..at + 9 + len]).unwrap());
        }
        at += 9 + len;
    }
    assert_eq!(
        lists,
        vec![
            vec![
                (b":status".to_vec(), b"200".to_vec()),
                (b"content-type".to_vec(), b"application/grpc".to_vec()),
            ],
            vec![(b"grpc-status".to_vec(), b"0".to_vec()), (b"grpc-message".to_vec(), b"".to_vec())],
        ]
    );
}

#[test]
fn an_empty_request_greets_nobody() {
    let mut client = started();
    let (writes, _) = deliver(&mut client, &frame(0, 1, 1, &[0, 0, 0, 0, 0])).ok().unwrap();
    assert_eq!(writes, vec![response(1, 5, 100, "")]);
}

#[test]
fn padding_counts_for_the_credit() {
    let mut client = started();
    let mut payload = vec![3];
    payload.extend(request("Joe"));
    payload.extend([0, 0, 0]);
    let (writes, _) = deliver(&mut client, &frame(0, 9, 1, &payload)).ok().unwrap();
    assert_eq!(writes, vec![response(1, 14, 100, "Joe")]);
}

#[test]
fn cuts_do_not_matter() {
    let mut all = PREFACE.to_vec();
    all.extend(settings());
    all.extend(frame(
        1,
        4,
        1,
        &encoded(&[(b":method", b"POST"), (b":path", b"/helloworld.Greeter/SayHello")]),
    ));
    all.extend(frame(0, 1, 1, &request("Joe")));
    all.extend(frame(6, 0, 0, &[1, 2, 3, 4, 5, 6, 7, 8]));
    let mut whole = Client::new(100);
    let (expected, _) = deliver(&mut whole, &all).ok().unwrap();
    assert_eq!(expected.len(), 4);
    for size in [1, 2, 9, 24, 50] {
        let mut client = Client::new(100);
        let mut writes = Vec::new();
        for piece in all.chunks(size) {
            writes.extend(deliver(&mut client, piece).ok().unwrap().0);
        }
        assert_eq!(writes, expected);
    }
    let mut client = Client::new(100);
    for piece in all.chunks(7) {
        assert!(matches!(client.handle(Event::Received(piece.to_vec())), Ok(Action::Read)));
    }
    assert_eq!(deliver(&mut client, &[]).ok().unwrap().0, expected);
}

#[test]
fn settings_are_acknowledged_once() {
    let mut client = started();
    assert_eq!(deliver(&mut client, &settings()).ok().unwrap().0, vec![frame(4, 1, 0, &[])]);
    assert!(deliver(&mut client, &frame(4, 1, 0, &[])).ok().unwrap().0.is_empty());
}

#[test]
fn a_ping_is_answered_with_its_data() {
    let mut client = started();
    let data = [9, 8, 7, 6, 5, 4, 3, 2];
    assert_eq!(deliver(&mut client, &frame(6, 0, 0, &data)).ok().unwrap().0, vec![frame(6, 1, 0, &data)]);
    assert!(deliver(&mut client, &frame(6, 1, 0, &data)).ok().unwrap().0.is_empty());
}

#[test]
fn other_frames_are_ignored() {
    let mut client = started();
    let mut bytes = frame(3, 0, 1, &[0; 4]);
    bytes.extend(frame(7, 0, 0, &[0; 8]));
    bytes.extend(frame(2, 0, 1, &[0; 5]));
    bytes.extend(frame(0x20, 0xff, 1, b"anything"));
    assert!(deliver(&mut client, &bytes).ok().unwrap().0.is_empty());
}

#[test]
fn only_one_path_is_served() {
    let right = encoded(&[(b":method", b"POST"), (b":path", b"/helloworld.Greeter/SayHello")]);
    let wrong = encoded(&[(b":method", b"POST"), (b":path", b"/helloworld.Greeter/SayBye")]);
    let mut client = started();
    assert!(deliver(&mut client, &frame(1, 4, 1, &right)).ok().unwrap().0.is_empty());
    match deliver(&mut client, &frame(1, 4, 3, &wrong)) {
        Err(Stop::Reject(e)) => {
            assert!(matches!(e, Error::WrongHeaders));
            assert_eq!(e.message(), "wrong headers");
        }
        _ => panic!("accepted"),
    }
}

#[test]
fn header_lists_without_another_path_are_acceptable() {
    let path = (b":path".to_vec(), b"/helloworld.Greeter/SayHello".to_vec());
    let other = (b":path".to_vec(), b"/".to_vec());
    let host = (b"host".to_vec(), b"/".to_vec());
    assert!(is_acceptable(&vec![]));
    assert!(is_acceptable(&vec![host.clone()]));
    assert!(is_acceptable(&vec![host.clone(), path.clone()]));
    assert!(!is_acceptable(&vec![path, host, other]));
}

#[test]
fn the_table_of_headers_lasts_as_long_as_the_connection() {
    let mut encoder = hpack::Encoder::new();
    let list: Vec<(&[u8], &[u8])> = vec![(b"te", b"trailers"), (b":path", b"/helloworld.Greeter/SayHello")];
    let mut client = started();
    for stream in [1, 3, 5] {
        let block = encoder.encode(list.iter().map(|h| (h.0, h.1)));
        assert!(deliver(&mut client, &frame(1, 4, stream, &block)).is_ok());
    }
    // A name of the table, which no block has put there.
    match deliver(&mut started(), &frame(1, 4, 1, &[0xbe])) {
        Err(Stop::Fault(f)) => assert_eq!(f, Fault::BadHeaderBlock),
        _ => panic!("accepted"),
    }
}

#[test]
fn an_invalid_frame_is_refused() {
    let mut client = started();
    match deliver(&mut client, &frame(6, 0, 1, &[0; 8])) {
        Err(Stop::Reject(e)) => {
            assert!(matches!(e, Error::WrongHttpFrame(HttpError::InvalidFrame)));
            assert_eq!(e.message(), "wrong http frame");
        }
        _ => panic!("accepted"),
    }
}

#[test]
fn what_has_no_answer_is_a_fault() {
    let cases: Vec<(Vec<u8>, Fault)> = vec![
        (frame(1, 0x24, 1, &[0; 3]), Fault::ShortPriority),
        (frame(1, 4, 1, &[0x3f]), Fault::BadHeaderBlock),
        (frame(1, 4, 1, &[0x80]), Fault::BadHeaderBlock),
        (frame(0, 0, 1, &[0; 4]), Fault::ShortData),
        (frame(0, 0, 1, &[0, 0, 0, 0, 2, 0x0a, 9]), Fault::BadRequest),
    ];
    for (bytes, fault) in cases {
        match deliver(&mut started(), &bytes) {
            Err(Stop::Fault(f)) => assert_eq!(f, fault),
            _ => panic!("answered"),
        }
    }
}

#[test]
fn the_ping_counter_does_not_run_over() {
    let mut client = Client::new(u64::MAX);
    let mut bytes = PREFACE.to_vec();
    bytes.extend(frame(0, 0, 1, &request("Joe")));
    match deliver(&mut client, &bytes) {
        Err(Stop::Fault(f)) => assert_eq!(f, Fault::PingOverflow),
        _ => panic!("answered"),
    }
}

#[test]
fn the_window_does_not_run_over() {
    let mut client = started();
    let most = (i32::MAX - 65535) as u32;
    assert!(deliver(&mut client, &frame(8, 0, 0, &most.to_be_bytes())).is_ok());
    match deliver(&mut client, &frame(8, 0, 0, &[0, 0, 0, 1])) {
        Err(Stop::Fault(f)) => assert_eq!(f, Fault::WindowOverflow),
        _ => panic!("accepted"),
    }
}

#[test]
fn a_full_window_holds_the_queue_back() {
    let mut client = started();
    // Each reply costs 6 + 7 + 30000 bytes and more of the window.
    let name = "n".repeat(30000);
    let mut message = vec![0x0a, 0xb0, 0xea, 0x01];
    message.extend_from_slice(name.as_bytes());
    let mut data = vec![0];
    data.extend((message.len() as u32).to_be_bytes());
    data.extend(message);
    let (writes, full) = deliver(&mut client, &frame(0, 1, 1, &data)).ok().unwrap();
    assert_eq!(writes.len(), 1);
    assert!(!full);
    let (writes, full) = deliver(&mut client, &frame(0, 1, 3, &data)).ok().unwrap();
    assert!(writes.is_empty());
    assert!(full);
    // Nothing overtakes what is held back.
    let (writes, full) = deliver(&mut client, &frame(6, 0, 0, &[0; 8])).ok().unwrap();
    assert!(writes.is_empty());
    assert!(full);
    let (writes, full) = deliver(&mut client, &frame(8, 0, 0, &[0, 0, 0xff, 0xff])).ok().unwrap();
    assert!(!full);
    assert_eq!(writes.len(), 2);
    assert_eq!(writes[1], frame(6, 1, 0, &[0; 8]));
}

#[test]
fn a_negative_window_holds_nothing_back() {
    let mut client = started();
    let name = "n".repeat(70000);
    let mut message = vec![0x0a, 0xf0, 0xa2, 0x04];
    message.extend_from_slice(name.as_bytes());
    let mut data = vec![0];
    data.extend((message.len() as u32).to_be_bytes());
    data.extend(message);
    let (writes, full) = deliver(&mut client, &frame(0, 1, 1, &data)).ok().unwrap();
    assert_eq!(writes.len(), 1);
    assert!(!full);
}

#[test]
fn a_failed_write_is_tried_again() {
    let mut client = Client::new(100);
    client.queue(vec![1, 2, 3]);
    let first = match client.handle(Event::Ready { readable: false, writable: true }) {
        Ok(Action::Write(bytes)) => bytes,
        _ => panic!("nothing to write"),
    };
    assert_eq!(first, settings());
    assert!(matches!(client.handle(Event::WriteFailed(first)), Ok(Action::Done)));
    assert!(matches!(client.flush(), Action::Write(bytes) if bytes == settings()));
    assert!(matches!(client.flush(), Action::Write(bytes) if bytes == vec![1, 2, 3]));
    assert!(matches!(client.flush(), Action::Done));
}

#[test]
fn a_closed_peer_is_disconnected() {
    let mut client = started();
    match client.handle(Event::Received(vec![])) {
        Err(Stop::Reject(e)) => {
            assert!(matches!(e, Error::Disconnected(Cause::ReadZero)));
            assert_eq!(e.message(), "disconnected");
        }
        _ => panic!("still there"),
    }
}

#[test]
fn a_failed_read_disconnects() {
    let mut client = started();
    let error = std::io::Error::new(std::io::ErrorKind::ConnectionReset, "reset");
    match client.handle(Event::ReadFailed(error)) {
        Err(Stop::Reject(Error::Disconnected(Cause::Failed(e)))) => {
            assert_eq!(e.kind(), std::io::ErrorKind::ConnectionReset)
        }
        _ => panic!("still there"),
    }
}

#[test]
fn bytes_are_consumed_from_the_front() {
    let mut client = Client::new(100);
    assert!(matches!(client.handle(Event::Received(vec![1, 2, 3])), Ok(Action::Read)));
    assert_eq!(client.consume(4), None);
    assert_eq!(client.consume(2), Some(vec![1, 2]));
    assert_eq!(client.consume(1), Some(vec![3]));
    assert_eq!(client.consume(0), Some(vec![]));
    assert_eq!(client.consume(1), None);
}

#[test]
fn a_data_frame_can_be_handled_by_itself() {
    let mut client = Client::new(7);
    assert!(matches!(client.flush(), Action::Write(_)));
    let frame = DataFrame { stream_id: 9, data: request("Joe"), payload_len: 10 };
    assert_eq!(client.data_fault(&frame), None);
    client.handle_dataframe(frame);
    assert!(matches!(client.flush(), Action::Write(bytes) if bytes == response(9, 10, 7, "Joe")));
    let reply = client.say_hello(HelloRequest { name: "Joe".to_string() });
    assert_eq!(reply.message, "Hello Joe");
}

#[test]
fn what_was_received_can_be_looked_at_in_steps() {
    let mut client = Client::new(7);
    assert!(matches!(client.receive(), Progress::Waiting));
    assert!(matches!(client.handle(Event::Received(PREFACE.to_vec())), Ok(Action::Read)));
    assert!(matches!(client.receive(), Progress::Flush));
    assert!(matches!(client.receive(), Progress::Flush));
}

#[test]
fn a_response_is_five_frames() {
    let out = assemble(3, 260, 5, vec![1, 2], vec![7], vec![]);
    let expected: Vec<u8> = vec![
        0, 0, 4, 8, 0, 0, 0, 0, 0, 0, 0, 1, 4, // window update
        0, 0, 8, 6, 0, 0, 0, 0, 0, 0, 0, 0, 0, 0, 0, 0, 5, // ping
        0, 0, 2, 1, 4, 0, 0, 0, 3, 1, 2, // headers
        0, 0, 1, 0, 0, 0, 0, 0, 3, 7, // data
        0, 0, 0, 1, 5, 0, 0, 0, 3, // trailers
    ];
    assert_eq!(out, expected);
}

#[test]
fn what_is_refused_is_not_answered() {
    let wrong = encoded(&[(b":path", b"/")]);
    let mut client = started();
    let mut bytes = frame(1, 4, 1, &wrong);
    bytes.extend(frame(6, 0, 0, &[0; 8]));
    assert!(deliver(&mut client, &bytes).is_err());
    assert!(matches!(client.flush(), Action::Done));
    // What came before it is still in the queue.
    let mut client = started();
    let mut bytes = frame(6, 0, 0, &[0; 8]);
    bytes.extend(frame(1, 4, 1, &wrong));
    assert!(deliver(&mut client, &bytes).is_err());
    assert!(matches!(client.flush(), Action::Write(bytes) if bytes == frame(6, 1, 0, &[0; 8])));
}

#[test]
fn data_that_cannot_be_answered_is_told_beforehand() {
    let client = Client::new(7);
    let data = |data: Vec<u8>| DataFrame { stream_id: 9, payload_len: data.len() as u32, data };
    assert_eq!(client.data_fault(&data(vec![0; 4])), Some(Fault::ShortData));
    assert_eq!(client.data_fault(&data(vec![0; 5])), None);
    assert_eq!(client.data_fault(&data(vec![0, 0, 0, 0, 1, 0x0a])), Some(Fault::BadRequest));
    assert_eq!(Client::new(u64::MAX).data_fault(&data(request("Joe"))), Some(Fault::PingOverflow));
}

#[test]
fn the_prefix_is_not_looked_at() {
    let mut data = request("Joe");
    data[..5].copy_from_slice(&[1, 9, 9, 9, 9]);
    let mut client = started();
    let (writes, _) = deliver(&mut client, &frame(0, 1, 1, &data)).ok().unwrap();
    assert_eq!(writes, vec![response(1, 10, 100, "Joe")]);
}

#[test]
fn settings_are_acknowledged_however_many() {
    let mut client = started();
    for n in 0..4 {
        let payload = vec![0; 6 * n];
        assert_eq!(deliver(&mut client, &frame(4, 0xfe, 0, &payload)).ok().unwrap().0, vec![frame(4, 1, 0, &[])]);
    }
}

#[test]
fn a_window_update_counts_on_any_stream() {
    let mut client = started();
    let most = (i32::MAX - 65535) as u32 | 0x8000_0000;
    assert!(deliver(&mut client, &frame(8, 0xff, 5, &most.to_be_bytes())).is_ok());
    match deliver(&mut client, &frame(8, 0, 7, &[0, 0, 0, 1])) {
        Err(Stop::Fault(f)) => assert_eq!(f, Fault::WindowOverflow),
        _ => panic!("accepted"),
    }
}

#[test]
fn a_response_reads_as_five_frames_in_order() {
    let mut client = started();
    let (writes, _) = deliver(&mut client, &frame(0, 1, 1, &request("Joe"))).ok().unwrap();
    let mut left = writes[0].clone();
    let mut frames = Vec::new();
    while !left.is_empty() {
        let len = ((left[0] as usize) << 16) | ((left[1] as usize) << 8) | left[2] as usize;
        let rest = left.split_off(9 + len);
        frames.push(HttpFrame::from_raw(left).ok().unwrap());
        left = rest;
    }
    assert_eq!(frames.len(), 5);
    assert!(matches!(frames[0], HttpFrame::WindowUpdate { increment: 10 }));
    assert!(matches!(frames[1], HttpFrame::Ping { ack: false, opaque_data: 100 }));
    assert!(matches!(frames[2], HttpFrame::Headers { .. }));
    assert!(matches!(&frames[3], HttpFrame::Data(d) if d.stream_id == 1 && d.data == request("Hello Joe")));
    assert!(matches!(frames[4], HttpFrame::Headers { .. }));
}

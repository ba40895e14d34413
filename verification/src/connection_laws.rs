//! What a connection does with each frame and each event, by the bytes that come and go.

use crate::bytes_be::be_bytes;
use crate::client::{acceptable, assembled, flushed, on_data, on_event, on_raw, received, response, run, status_headers, trailers, Action, ActionView, ClientView, Event, Progress, Session};
use crate::error::{Cause, Error, Fault, HttpError, Stop};
use crate::frame_laws::{law_frame_layout, law_invalid_frames, law_short_priority, lemma_announced};
use crate::header_laws::{in_limits, law_rows_are_well_framed, row_octets, Field};
use crate::headers::{decoded, encoded, header_list, well_framed};
use crate::hello::reply_data;
use crate::protobuf::message_text;
use crate::wire::{frame_bytes, parse_frame, FrameError, FrameView};
use vstd::prelude::*;
use vstd::utf8::encode_utf8;

verus! {

/// Whether a frame with these fields stands in `bytes` from position `at` on.
pub open spec fn frame_at(
    bytes: Seq<u8>,
    at: int,
    kind: u8,
    flags: u8,
    stream_id: u32,
    payload: Seq<u8>,
) -> bool {
    &&& 0 <= at
    &&& at + 9 + payload.len() <= bytes.len()
    &&& bytes[at] * 0x1_0000 + bytes[at + 1] * 0x100 + bytes[at + 2] == payload.len() % 0x100_0000
    &&& bytes[at + 3] == kind
    &&& bytes[at + 4] == flags
    &&& bytes[at + 5] * 0x100_0000 + bytes[at + 6] * 0x1_0000 + bytes[at + 7] * 0x100 + bytes[at
        + 8] == stream_id
    &&& bytes.subrange(at + 9, at + 9 + payload.len()) == payload
}

proof fn lemma_frame_at(
    before: Seq<u8>,
    kind: u8,
    flags: u8,
    stream_id: u32,
    payload: Seq<u8>,
    after: Seq<u8>,
)
    ensures
        frame_at(
            before + frame_bytes(kind, flags, stream_id, payload) + after,
            before.len() as int,
            kind,
            flags,
            stream_id,
            payload,
        ),
{
    let raw = frame_bytes(kind, flags, stream_id, payload);
    let bytes = before + raw + after;
    let at = before.len() as int;
    law_frame_layout(kind, flags, stream_id, payload);
    assert forall|i: int| 0 <= i < raw.len() implies bytes[at + i] == raw[i] by {}
    assert(bytes[at + 0] == raw[0]);
    assert(bytes.subrange(at + 9, at + 9 + payload.len()) =~= raw.skip(9));
}

/// A response is five frames and nothing else. A window update for the connection gives back
/// the payload of the request, a ping carries the counter, and on the stream of the request
/// follow HEADERS with the flag END_HEADERS (4), DATA without flags, and HEADERS with the
/// flags END_HEADERS and END_STREAM (5). So the last frame, and no other, ends the stream.
pub proof fn law_response_layout(
    stream_id: u32,
    payload_len: nat,
    ping: u64,
    status: Seq<u8>,
    data: Seq<u8>,
    end: Seq<u8>,
)
    ensures
        ({
            let bytes = assembled(stream_id, payload_len, ping, status, data, end);
            let d = 39 + status.len() as int;
            let e = d + 9 + data.len();
            &&& frame_at(bytes, 0, 8, 0, 0, be_bytes(payload_len, 4))
            &&& frame_at(bytes, 13, 6, 0, 0, be_bytes(ping as nat, 8))
            &&& frame_at(bytes, 30, 1, 4, stream_id, status)
            &&& frame_at(bytes, d, 0, 0, stream_id, data)
            &&& frame_at(bytes, e, 1, 5, stream_id, end)
            &&& bytes.len() == e + 9 + end.len()
        }),
{
    let w = frame_bytes(8, 0, 0, be_bytes(payload_len, 4));
    let p = frame_bytes(6, 0, 0, be_bytes(ping as nat, 8));
    let h = frame_bytes(1, 4, stream_id, status);
    let d = frame_bytes(0, 0, stream_id, data);
    let e = frame_bytes(1, 5, stream_id, end);
    assert(4u8 | 1u8 == 5u8) by (bit_vector);
    let bytes = assembled(stream_id, payload_len, ping, status, data, end);
    crate::bytes_be::lemma_be_bytes_len(payload_len, 4);
    crate::bytes_be::lemma_be_bytes_len(ping as nat, 8);
    law_frame_layout(8, 0, 0, be_bytes(payload_len, 4));
    law_frame_layout(6, 0, 0, be_bytes(ping as nat, 8));
    law_frame_layout(1, 4, stream_id, status);
    law_frame_layout(0, 0, stream_id, data);
    law_frame_layout(1, 5, stream_id, end);
    let none = Seq::<u8>::empty();
    lemma_frame_at(none, 8, 0, 0, be_bytes(payload_len, 4), p + h + d + e);
    assert(bytes =~= none + w + (p + h + d + e));
    lemma_frame_at(w, 6, 0, 0, be_bytes(ping as nat, 8), h + d + e);
    assert(bytes =~= w + p + (h + d + e));
    lemma_frame_at(w + p, 1, 4, stream_id, status, d + e);
    assert(bytes =~= w + p + h + (d + e));
    lemma_frame_at(w + p + h, 0, 0, stream_id, data, e);
    lemma_frame_at(w + p + h + d, 1, 5, stream_id, end, none);
    assert(bytes =~= w + p + h + d + e + none);
}

/// The response to a request for `name` holds the compressed status headers, the greeting and
/// the compressed trailers, in this order, and its last frame ends the stream.
pub proof fn law_response_parts(stream_id: u32, payload_len: nat, ping: u64, name: Seq<char>)
    ensures
        ({
            let bytes = response(stream_id, payload_len, ping, name);
            let status = encoded(
                seq![
                    (encode_utf8(":status"@), encode_utf8("200"@)),
                    (encode_utf8("content-type"@), encode_utf8("application/grpc"@)),
                ],
            );
            let end = encoded(
                seq![
                    (encode_utf8("grpc-status"@), encode_utf8("0"@)),
                    (encode_utf8("grpc-message"@), encode_utf8(""@)),
                ],
            );
            let d = 39 + status.len() as int;
            let e = d + 9 + reply_data(name).len();
            &&& frame_at(bytes, 0, 8, 0, 0, be_bytes(payload_len, 4))
            &&& frame_at(bytes, 13, 6, 0, 0, be_bytes(ping as nat, 8))
            &&& frame_at(bytes, 30, 1, 4, stream_id, status)
            &&& frame_at(bytes, d, 0, 0, stream_id, reply_data(name))
            &&& frame_at(bytes, e, 1, 5, stream_id, end)
            &&& bytes.len() == e + 9 + end.len()
        }),
{
    law_response_layout(
        stream_id,
        payload_len,
        ping,
        encoded(status_headers()),
        reply_data(name),
        encoded(trailers()),
    );
}

/// What is acceptable: a list is if both of its parts are, and a single header is unless it
/// names a path other than the one that is served.
pub proof fn law_acceptable_by_parts(
    a: Seq<(Seq<u8>, Seq<u8>)>,
    b: Seq<(Seq<u8>, Seq<u8>)>,
    name: Seq<u8>,
    value: Seq<u8>,
)
    ensures
        acceptable(Seq::empty()),
        acceptable(a + b) <==> acceptable(a) && acceptable(b),
        acceptable(seq![(name, value)]) <==> (name != encode_utf8(":path"@) || value
            == encode_utf8("/helloworld.Greeter/SayHello"@)),
{
    let both = a + b;
    if acceptable(both) {
        assert forall|i: int|
            0 <= i < a.len() && a[i].0 == encode_utf8(":path"@) implies a[i].1
            == crate::client::served_path() by {
            assert(both[i] == a[i]);
        }
        assert forall|i: int|
            0 <= i < b.len() && b[i].0 == encode_utf8(":path"@) implies b[i].1
            == crate::client::served_path() by {
            assert(both[a.len() + i] == b[i]);
        }
    }
    let one = seq![(name, value)];
    assert(one[0] == (name, value));
}

/// A frame that breaks a rule of its type closes the connection and changes nothing; and so
/// does no other frame for that reason.
pub proof fn law_invalid_frames_stop(
    c: Session,
    kind: u8,
    flags: u8,
    stream_id: u32,
    payload: Seq<u8>,
)
    requires
        payload.len() < 0x100_0000,
    ensures
        ({
            let (after, stop) = on_raw(c, frame_bytes(kind, flags, stream_id, payload));
            let invalid = crate::frame_laws::breaks_rules(kind, flags, stream_id, payload);
            &&& stop == Some(Stop::Reject(Error::WrongHttpFrame(HttpError::InvalidFrame)))
                <==> invalid
            &&& invalid ==> after == c
        }),
{
    law_invalid_frames(kind, flags, stream_id, payload);
    law_short_priority(kind, flags, stream_id, payload);
}

/// A HEADERS frame that is too short for its priority fields is a fault.
pub proof fn law_short_priority_stops(c: Session, raw: Seq<u8>)
    requires
        parse_frame(raw) == Err::<FrameView, FrameError>(FrameError::ShortPriority),
    ensures
        on_raw(c, raw) == (c, Some(Stop::Fault(Fault::ShortPriority))),
{
}

/// Frames that are only looked at change nothing: a reset of a stream, a farewell, and every
/// type that is not served.
pub proof fn law_silent_frames(c: Session, raw: Seq<u8>)
    requires
        parse_frame(raw) matches Ok(frame) && (frame is RstStream || frame is Goaway
            || frame is Unknown),
    ensures
        on_raw(c, raw) == (c, None::<Stop>),
{
}

/// A request that cannot be answered is a fault and changes nothing: data without room for
/// the prefix, a request that does not decode, a ping counter or a window that would run over.
/// Nothing else stops a DATA frame.
pub proof fn law_unanswerable_requests(
    c: Session,
    stream_id: u32,
    data: Seq<u8>,
    payload_len: nat,
)
    ensures
        ({
            let (after, stop) = on_data(c, stream_id, data, payload_len);
            let request = message_text(data.skip(5), Seq::empty());
            if data.len() < 5 {
                after == c && stop == Some(Stop::Fault(Fault::ShortData))
            } else if request is None {
                after == c && stop == Some(Stop::Fault(Fault::BadRequest))
            } else if c.ping == 0xffff_ffff_ffff_ffff {
                after == c && stop == Some(Stop::Fault(Fault::PingOverflow))
            } else if c.window_size - reply_data(request->0).len() < -0x8000_0000 {
                after == c && stop == Some(Stop::Fault(Fault::WindowOverflow))
            } else {
                stop is None
            }
        }),
{
}

/// A DATA frame does what its data asks for.
pub proof fn law_data_frames(c: Session, raw: Seq<u8>)
    ensures
        parse_frame(raw) matches Ok(FrameView::Data { stream_id, data, payload_len }) ==> on_raw(
            c,
            raw,
        ) == on_data(c, stream_id, data, payload_len),
{
}

/// A HEADERS frame is checked and otherwise ignored: its block goes to the decoder, and a
/// list that names another path closes the connection.
pub proof fn law_headers_are_checked(c: Session, raw: Seq<u8>, fragment: Seq<u8>)
    requires
        parse_frame(raw) == Ok::<FrameView, FrameError>(FrameView::Headers { fragment }),
    ensures
        ({
            let (after, stop) = on_raw(c, raw);
            &&& after.wqueue == c.wqueue
            &&& after.ping == c.ping
            &&& after.window_size == c.window_size
            &&& if !well_framed(fragment) {
                after.seen == c.seen && stop == Some(Stop::Fault(Fault::BadHeaderBlock))
            } else {
                after.seen == c.seen.push(fragment) && match decoded(c.seen, fragment) {
                    None => stop == Some(Stop::Fault(Fault::BadHeaderBlock)),
                    Some(list) => if acceptable(list) {
                        stop is None
                    } else {
                        stop == Some(Stop::Reject(Error::WrongHeaders))
                    },
                }
            }
        }),
{
}

/// A header block that is a row of fields, with strings of either coding, is accepted if it
/// decodes to a list that names no other path.
pub proof fn law_rows_of_headers_are_accepted(
    c: Session,
    raw: Seq<u8>,
    row: Seq<Field>,
    list: Seq<(Seq<u8>, Seq<u8>)>,
)
    requires
        parse_frame(raw) == Ok::<FrameView, FrameError>(
            FrameView::Headers { fragment: row_octets(row) },
        ),
        forall|i: int| 0 <= i < row.len() ==> in_limits(#[trigger] row[i]),
        decoded(c.seen, row_octets(row)) == Some(list),
        acceptable(list),
    ensures
        on_raw(c, raw) == (
            Session { seen: c.seen.push(row_octets(row)), ..c },
            None::<Stop>,
        ),
{
    law_rows_are_well_framed(row, Seq::empty());
}

/// Settings and pings are answered unless they are answers themselves; a window update widens
/// the window unless it would run over.
pub proof fn law_control_frames(c: Session, raw: Seq<u8>)
    ensures
        match parse_frame(raw) {
            Ok(FrameView::Settings { ack }) => on_raw(c, raw) == (
                if ack {
                    c
                } else {
                    Session { wqueue: c.wqueue.push(frame_bytes(4, 1, 0, Seq::empty())), ..c }
                },
                None::<Stop>,
            ),
            Ok(FrameView::Ping { ack, opaque_data }) => on_raw(c, raw) == (
                if ack {
                    c
                } else {
                    Session {
                        wqueue: c.wqueue.push(frame_bytes(6, 1, 0, be_bytes(opaque_data, 8))),
                        ..c
                    }
                },
                None::<Stop>,
            ),
            Ok(FrameView::WindowUpdate { increment }) => if c.window_size + increment
                > 0x7fff_ffff {
                on_raw(c, raw) == (c, Some(Stop::Fault(Fault::WindowOverflow)))
            } else {
                on_raw(c, raw) == (
                    Session { window_size: (c.window_size + increment) as i32, ..c },
                    None::<Stop>,
                )
            },
            _ => true,
        },
{
}

/// A frame that has not come as a whole waits, and nothing happens.
pub proof fn law_partial_frames_wait(buffer: Seq<u8>, c: Session)
    requires
        buffer.len() < 9 || buffer.len() < 9 + buffer[0] * 0x1_0000 + buffer[1] * 0x100
            + buffer[2],
    ensures
        run(buffer, c) == (buffer, c, None::<Stop>),
{
    if buffer.len() >= 9 {
        lemma_announced(buffer);
    }
}

/// A frame that has come as a whole is worked off, and then what is behind it. A frame that
/// stops the connection is the last one.
pub proof fn law_whole_frames_are_worked_off(buffer: Seq<u8>, n: int, c: Session)
    requires
        buffer.len() >= 9,
        n == 9 + buffer[0] * 0x1_0000 + buffer[1] * 0x100 + buffer[2],
        n <= buffer.len(),
    ensures
        ({
            let (after, stop) = on_raw(c, buffer.take(n));
            run(buffer, c) == if stop is Some {
                (buffer.skip(n), after, stop)
            } else {
                run(buffer.skip(n), after)
            }
        }),
{
    lemma_announced(buffer);
}

/// Before the preface has come as a whole nothing happens.
pub proof fn law_preface_is_waited_for(v: ClientView)
    requires
        !v.established,
        v.buffer.len() < encode_utf8("PRI * HTTP/2.0\r\n\r\nSM\r\n\r\n"@).len(),
    ensures
        received(v) == (v, Progress::Waiting),
{
}

/// The preface is taken off, and from then on there are only frames.
pub proof fn law_preface_is_taken_off(v: ClientView, rest: Seq<u8>)
    requires
        !v.established,
        v.buffer == encode_utf8("PRI * HTTP/2.0\r\n\r\nSM\r\n\r\n"@) + rest,
    ensures
        received(v) == received(ClientView { established: true, buffer: rest, ..v }),
{
    let p = encode_utf8("PRI * HTTP/2.0\r\n\r\nSM\r\n\r\n"@);
    assert(v.buffer.take(p.len() as int) =~= p);
    assert(v.buffer.skip(p.len() as int) =~= rest);
}

/// A connection that opens in another way is closed; what was taken for the preface is gone
/// and nothing else has changed.
pub proof fn law_other_openings_are_refused(v: ClientView, first: Seq<u8>, rest: Seq<u8>)
    requires
        !v.established,
        v.buffer == first + rest,
        first.len() == encode_utf8("PRI * HTTP/2.0\r\n\r\nSM\r\n\r\n"@).len(),
        first != encode_utf8("PRI * HTTP/2.0\r\n\r\nSM\r\n\r\n"@),
    ensures
        received(v) == (
            ClientView { buffer: rest, ..v },
            Progress::Stopped(Stop::Reject(Error::WrongPreface)),
        ),
{
    assert(v.buffer.take(first.len() as int) =~= first);
    assert(v.buffer.skip(first.len() as int) =~= rest);
}

/// An established connection works off its frames, and can be written to unless one of them
/// stopped it.
pub proof fn law_established_works_off_frames(v: ClientView)
    requires
        v.established,
    ensures
        ({
            let (rest, session, stop) = run(v.buffer, v.session);
            let (after, progress) = received(v);
            &&& after.established
            &&& after.buffer == rest
            &&& after.session == session
            &&& match stop {
                None => progress == Progress::Flush,
                Some(s) => progress == Progress::Stopped(s),
            }
        }),
{
}

/// A readable socket is read, to the last byte, before anything is looked at: each read that
/// brings bytes puts them behind those that came before, and asks for another read.
pub proof fn law_reading(v: ClientView, writable: bool, bytes: Vec<u8>)
    ensures
        on_event(v, Event::Ready { readable: true, writable }) == (
            v,
            Ok::<ActionView, Stop>(ActionView::Read),
        ),
        bytes@.len() > 0 ==> on_event(v, Event::Received(bytes)) == (
            ClientView { buffer: v.buffer + bytes@, ..v },
            Ok::<ActionView, Stop>(ActionView::Read),
        ),
{
}

/// A read without bytes and a read that fails close the connection and change nothing.
pub proof fn law_reading_ends(v: ClientView, bytes: Vec<u8>, e: std::io::Error)
    ensures
        bytes@.len() == 0 ==> on_event(v, Event::Received(bytes)) == (
            v,
            Err::<ActionView, Stop>(Stop::Reject(Error::Disconnected(Cause::ReadZero))),
        ),
        on_event(v, Event::ReadFailed(e)) == (
            v,
            Err::<ActionView, Stop>(Stop::Reject(Error::Disconnected(Cause::Failed(e)))),
        ),
{
}

/// When there is nothing more to read, what was received is looked at. A connection that
/// waits for the preface writes nothing, one that is stopped is closed, and any other writes
/// as one that is writable does.
pub proof fn law_looking_and_writing(v: ClientView, writable: bool)
    ensures
        ({
            let (after, progress) = received(v);
            match progress {
                Progress::Waiting => on_event(v, Event::WouldBlock) == (
                    v,
                    Ok::<ActionView, Stop>(ActionView::Done),
                ),
                Progress::Stopped(stop) => on_event(v, Event::WouldBlock) == (
                    after,
                    Err::<ActionView, Stop>(stop),
                ),
                Progress::Flush => on_event(v, Event::WouldBlock) == on_event(
                    after,
                    Event::Ready { readable: false, writable },
                ),
            }
        }),
        on_event(v, Event::Written) == on_event(v, Event::Ready { readable: false, writable }),
        on_event(v, Event::Written) == (flushed(v).0, Ok::<ActionView, Stop>(flushed(v).1)),
{
}

/// A write that fails undoes the step that asked for it, and there is nothing more to do.
pub proof fn law_failed_writes_undo(v: ClientView, bytes: Vec<u8>)
    requires
        flushed(v).1 == ActionView::Write(bytes@),
    ensures
        on_event(flushed(v).0, Event::WriteFailed(bytes)) == (
            v,
            Ok::<ActionView, Stop>(ActionView::Done),
        ),
{
    assert(seq![bytes@] + v.session.wqueue.drop_first() =~= v.session.wqueue);
}

/// Bytes that fail to be written go back to the front of the queue, whatever they are.
pub proof fn law_failed_writes_come_first(v: ClientView, bytes: Vec<u8>)
    ensures
        ({
            let (after, next) = on_event(v, Event::WriteFailed(bytes));
            &&& next == Ok::<ActionView, Stop>(ActionView::Done)
            &&& after.session.wqueue.len() == v.session.wqueue.len() + 1
            &&& after.session.wqueue[0] == bytes@
            &&& after.session.wqueue.skip(1) == v.session.wqueue
            &&& after == (ClientView {
                session: Session { wqueue: after.session.wqueue, ..v.session },
                ..v
            })
        }),
{
    assert((seq![bytes@] + v.session.wqueue).skip(1) =~= v.session.wqueue);
}

/// More bytes and more frames to write go behind those that are there, and change nothing
/// else.
pub proof fn law_more_goes_behind(v: ClientView, bytes: Seq<u8>)
    ensures
        v.extended(bytes) == (ClientView { buffer: v.buffer + bytes, ..v }),
        v.session.queued(bytes) == (Session { wqueue: v.session.wqueue.push(bytes), ..v.session }),
{
}

/// The value of an action is the action.
pub proof fn law_values_of_actions(action: Action)
    ensures
        match action {
            Action::Read => action@ is Read,
            Action::Write(bytes) => action@ == ActionView::Write(bytes@),
            Action::WindowFull => action@ is WindowFull,
            Action::Done => action@ is Done,
        },
{
}

/// The value of a header list is the list, header by header.
pub proof fn law_values_of_header_lists(headers: Seq<(Vec<u8>, Vec<u8>)>)
    ensures
        header_list(headers).len() == headers.len(),
        forall|i: int|
            0 <= i < headers.len() ==> (#[trigger] header_list(headers)[i]) == (
                headers[i].0@,
                headers[i].1@,
            ),
{
}

} // verus!

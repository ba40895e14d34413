//! What holds of every connection.

use crate::bytes_be::{be_bytes, be_value, law_value_of_bytes, lemma_be_bytes_len, lemma_be_limits};
use crate::client::{assembled, flushed, frames_in, front_len, has_frame, lemma_preface_len, on_data, on_raw, preface, received, response, response_frames, run, status_headers, trailers, ActionView, ClientView, Progress, Session};
use crate::error::Stop;
use crate::headers::encoded;
use crate::hello::{greeting, law_greeted_by_name, lemma_greeting_len, reply_data, GRPC_PREFIX_LEN};
use crate::protobuf::{law_text_is_read_back, message_bytes, message_text};
use crate::wire::{frame_bytes, law_data_is_read_back, law_frame_fields, law_headers_are_read_back, law_ping_is_read_back, law_settings_are_read_back, law_window_update_is_read_back, parse_frame, unpadded, FrameError, FrameView, ACK, DATA, END_HEADERS, END_STREAM, GOAWAY, HEADERS, PADDED, PING, RST_STREAM, SETTINGS, WINDOW_UPDATE};
use vstd::prelude::*;
use vstd::utf8::encode_utf8;

verus! {

/// Bytes that follow do not change which frame comes first.
proof fn lemma_front_of_longer(buffer: Seq<u8>, more: Seq<u8>)
    requires
        has_frame(buffer),
    ensures
        has_frame(buffer + more),
        front_len(buffer + more) == front_len(buffer),
        (buffer + more).take(front_len(buffer)) == buffer.take(front_len(buffer)),
        (buffer + more).skip(front_len(buffer)) == buffer.skip(front_len(buffer)) + more,
{
    assert((buffer + more).take(3) =~= buffer.take(3));
    assert((buffer + more).take(front_len(buffer)) =~= buffer.take(front_len(buffer)));
    assert((buffer + more).skip(front_len(buffer)) =~= buffer.skip(front_len(buffer)) + more);
}

/// Frames can be worked off as they come: with more bytes behind them the same frames have
/// the same effect, and work goes on with what was left and the new bytes.
pub proof fn law_frames_as_they_come(buffer: Seq<u8>, more: Seq<u8>, c: Session)
    ensures
        ({
            let (rest, after, stop) = run(buffer, c);
            run(buffer + more, c) == if stop is Some {
                (rest + more, after, stop)
            } else {
                run(rest + more, after)
            }
        }),
    decreases buffer.len(),
{
    if has_frame(buffer) {
        lemma_front_of_longer(buffer, more);
        let (after, stop) = on_raw(c, buffer.take(front_len(buffer)));
        if stop is None {
            law_frames_as_they_come(buffer.skip(front_len(buffer)), more, after);
        }
    }
}

/// It does not matter how the bytes of a peer are cut into reads: looking at some of them
/// early, and at the rest when it has come, has the same effect as looking at all of them at
/// once. A connection that stops early stops in the same way.
pub proof fn law_cuts_do_not_matter(v: ClientView, more: Seq<u8>)
    ensures
        ({
            let (early, progress) = received(v);
            received(v.extended(more)) == if progress is Stopped {
                (early.extended(more), progress)
            } else {
                received(early.extended(more))
            }
        }),
{
    lemma_preface_len();
    let len = preface().len() as int;
    if v.established {
        law_frames_as_they_come(v.buffer, more, v.session);
    } else if v.buffer.len() >= len {
        assert((v.buffer + more).take(len) =~= v.buffer.take(len));
        assert((v.buffer + more).skip(len) =~= v.buffer.skip(len) + more);
        law_frames_as_they_come(v.buffer.skip(len), more, v.session);
    }
}

impl Session {
    /// The session after the first `k` pieces of its queue have been written.
    pub open spec fn written(self, k: int) -> Session {
        Session { wqueue: self.wqueue.skip(k), ..self }
    }
}

impl ClientView {
    /// The connection after the first `k` pieces of its queue have been written.
    pub open spec fn written(self, k: int) -> ClientView {
        ClientView { session: self.session.written(k), ..self }
    }
}

/// Frames have the same effect whether or not some of the queue has been written before: what
/// was written is missing from the front of the queue, and nothing else differs.
pub proof fn law_frames_after_writes(buffer: Seq<u8>, c: Session, k: int)
    requires
        0 <= k <= c.wqueue.len(),
    ensures
        ({
            let (rest, after, stop) = run(buffer, c);
            &&& k <= after.wqueue.len()
            &&& run(buffer, c.written(k)) == (rest, after.written(k), stop)
        }),
    decreases buffer.len(),
{
    if has_frame(buffer) {
        let raw = buffer.take(front_len(buffer));
        let (after, stop) = on_raw(c, raw);
        assert(k <= after.wqueue.len());
        assert(on_raw(c.written(k), raw).1 == stop);
        assert(on_raw(c.written(k), raw).0 =~= after.written(k));
        if stop is None {
            law_frames_after_writes(buffer.skip(front_len(buffer)), after, k);
        }
    }
}

/// Writes between two reads do not matter: looking at some bytes early, writing the first
/// `k` pieces of the queue, and looking at the rest when it has come, leaves the connection as
/// if all had been looked at at once and the same `k` pieces had been written then.
pub proof fn law_writes_between_reads_do_not_matter(v: ClientView, more: Seq<u8>, k: int)
    requires
        !(received(v).1 is Stopped),
        0 <= k <= received(v).0.session.wqueue.len(),
    ensures
        ({
            let early = received(v).0;
            let (late, progress) = received(v.extended(more));
            &&& k <= late.session.wqueue.len()
            &&& received(early.written(k).extended(more)) == (late.written(k), progress)
        }),
{
    law_cuts_do_not_matter(v, more);
    let w = received(v).0.extended(more);
    assert(received(v).0.written(k).extended(more) =~= w.written(k));
    lemma_preface_len();
    let len = preface().len() as int;
    if w.established {
        law_frames_after_writes(w.buffer, w.session, k);
    } else if w.buffer.len() >= len {
        law_frames_after_writes(w.buffer.skip(len), w.session, k);
    }
}

/// A frame at the front of what was received is worked off before anything behind it.
pub proof fn law_frame_by_frame(
    kind: u8,
    flags: u8,
    stream_id: u32,
    payload: Seq<u8>,
    rest: Seq<u8>,
    c: Session,
)
    requires
        payload.len() < 0x100_0000,
    ensures
        ({
            let raw = frame_bytes(kind, flags, stream_id, payload);
            let (after, stop) = on_raw(c, raw);
            run(raw + rest, c) == if stop is Some {
                (rest, after, stop)
            } else {
                run(rest, after)
            }
        }),
{
    let raw = frame_bytes(kind, flags, stream_id, payload);
    law_frame_fields(kind, flags, stream_id, payload);
    assert(has_frame(raw));
    lemma_front_of_longer(raw, rest);
    assert(raw.take(raw.len() as int) =~= raw);
    assert(raw.skip(raw.len() as int) + rest =~= rest);
}

/// Receiving takes nothing from the queue and puts everything behind what is there.
pub proof fn law_queue_only_grows(buffer: Seq<u8>, c: Session)
    ensures
        c.wqueue.is_prefix_of(run(buffer, c).1.wqueue),
    decreases buffer.len(),
{
    if has_frame(buffer) {
        let (after, stop) = on_raw(c, buffer.take(front_len(buffer)));
        assert(c.wqueue.is_prefix_of(after.wqueue));
        if stop is None {
            law_queue_only_grows(buffer.skip(front_len(buffer)), after);
        }
    }
}

/// A frame that stops the connection is not answered: it queues nothing, and it leaves the
/// ping counter and the window alone.
pub proof fn law_refused_is_not_answered(c: Session, raw: Seq<u8>)
    ensures
        ({
            let (after, stop) = on_raw(c, raw);
            stop is Some ==> after.wqueue == c.wqueue && after.ping == c.ping && after.window_size
                == c.window_size
        }),
{
}

/// A connection that has seen the preface never waits for it again.
pub proof fn law_established_for_good(v: ClientView)
    ensures
        v.established ==> received(v).0.established && !(received(v).1 is Waiting),
        received(v).1 is Flush ==> received(v).0.established,
{
}

/// A client that opens with anything but the preface is turned away, whatever follows, and
/// nothing is queued for it.
pub proof fn law_wrong_preface_is_refused(v: ClientView)
    requires
        !v.established,
        v.buffer.len() >= preface().len(),
        v.buffer.take(preface().len() as int) != preface(),
    ensures
        received(v).1 == Progress::Stopped(Stop::Reject(crate::error::Error::WrongPreface)),
        received(v).0.session == v.session,
{
}

/// A ping is answered with its own data, and the answer to a ping is not answered.
pub proof fn law_ping_is_answered(c: Session, flags: u8, opaque_data: u64)
    ensures
        on_raw(c, frame_bytes(PING, flags, 0, be_bytes(opaque_data as nat, 8))) == if flags & ACK
            == 0 {
            (c.queued(frame_bytes(PING, ACK, 0, be_bytes(opaque_data as nat, 8))), None::<Stop>)
        } else {
            (c, None::<Stop>)
        },
{
    law_ping_is_read_back(flags, opaque_data);
}

/// Settings, however many, are acknowledged, and an acknowledgement is not.
pub proof fn law_settings_are_acknowledged(c: Session, flags: u8, payload: Seq<u8>)
    requires
        payload.len() < 0x100_0000,
        payload.len() % 6 == 0,
        flags & ACK != 0 ==> payload.len() == 0,
    ensures
        on_raw(c, frame_bytes(SETTINGS, flags, 0, payload)) == if flags & ACK == 0 {
            (c.queued(frame_bytes(SETTINGS, ACK, 0, Seq::empty())), None::<Stop>)
        } else {
            (c, None::<Stop>)
        },
{
    law_settings_are_read_back(flags, payload);
}

/// A window update, on any stream, widens the window by what it says without its top bit, and
/// changes nothing else.
pub proof fn law_window_update_widens(c: Session, flags: u8, stream_id: u32, increment: u32)
    requires
        c.window_size + increment as nat % 0x8000_0000 <= i32::MAX,
    ensures
        on_raw(
            c,
            frame_bytes(WINDOW_UPDATE, flags, stream_id, be_bytes(increment as nat, 4)),
        ) == (
            Session {
                window_size: (c.window_size + increment as nat % 0x8000_0000) as i32,
                ..c
            },
            None::<Stop>,
        ),
{
    law_window_update_is_read_back(flags, stream_id, increment);
}

/// A frame of a type that is not served changes nothing.
pub proof fn law_other_frames_are_ignored(c: Session, raw: Seq<u8>)
    requires
        !(raw[3] == DATA || raw[3] == HEADERS || raw[3] == RST_STREAM || raw[3] == SETTINGS
            || raw[3] == PING || raw[3] == GOAWAY || raw[3] == WINDOW_UPDATE),
    ensures
        on_raw(c, raw) == (c, None::<Stop>),
{
}

/// The DATA payload of a request: an uncompressed gRPC message that holds a name.
pub open spec fn request_data(name: Seq<char>) -> Seq<u8> {
    seq![0u8] + be_bytes(message_bytes(name).len(), 4) + message_bytes(name)
}

/// The data of a request holds its name.
pub proof fn law_request_holds_its_name(name: Seq<char>)
    requires
        request_data(name).len() < 0x1_0000_0000,
    ensures
        request_data(name).len() >= GRPC_PREFIX_LEN,
        message_text(request_data(name).skip(GRPC_PREFIX_LEN as int), Seq::empty()) == Some(name),
{
    lemma_be_bytes_len(message_bytes(name).len(), 4);
    assert(encode_utf8(name).len() <= message_bytes(name).len());
    law_text_is_read_back(name);
    assert(request_data(name).skip(GRPC_PREFIX_LEN as int) =~= message_bytes(name));
}

/// A request is answered: exactly one response for its stream goes to the end of the queue.
/// It credits the whole payload, padding included, and greets the name in the data without the
/// padding. The ping counter moves on, and the reply costs as much of the window as it is
/// long. Flags other than the one for padding do not matter.
pub proof fn law_request_is_answered(
    c: Session,
    flags: u8,
    stream_id: u32,
    payload: Seq<u8>,
    data: Seq<u8>,
    name: Seq<char>,
)
    requires
        stream_id != 0,
        payload.len() < 0x100_0000,
        unpadded(payload, flags & PADDED != 0) == Some(data),
        data.len() >= GRPC_PREFIX_LEN,
        message_text(data.skip(GRPC_PREFIX_LEN as int), Seq::empty()) == Some(name),
        c.ping < u64::MAX,
        c.window_size - reply_data(name).len() >= i32::MIN,
    ensures
        on_raw(c, frame_bytes(DATA, flags, stream_id, payload)) == (
            Session {
                wqueue: c.wqueue.push(response(stream_id, payload.len(), c.ping, name)),
                ping: (c.ping + 1) as u64,
                window_size: (c.window_size - reply_data(name).len()) as i32,
                seen: c.seen,
            },
            None::<Stop>,
        ),
{
    let frame = FrameView::Data { stream_id, data, payload_len: payload.len() };
    assert(parse_frame(frame_bytes(DATA, flags, stream_id, payload)) == Ok::<
        FrameView,
        FrameError,
    >(frame)) by {
        law_data_is_read_back(flags, stream_id, payload, data);
    }
}

/// The prefix of a gRPC message is not looked at: whatever its five bytes are, the same
/// request has the same effect.
pub proof fn law_prefix_is_not_looked_at(
    c: Session,
    stream_id: u32,
    one: Seq<u8>,
    other: Seq<u8>,
    request: Seq<u8>,
    payload_len: nat,
)
    requires
        one.len() == GRPC_PREFIX_LEN,
        other.len() == GRPC_PREFIX_LEN,
    ensures
        on_data(c, stream_id, one + request, payload_len) == on_data(
            c,
            stream_id,
            other + request,
            payload_len,
        ),
{
    assert((one + request).skip(GRPC_PREFIX_LEN as int) =~= request);
    assert((other + request).skip(GRPC_PREFIX_LEN as int) =~= request);
}

/// The DATA frame of a response carries, on the stream of the request, an uncompressed gRPC
/// message that greets the name of the request.
pub proof fn law_response_greets(stream_id: u32, name: Seq<char>)
    requires
        stream_id != 0,
        reply_data(name).len() < 0x100_0000,
    ensures
        parse_frame(frame_bytes(DATA, 0, stream_id, reply_data(name))) == Ok::<
            FrameView,
            FrameError,
        >(
            FrameView::Data {
                stream_id,
                data: reply_data(name),
                payload_len: reply_data(name).len(),
            },
        ),
        reply_data(name)[0] == 0,
        be_value(reply_data(name).subrange(1, 5)) == reply_data(name).len() - 5,
        message_text(reply_data(name).skip(GRPC_PREFIX_LEN as int), Seq::empty()) == Some(
            "Hello "@ + name,
        ),
{
    let message = message_bytes(greeting(name));
    lemma_be_bytes_len(message.len(), 4);
    lemma_be_limits();
    law_value_of_bytes(message.len(), 4);
    assert(reply_data(name).subrange(1, 5) =~= be_bytes(message.len(), 4));
    assert(encode_utf8(greeting(name)).len() <= message.len());
    lemma_greeting_len(name);
    law_greeted_by_name(name);
    assert(0u8 & 8u8 == 0) by (bit_vector);
    law_data_is_read_back(0, stream_id, reply_data(name), reply_data(name));
}

/// Whether `bytes` reads, to its end, as these frames.
#[verifier::opaque]
spec fn reads_as(bytes: Seq<u8>, frames: Seq<Result<FrameView, FrameError>>) -> bool {
    frames_in(bytes) == (frames, Seq::<u8>::empty())
}

/// The first of some frames is read before the others.
proof fn lemma_frame_in_front(
    kind: u8,
    flags: u8,
    stream_id: u32,
    payload: Seq<u8>,
    rest: Seq<u8>,
    frames: Seq<Result<FrameView, FrameError>>,
)
    requires
        payload.len() < 0x100_0000,
        reads_as(rest, frames),
    ensures
        reads_as(
            frame_bytes(kind, flags, stream_id, payload) + rest,
            seq![parse_frame(frame_bytes(kind, flags, stream_id, payload))] + frames,
        ),
{
    reveal(reads_as);
    let raw = frame_bytes(kind, flags, stream_id, payload);
    law_frame_fields(kind, flags, stream_id, payload);
    assert(has_frame(raw));
    lemma_front_of_longer(raw, rest);
    assert(raw.take(raw.len() as int) =~= raw);
    assert(raw.skip(raw.len() as int) + rest =~= rest);
}

proof fn lemma_update_in_front(
    increment: u32,
    rest: Seq<u8>,
    frames: Seq<Result<FrameView, FrameError>>,
)
    requires
        reads_as(rest, frames),
    ensures
        reads_as(
            frame_bytes(WINDOW_UPDATE, 0, 0, be_bytes(increment as nat, 4)) + rest,
            seq![
                Ok::<FrameView, FrameError>(
                    FrameView::WindowUpdate { increment: increment as nat % 0x8000_0000 },
                ),
            ] + frames,
        ),
{
    lemma_be_bytes_len(increment as nat, 4);
    law_window_update_is_read_back(0, 0, increment);
    lemma_frame_in_front(WINDOW_UPDATE, 0, 0, be_bytes(increment as nat, 4), rest, frames);
}

proof fn lemma_ping_in_front(
    ping: u64,
    rest: Seq<u8>,
    frames: Seq<Result<FrameView, FrameError>>,
)
    requires
        reads_as(rest, frames),
    ensures
        reads_as(
            frame_bytes(PING, 0, 0, be_bytes(ping as nat, 8)) + rest,
            seq![
                Ok::<FrameView, FrameError>(
                    FrameView::Ping { ack: false, opaque_data: ping as nat },
                ),
            ] + frames,
        ),
{
    lemma_be_bytes_len(ping as nat, 8);
    law_ping_is_read_back(0, ping);
    assert(0u8 & 1u8 == 0) by (bit_vector);
    lemma_frame_in_front(PING, 0, 0, be_bytes(ping as nat, 8), rest, frames);
}

proof fn lemma_headers_in_front(
    flags: u8,
    stream_id: u32,
    fragment: Seq<u8>,
    rest: Seq<u8>,
    frames: Seq<Result<FrameView, FrameError>>,
)
    requires
        stream_id != 0,
        fragment.len() < 0x100_0000,
        flags == END_HEADERS || flags == END_HEADERS | END_STREAM,
        reads_as(rest, frames),
    ensures
        reads_as(
            frame_bytes(HEADERS, flags, stream_id, fragment) + rest,
            seq![Ok::<FrameView, FrameError>(FrameView::Headers { fragment })] + frames,
        ),
{
    assert(4u8 & 8u8 == 0 && 4u8 & 0x20u8 == 0) by (bit_vector);
    assert((4u8 | 1u8) & 8u8 == 0 && (4u8 | 1u8) & 0x20u8 == 0) by (bit_vector);
    law_headers_are_read_back(flags, stream_id, fragment, fragment);
    lemma_frame_in_front(HEADERS, flags, stream_id, fragment, rest, frames);
}

proof fn lemma_data_in_front(
    stream_id: u32,
    data: Seq<u8>,
    rest: Seq<u8>,
    frames: Seq<Result<FrameView, FrameError>>,
)
    requires
        stream_id != 0,
        data.len() < 0x100_0000,
        reads_as(rest, frames),
    ensures
        reads_as(
            frame_bytes(DATA, 0, stream_id, data) + rest,
            seq![
                Ok::<FrameView, FrameError>(
                    FrameView::Data { stream_id, data, payload_len: data.len() },
                ),
            ] + frames,
        ),
{
    assert(0u8 & 8u8 == 0) by (bit_vector);
    law_data_is_read_back(0, stream_id, data, data);
    lemma_frame_in_front(DATA, 0, stream_id, data, rest, frames);
}

/// Five pieces in a row can be taken one after the other.
proof fn lemma_five_pieces(a: Seq<u8>, b: Seq<u8>, c: Seq<u8>, d: Seq<u8>, e: Seq<u8>)
    ensures
        a + b + c + d + e == a + (b + (c + (d + (e + Seq::empty())))),
{
    assert(a + b + c + d + e =~= a + (b + (c + (d + (e + Seq::empty())))));
}

/// What is put together for a response reads, in order, as a window update that gives back
/// the payload of the request, a ping, the headers, the data and the trailers, and as nothing
/// else.
pub proof fn law_assembled_is_read_in_order(
    stream_id: u32,
    payload_len: u32,
    ping: u64,
    status: Seq<u8>,
    data: Seq<u8>,
    end: Seq<u8>,
)
    requires
        stream_id != 0,
        status.len() < 0x100_0000,
        data.len() < 0x100_0000,
        end.len() < 0x100_0000,
    ensures
        frames_in(assembled(stream_id, payload_len as nat, ping, status, data, end)) == (
            response_frames(stream_id, payload_len as nat, ping, status, data, end),
            Seq::<u8>::empty(),
        ),
{
    let last = END_HEADERS | END_STREAM;
    let e = frame_bytes(HEADERS, last, stream_id, end);
    let d = frame_bytes(DATA, 0, stream_id, data);
    let h = frame_bytes(HEADERS, END_HEADERS, stream_id, status);
    let p = frame_bytes(PING, 0, 0, be_bytes(ping as nat, 8));
    let w = frame_bytes(WINDOW_UPDATE, 0, 0, be_bytes(payload_len as nat, 4));
    let all = response_frames(stream_id, payload_len as nat, ping, status, data, end);
    lemma_five_pieces(w, p, h, d, e);
    let none = Seq::<Result<FrameView, FrameError>>::empty();
    assert(reads_as(Seq::empty(), none)) by {
        reveal(reads_as);
    }
    lemma_headers_in_front(last, stream_id, end, Seq::empty(), none);
    lemma_data_in_front(stream_id, data, e + Seq::empty(), seq![all[4]] + none);
    lemma_headers_in_front(
        END_HEADERS,
        stream_id,
        status,
        d + (e + Seq::empty()),
        seq![all[3]] + (seq![all[4]] + none),
    );
    lemma_ping_in_front(
        ping,
        h + (d + (e + Seq::empty())),
        seq![all[2]] + (seq![all[3]] + (seq![all[4]] + none)),
    );
    lemma_update_in_front(
        payload_len,
        p + (h + (d + (e + Seq::empty()))),
        seq![all[1]] + (seq![all[2]] + (seq![all[3]] + (seq![all[4]] + none))),
    );
    assert(seq![all[0]] + (seq![all[1]] + (seq![all[2]] + (seq![all[3]] + (seq![all[4]] + none))))
        =~= all);
    assert(reads_as(assembled(stream_id, payload_len as nat, ping, status, data, end), all));
    reveal(reads_as);
}

/// The whole response to a request reads, in order, as a window update, a ping, the headers,
/// the greeting and the trailers, if each of these fits a frame.
pub proof fn law_response_is_read_in_order(
    stream_id: u32,
    payload_len: u32,
    ping: u64,
    name: Seq<char>,
)
    requires
        stream_id != 0,
        reply_data(name).len() < 0x100_0000,
    ensures
        encoded(status_headers()).len() < 0x100_0000 && encoded(trailers()).len() < 0x100_0000
            ==> frames_in(response(stream_id, payload_len as nat, ping, name)) == (
            response_frames(
                stream_id,
                payload_len as nat,
                ping,
                encoded(status_headers()),
                reply_data(name),
                encoded(trailers()),
            ),
            Seq::<u8>::empty(),
        ),
{
    let status = encoded(status_headers());
    let end = encoded(trailers());
    if status.len() < 0x100_0000 && end.len() < 0x100_0000 {
        law_assembled_is_read_in_order(
            stream_id,
            payload_len,
            ping,
            status,
            reply_data(name),
            end,
        );
    }
}

/// A new client's first request is answered: the preface and the request bring the response
/// into the queue, behind what was there.
pub proof fn law_first_request_is_answered(
    v: ClientView,
    flags: u8,
    stream_id: u32,
    payload: Seq<u8>,
    data: Seq<u8>,
    name: Seq<char>,
)
    requires
        !v.established,
        v.buffer == preface() + frame_bytes(DATA, flags, stream_id, payload),
        stream_id != 0,
        payload.len() < 0x100_0000,
        unpadded(payload, flags & PADDED != 0) == Some(data),
        data.len() >= GRPC_PREFIX_LEN,
        message_text(data.skip(GRPC_PREFIX_LEN as int), Seq::empty()) == Some(name),
        v.session.ping < u64::MAX,
        v.session.window_size - reply_data(name).len() >= i32::MIN,
    ensures
        received(v).1 == Progress::Flush,
        received(v).0.established,
        received(v).0.buffer == Seq::<u8>::empty(),
        received(v).0.session.wqueue == v.session.wqueue.push(
            response(stream_id, payload.len(), v.session.ping, name),
        ),
{
    let len = preface().len() as int;
    let raw = frame_bytes(DATA, flags, stream_id, payload);
    assert(v.buffer.take(len) =~= preface());
    assert(v.buffer.skip(len) =~= raw + Seq::empty());
    law_frame_by_frame(DATA, flags, stream_id, payload, Seq::empty(), v.session);
    law_request_is_answered(v.session, flags, stream_id, payload, data, name);
}

/// A write that fails can be taken back: the queue is what it was before.
pub proof fn law_failed_write_is_taken_back(v: ClientView)
    ensures
        ({
            let (after, action) = flushed(v);
            match action {
                ActionView::Write(bytes) => v == (ClientView {
                    session: Session { wqueue: seq![bytes] + after.session.wqueue, ..after.session },
                    ..after
                }),
                _ => after == v,
            }
        }),
{
    if let ActionView::Write(bytes) = flushed(v).1 {
        assert(v.session.wqueue =~= seq![bytes] + flushed(v).0.session.wqueue);
    }
}

/// The connection after `n` writes that went through.
pub open spec fn after_writes(v: ClientView, n: nat) -> ClientView
    decreases n,
{
    if n == 0 {
        v
    } else {
        flushed(after_writes(v, (n - 1) as nat)).0
    }
}

/// The queue is written in order: if the first `n` pieces fit the window, `n` writes take
/// them and change nothing else. Then the piece behind them is written if it fits; if it does
/// not, the window is full and the queue stays as it is; and if there is none, there is
/// nothing left to do.
pub proof fn law_written_in_order(v: ClientView, n: nat)
    requires
        n <= v.session.wqueue.len(),
        v.session.window_size < 0 || forall|i: int|
            0 <= i < n ==> (#[trigger] v.session.wqueue[i]).len() <= v.session.window_size,
    ensures
        ({
            let w = v.session.wqueue;
            let (after, action) = flushed(after_writes(v, n));
            &&& after_writes(v, n) == v.written(n as int)
            &&& if n == w.len() {
                action == ActionView::Done && after == v.written(n as int)
            } else if v.session.window_size < 0 || w[n as int].len() <= v.session.window_size {
                action == ActionView::Write(w[n as int]) && after == v.written(n as int + 1)
            } else {
                action == ActionView::WindowFull && after == v.written(n as int)
            }
        }),
    decreases n,
{
    let w = v.session.wqueue;
    if n == 0 {
        assert(w.skip(0) =~= w);
    } else {
        law_written_in_order(v, (n - 1) as nat);
    }
    if n < w.len() {
        assert(w.skip(n as int)[0] == w[n as int]);
        assert(w.skip(n as int).drop_first() =~= w.skip(n as int + 1));
    }
}

} // verus!

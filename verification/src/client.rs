//! One connection: from received bytes to queued replies.
//!
//! A [`Client`] does no I/O. It is told what happened to its socket and says what to do
//! next with it, see [`Client::handle`].

use crate::buffer::{append, buffer_len, buffered, byte_at, new_buffer, split_front};
use crate::bytes_be::{be_bytes, lemma_be_bytes_len, lemma_be_limits, lemma_be_value_bound};
use crate::client_laws::law_assembled_is_read_in_order;
use crate::error::{Cause, Error, Fault, HttpError, Stop};
use crate::headers::{block_bound, blocks_seen, decode, decoded, encode, encoded, header_list, is_well_framed, new_decoder, well_framed};
use crate::hello::{grpc_message, greeting, lemma_greeting_len, lemma_message_len, reply_data, HelloReply, HelloRequest, GRPC_PREFIX_LEN};
use crate::protobuf::{lemma_text_bound, message_bytes, message_text};
use crate::wire::{announced_len, data_frame, frame_bytes, headers_frame, parse_frame, ping_frame, setting_bytes, settings_ack, settings_max_frame_size, trailers_frame, window_update_frame, DataFrame, FrameError, FrameView, HttpFrame, ACK, DATA, END_HEADERS, END_STREAM, FRAME_HEADER_LEN, HEADERS, MAX_FRAME_SIZE, PING, SETTINGS, WINDOW_UPDATE};
use solicit::http::frame::unpack_header;
use std::collections::VecDeque;
use vstd::prelude::*;
use vstd::string::*;
use vstd::slice::{slice_subrange, slice_to_vec};
use vstd::utf8::encode_utf8;

verus! {

/// The frame size that is announced to a peer.
pub const OWN_MAX_FRAME_SIZE: u32 = 16384;

/// The flow-control window of a new connection.
pub const INITIAL_CONNECTION_WINDOW_SIZE: i32 = 65535;

/// How many bytes to read at a time.
pub const RESERVE: usize = 8192;

/// What a client opens a connection with.
pub open spec fn preface() -> Seq<u8> {
    encode_utf8("PRI * HTTP/2.0\r\n\r\nSM\r\n\r\n"@)
}

/// The only path that is served.
pub open spec fn served_path() -> Seq<u8> {
    encode_utf8("/helloworld.Greeter/SayHello"@)
}

/// The headers in front of a reply.
pub open spec fn status_headers() -> Seq<(Seq<u8>, Seq<u8>)> {
    seq![
        (encode_utf8(":status"@), encode_utf8("200"@)),
        (encode_utf8("content-type"@), encode_utf8("application/grpc"@)),
    ]
}

/// The headers behind a reply.
pub open spec fn trailers() -> Seq<(Seq<u8>, Seq<u8>)> {
    seq![
        (encode_utf8("grpc-status"@), encode_utf8("0"@)),
        (encode_utf8("grpc-message"@), encode_utf8(""@)),
    ]
}

/// Whether a header list asks for what is served: it names no other path.
pub open spec fn acceptable(headers: Seq<(Seq<u8>, Seq<u8>)>) -> bool {
    forall|i: int|
        0 <= i < headers.len() && headers[i].0 == encode_utf8(":path"@) ==> headers[i].1
            == served_path()
}

/// Everything that is sent for one request, in one piece: the received bytes are credited,
/// the peer is pinged, and the data goes out between the header blocks `status` and `end`.
pub open spec fn assembled(
    stream_id: u32,
    payload_len: nat,
    ping: u64,
    status: Seq<u8>,
    data: Seq<u8>,
    end: Seq<u8>,
) -> Seq<u8> {
    frame_bytes(WINDOW_UPDATE, 0, 0, be_bytes(payload_len, 4)) + frame_bytes(
        PING,
        0,
        0,
        be_bytes(ping as nat, 8),
    ) + frame_bytes(HEADERS, END_HEADERS, stream_id, status) + frame_bytes(
        DATA,
        0,
        stream_id,
        data,
    ) + frame_bytes(HEADERS, END_HEADERS | END_STREAM, stream_id, end)
}

/// The response to a request: the greeting between its headers and its trailers.
pub open spec fn response(stream_id: u32, payload_len: nat, ping: u64, name: Seq<char>) -> Seq<u8> {
    assembled(
        stream_id,
        payload_len,
        ping,
        encoded(status_headers()),
        reply_data(name),
        encoded(trailers()),
    )
}

/// What a connection has on record about its peer.
#[verifier::ext_equal]
pub struct Session {
    /// What waits to be written, in order.
    pub wqueue: Seq<Seq<u8>>,
    /// The data of the next ping.
    pub ping: u64,
    /// How much may be sent.
    pub window_size: i32,
    /// The header blocks received so far.
    pub seen: Seq<Seq<u8>>,
}

/// The mathematical value of a connection.
#[verifier::ext_equal]
pub struct ClientView {
    /// What was received and not yet consumed.
    pub buffer: Seq<u8>,
    /// Whether the preface has come.
    pub established: bool,
    pub session: Session,
}

impl Session {
    pub open spec fn queued(self, bytes: Seq<u8>) -> Session {
        Session { wqueue: self.wqueue.push(bytes), ..self }
    }
}

impl ClientView {
    /// The connection with more bytes received.
    pub open spec fn extended(self, bytes: Seq<u8>) -> ClientView {
        ClientView { buffer: self.buffer + bytes, ..self }
    }
}

/// The name in the request that the data of a DATA frame holds.
pub open spec fn requested(data: Seq<u8>) -> Seq<char> {
    message_text(data.skip(GRPC_PREFIX_LEN as int), Seq::empty())->0
}

/// A DATA frame: one request.
pub open spec fn on_data(
    c: Session,
    stream_id: u32,
    data: Seq<u8>,
    payload_len: nat,
) -> (Session, Option<Stop>) {
    if data.len() < GRPC_PREFIX_LEN {
        (c, Some(Stop::Fault(Fault::ShortData)))
    } else {
        match message_text(data.skip(GRPC_PREFIX_LEN as int), Seq::empty()) {
            None => (c, Some(Stop::Fault(Fault::BadRequest))),
            Some(name) => if c.ping == u64::MAX {
                (c, Some(Stop::Fault(Fault::PingOverflow)))
            } else if c.window_size - reply_data(name).len() < i32::MIN {
                (c, Some(Stop::Fault(Fault::WindowOverflow)))
            } else {
                (
                    Session {
                        wqueue: c.wqueue.push(response(stream_id, payload_len, c.ping, name)),
                        ping: (c.ping + 1) as u64,
                        window_size: (c.window_size - reply_data(name).len()) as i32,
                        seen: c.seen,
                    },
                    None,
                )
            },
        }
    }
}

/// A HEADERS frame.
pub open spec fn on_headers(c: Session, fragment: Seq<u8>) -> (Session, Option<Stop>) {
    if !well_framed(fragment) {
        (c, Some(Stop::Fault(Fault::BadHeaderBlock)))
    } else {
        let after = Session { seen: c.seen.push(fragment), ..c };
        match decoded(c.seen, fragment) {
            None => (after, Some(Stop::Fault(Fault::BadHeaderBlock))),
            Some(headers) => if acceptable(headers) {
                (after, None)
            } else {
                (after, Some(Stop::Reject(Error::WrongHeaders)))
            },
        }
    }
}

/// What one frame does.
pub open spec fn on_frame(c: Session, frame: FrameView) -> (Session, Option<Stop>) {
    match frame {
        FrameView::Data { stream_id, data, payload_len } => on_data(c, stream_id, data, payload_len),
        FrameView::Headers { fragment } => on_headers(c, fragment),
        FrameView::Settings { ack } => if ack {
            (c, None)
        } else {
            (c.queued(frame_bytes(SETTINGS, ACK, 0, Seq::empty())), None)
        },
        FrameView::Ping { ack, opaque_data } => if ack {
            (c, None)
        } else {
            (c.queued(frame_bytes(PING, ACK, 0, be_bytes(opaque_data, 8))), None)
        },
        FrameView::WindowUpdate { increment } => if c.window_size + increment > i32::MAX {
            (c, Some(Stop::Fault(Fault::WindowOverflow)))
        } else {
            (Session { window_size: (c.window_size + increment) as i32, ..c }, None)
        },
        FrameView::RstStream | FrameView::Goaway | FrameView::Unknown { .. } => (c, None),
    }
}

/// What the bytes of one frame do.
pub open spec fn on_raw(c: Session, raw: Seq<u8>) -> (Session, Option<Stop>) {
    match parse_frame(raw) {
        Ok(frame) => on_frame(c, frame),
        Err(FrameError::Invalid) => (
            c,
            Some(Stop::Reject(Error::WrongHttpFrame(HttpError::InvalidFrame))),
        ),
        Err(FrameError::ShortPriority) => (c, Some(Stop::Fault(Fault::ShortPriority))),
    }
}

/// The length of the frame at the front of `buffer`.
pub open spec fn front_len(buffer: Seq<u8>) -> int {
    FRAME_HEADER_LEN + announced_len(buffer)
}

/// Whether `buffer` starts with a whole frame.
pub open spec fn has_frame(buffer: Seq<u8>) -> bool {
    FRAME_HEADER_LEN <= buffer.len() && front_len(buffer) <= buffer.len()
}

/// What the whole frames of `buffer` mean, in order, and what is left behind them.
pub open spec fn frames_in(buffer: Seq<u8>) -> (Seq<Result<FrameView, FrameError>>, Seq<u8>)
    decreases buffer.len(),
{
    if !has_frame(buffer) {
        (Seq::empty(), buffer)
    } else {
        let (frames, rest) = frames_in(buffer.skip(front_len(buffer)));
        (seq![parse_frame(buffer.take(front_len(buffer)))] + frames, rest)
    }
}

/// The frames of a response, in order.
pub open spec fn response_frames(
    stream_id: u32,
    payload_len: nat,
    ping: u64,
    status: Seq<u8>,
    data: Seq<u8>,
    end: Seq<u8>,
) -> Seq<Result<FrameView, FrameError>> {
    seq![
        Ok(FrameView::WindowUpdate { increment: payload_len % 0x8000_0000 }),
        Ok(FrameView::Ping { ack: false, opaque_data: ping as nat }),
        Ok(FrameView::Headers { fragment: status }),
        Ok(FrameView::Data { stream_id, data, payload_len: data.len() }),
        Ok(FrameView::Headers { fragment: end }),
    ]
}

/// Works off the whole frames of `buffer`, until one of them stops the connection: what is
/// left of the buffer, the session, and what stopped it.
pub open spec fn run(buffer: Seq<u8>, c: Session) -> (Seq<u8>, Session, Option<Stop>)
    decreases buffer.len(),
{
    if !has_frame(buffer) {
        (buffer, c, None)
    } else {
        let rest = buffer.skip(front_len(buffer));
        let (after, stop) = on_raw(c, buffer.take(front_len(buffer)));
        if stop is Some {
            (rest, after, stop)
        } else {
            run(rest, after)
        }
    }
}

/// Where a connection stands once all that was received has been looked at.
pub enum Progress {
    /// The preface has not come yet.
    Waiting,
    /// Everything was worked off; what is queued can be written.
    Flush,
    Stopped(Stop),
}

/// Looks at all that was received: first the preface, then frame by frame.
pub open spec fn received(v: ClientView) -> (ClientView, Progress) {
    let len = preface().len() as int;
    if !v.established && v.buffer.len() < len {
        (v, Progress::Waiting)
    } else if !v.established && v.buffer.take(len) != preface() {
        (
            ClientView { buffer: v.buffer.skip(len), ..v },
            Progress::Stopped(Stop::Reject(Error::WrongPreface)),
        )
    } else {
        let buffer = if v.established {
            v.buffer
        } else {
            v.buffer.skip(len)
        };
        let (rest, session, stop) = run(buffer, v.session);
        (
            ClientView { buffer: rest, established: true, session },
            match stop {
                None => Progress::Flush,
                Some(s) => Progress::Stopped(s),
            },
        )
    }
}

/// What happened to the socket of a connection.
pub enum Event {
    /// It became readable or writable.
    Ready { readable: bool, writable: bool },
    /// A read returned these bytes; none if the peer has closed.
    Received(Vec<u8>),
    /// A read would block.
    WouldBlock,
    /// A read failed.
    ReadFailed(std::io::Error),
    /// A write went through.
    Written,
    /// The write of these bytes failed.
    WriteFailed(Vec<u8>),
}

/// What to do next with the socket of a connection.
pub enum Action {
    /// Read up to [`RESERVE`] bytes.
    Read,
    /// Write these bytes.
    Write(Vec<u8>),
    /// Nothing: the window is too small for what comes next.
    WindowFull,
    /// Nothing until it is ready again.
    Done,
}

/// The mathematical value of an action.
pub enum ActionView {
    Read,
    Write(Seq<u8>),
    WindowFull,
    Done,
}

impl View for Action {
    type V = ActionView;

    open spec fn view(&self) -> ActionView {
        match self {
            Action::Read => ActionView::Read,
            Action::Write(bytes) => ActionView::Write(bytes@),
            Action::WindowFull => ActionView::WindowFull,
            Action::Done => ActionView::Done,
        }
    }
}

/// Whether the window leaves room for what is first in the queue. A negative window, which
/// replies to requests can bring about, holds nothing back.
pub open spec fn fits_window(c: Session) -> bool {
    c.window_size < 0 || c.wqueue[0].len() <= c.window_size
}

/// Takes what is first in the queue, if it may be written.
pub open spec fn flushed(v: ClientView) -> (ClientView, ActionView) {
    if v.session.wqueue.len() == 0 {
        (v, ActionView::Done)
    } else if !fits_window(v.session) {
        (v, ActionView::WindowFull)
    } else {
        (
            ClientView {
                session: Session { wqueue: v.session.wqueue.drop_first(), ..v.session },
                ..v
            },
            ActionView::Write(v.session.wqueue[0]),
        )
    }
}

/// What an event does to a connection, and what to do next or why there is nothing more to do.
pub open spec fn on_event(v: ClientView, event: Event) -> (ClientView, Result<ActionView, Stop>) {
    match event {
        Event::Ready { readable, .. } => if readable {
            (v, Ok(ActionView::Read))
        } else {
            (flushed(v).0, Ok(flushed(v).1))
        },
        Event::Received(bytes) => if bytes@.len() == 0 {
            (v, Err(Stop::Reject(Error::Disconnected(Cause::ReadZero))))
        } else {
            (v.extended(bytes@), Ok(ActionView::Read))
        },
        Event::WouldBlock => {
            let (after, progress) = received(v);
            match progress {
                Progress::Waiting => (after, Ok(ActionView::Done)),
                Progress::Flush => (flushed(after).0, Ok(flushed(after).1)),
                Progress::Stopped(stop) => (after, Err(stop)),
            }
        },
        Event::ReadFailed(e) => (v, Err(Stop::Reject(Error::Disconnected(Cause::Failed(e))))),
        Event::Written => (flushed(v).0, Ok(flushed(v).1)),
        Event::WriteFailed(bytes) => (
            ClientView {
                session: Session { wqueue: seq![bytes@] + v.session.wqueue, ..v.session },
                ..v
            },
            Ok(ActionView::Done),
        ),
    }
}

/// What stopped a step, if anything did.
spec fn stop_of(r: Result<(), Stop>) -> Option<Stop> {
    match r {
        Ok(_) => None,
        Err(stop) => Some(stop),
    }
}

/// The reply to a request is little longer than the request.
proof fn lemma_reply_len(request: Seq<u8>, name: Seq<char>)
    requires
        request.len() < 0x100_0000,
        message_text(request, Seq::empty()) == Some(name),
    ensures
        encode_utf8(greeting(name)).len() <= 6 + request.len(),
        message_bytes(greeting(name)).len() <= 17 + request.len(),
        reply_data(name).len() == GRPC_PREFIX_LEN + message_bytes(greeting(name)).len(),
{
    lemma_text_bound(request, Seq::empty(), request.len());
    lemma_greeting_len(name);
    lemma_message_len(greeting(name));
    lemma_be_bytes_len(message_bytes(greeting(name)).len(), 4);
}

/// The preface has 24 bytes.
pub proof fn lemma_preface_len()
    ensures
        preface().len() == 24,
{
    reveal_strlit("PRI * HTTP/2.0\r\n\r\nSM\r\n\r\n");
    vstd::utf8::is_ascii_chars_encode_utf8("PRI * HTTP/2.0\r\n\r\nSM\r\n\r\n"@);
}

/// One connection.
pub struct Client {
    buffer: bytes::BytesMut,
    established: bool,
    wqueue: VecDeque<Vec<u8>>,
    ping: u64,
    window_size: i32,
    decoder: hpack::Decoder<'static>,
}

impl View for Client {
    type V = ClientView;

    closed spec fn view(&self) -> ClientView {
        ClientView {
            buffer: buffered(self.buffer),
            established: self.established,
            session: Session {
                wqueue: self.wqueue@.map_values(|b: Vec<u8>| b@),
                ping: self.ping,
                window_size: self.window_size,
                seen: blocks_seen(self.decoder),
            },
        }
    }
}

/// The bytes of a text.
fn text_bytes(text: &str) -> (bytes: Vec<u8>)
    ensures
        bytes@ == encode_utf8(text@),
{
    slice_to_vec(text.as_bytes())
}

/// Compares two byte strings.
fn same_bytes(a: &Vec<u8>, b: &Vec<u8>) -> (same: bool)
    ensures
        same == (a@ == b@),
{
    if a.len() != b.len() {
        return false;
    }
    let len: usize = a.len();
    let mut i: usize = 0;
    while i < len
        invariant
            i <= len,
            len == a@.len(),
            len == b@.len(),
            forall|j: int| 0 <= j < i ==> a@[j] == b@[j],
        decreases len - i,
    {
        if a[i] != b[i] {
            return false;
        }
        i = i + 1;
    }
    assert(a@ =~= b@);
    true
}

/// The compressed headers in front of a reply.
fn encode_status() -> (block: Vec<u8>)
    ensures
        block@ == encoded(status_headers()),
        block@.len() < 0x100_0000,
{
    let mut headers: Vec<(Vec<u8>, Vec<u8>)> = Vec::new();
    headers.push((text_bytes(":status"), text_bytes("200")));
    headers.push((text_bytes("content-type"), text_bytes("application/grpc")));
    assert(header_list(headers@) =~= status_headers());
    proof {
        reveal_strlit(":status");
        vstd::utf8::is_ascii_chars_encode_utf8(":status"@);
        reveal_strlit("200");
        vstd::utf8::is_ascii_chars_encode_utf8("200"@);
        reveal_strlit("content-type");
        vstd::utf8::is_ascii_chars_encode_utf8("content-type"@);
        reveal_strlit("application/grpc");
        vstd::utf8::is_ascii_chars_encode_utf8("application/grpc"@);
        reveal_with_fuel(block_bound, 3);
    }
    encode(&headers)
}

/// The compressed headers behind a reply.
fn encode_trailers() -> (block: Vec<u8>)
    ensures
        block@ == encoded(trailers()),
        block@.len() < 0x100_0000,
{
    let mut headers: Vec<(Vec<u8>, Vec<u8>)> = Vec::new();
    headers.push((text_bytes("grpc-status"), text_bytes("0")));
    headers.push((text_bytes("grpc-message"), text_bytes("")));
    assert(header_list(headers@) =~= trailers());
    proof {
        reveal_strlit("grpc-status");
        vstd::utf8::is_ascii_chars_encode_utf8("grpc-status"@);
        reveal_strlit("0");
        vstd::utf8::is_ascii_chars_encode_utf8("0"@);
        reveal_strlit("grpc-message");
        vstd::utf8::is_ascii_chars_encode_utf8("grpc-message"@);
        reveal_strlit("");
        vstd::utf8::is_ascii_chars_encode_utf8(""@);
        reveal_with_fuel(block_bound, 3);
    }
    encode(&headers)
}

/// Puts a response together.
pub fn assemble(
    stream_id: u32,
    payload_len: u32,
    ping: u64,
    status: Vec<u8>,
    data: Vec<u8>,
    end: Vec<u8>,
) -> (out: Vec<u8>)
    ensures
        out@ == assembled(stream_id, payload_len as nat, ping, status@, data@, end@),
{
    let mut out: Vec<u8> = window_update_frame(payload_len);
    let mut ping: Vec<u8> = ping_frame(0, ping);
    out.append(&mut ping);
    let mut head: Vec<u8> = headers_frame(status, stream_id);
    out.append(&mut head);
    let mut body: Vec<u8> = data_frame(stream_id, data);
    out.append(&mut body);
    let mut tail: Vec<u8> = trailers_frame(end, stream_id);
    out.append(&mut tail);
    out
}

/// Checks what a header list asks for.
pub fn is_acceptable(headers: &Vec<(Vec<u8>, Vec<u8>)>) -> (ok: bool)
    ensures
        ok == acceptable(header_list(headers@)),
{
    let ghost list = header_list(headers@);
    let path: Vec<u8> = text_bytes(":path");
    let served: Vec<u8> = text_bytes("/helloworld.Greeter/SayHello");
    let len: usize = headers.len();
    let mut i: usize = 0;
    while i < len
        invariant
            i <= len,
            len == headers@.len(),
            list == header_list(headers@),
            path@ == encode_utf8(":path"@),
            served@ == served_path(),
            forall|j: int|
                0 <= j < i && list[j].0 == encode_utf8(":path"@) ==> list[j].1 == served_path(),
        decreases len - i,
    {
        let header = &headers[i];
        assert(list[i as int] == (header.0@, header.1@));
        if same_bytes(&header.0, &path) && !same_bytes(&header.1, &served) {
            return false;
        }
        i = i + 1;
    }
    true
}

impl Client {
    /// A new connection, which announces its frame size. Its pings count from `now`.
    pub fn new(now: u64) -> (client: Client)
        ensures
            client@ == (ClientView {
                buffer: Seq::empty(),
                established: false,
                session: Session {
                    wqueue: seq![
                        frame_bytes(
                            SETTINGS,
                            0,
                            0,
                            setting_bytes(MAX_FRAME_SIZE, OWN_MAX_FRAME_SIZE),
                        ),
                    ],
                    ping: now,
                    window_size: INITIAL_CONNECTION_WINDOW_SIZE,
                    seen: Seq::empty(),
                },
            }),
    {
        let mut client = Client {
            buffer: new_buffer(),
            established: false,
            wqueue: VecDeque::new(),
            ping: now,
            window_size: INITIAL_CONNECTION_WINDOW_SIZE,
            decoder: new_decoder(),
        };
        client.queue(settings_max_frame_size(OWN_MAX_FRAME_SIZE));
        client
    }

    /// Puts the bytes of a frame at the end of the queue.
    pub fn queue(&mut self, frame: Vec<u8>)
        ensures
            final(self)@ == (ClientView {
                session: old(self)@.session.queued(frame@),
                ..old(self)@
            }),
    {
        self.wqueue.push_back(frame);
        assert(self@.session.wqueue =~= old(self)@.session.wqueue.push(frame@));
    }

    /// Takes the first `size` bytes of what was received, if there are as many.
    pub fn consume(&mut self, size: usize) -> (front: Option<Vec<u8>>)
        ensures
            match front {
                None => old(self)@.buffer.len() < size && final(self)@ == old(self)@,
                Some(bytes) => size <= old(self)@.buffer.len() && bytes@
                    == old(self)@.buffer.take(size as int) && final(self)@ == (ClientView {
                    buffer: old(self)@.buffer.skip(size as int),
                    ..old(self)@
                }),
            },
    {
        if buffer_len(&self.buffer) < size {
            return None;
        }
        Some(split_front(&mut self.buffer, size))
    }

    /// Takes what is first in the queue, if it may be written.
    pub fn flush(&mut self) -> (action: Action)
        ensures
            flushed(old(self)@) == (final(self)@, action@),
    {
        match self.wqueue.pop_front() {
            None => Action::Done,
            Some(bytes) => {
                if self.window_size >= 0 && bytes.len() > self.window_size as usize {
                    self.wqueue.push_front(bytes);
                    assert(self@.session.wqueue =~= old(self)@.session.wqueue);
                    Action::WindowFull
                } else {
                    assert(self@.session.wqueue =~= old(self)@.session.wqueue.drop_first());
                    Action::Write(bytes)
                }
            },
        }
    }

    /// Answers a request.
    pub fn say_hello(&self, request: HelloRequest) -> (reply: HelloReply)
        ensures
            reply.message@ == greeting(request.name@),
    {
        let mut message: String = "Hello ".to_owned();
        message.append(request.name.as_str());
        HelloReply { message }
    }

    /// Tells why a DATA frame cannot be answered, if it cannot.
    pub fn data_fault(&self, frame: &DataFrame) -> (fault: Option<Fault>)
        requires
            frame.data@.len() < 0x100_0000,
        ensures
            on_data(self@.session, frame.stream_id, frame.data@, frame.payload_len as nat).1
                == match fault {
                None => None,
                Some(fault) => Some(Stop::Fault(fault)),
            },
    {
        let len: usize = frame.data.len();
        if len < GRPC_PREFIX_LEN {
            return Some(Fault::ShortData);
        }
        let bytes = slice_subrange(frame.data.as_slice(), GRPC_PREFIX_LEN, len);
        assert(bytes@ =~= frame.data@.skip(GRPC_PREFIX_LEN as int));
        match HelloRequest::from_reader(bytes) {
            None => Some(Fault::BadRequest),
            Some(request) => {
                proof {
                    lemma_reply_len(bytes@, request.name@);
                }
                if self.ping == u64::MAX {
                    return Some(Fault::PingOverflow);
                }
                let size: usize = self.say_hello(request).get_size();
                let left: i64 = self.window_size as i64 - GRPC_PREFIX_LEN as i64 - size as i64;
                if left < i32::MIN as i64 {
                    Some(Fault::WindowOverflow)
                } else {
                    None
                }
            },
        }
    }

    /// Works off a DATA frame: queues the response to the request in it. The frame holds the
    /// prefix of a gRPC message, which is not looked at, and a request. No frame holds more
    /// data than a length of three bytes can tell. Neither the ping counter nor the window
    /// may run over.
    pub fn handle_dataframe(&mut self, frame: DataFrame)
        requires
            GRPC_PREFIX_LEN <= frame.data@.len() < 0x100_0000,
            message_text(frame.data@.skip(GRPC_PREFIX_LEN as int), Seq::empty()) is Some,
            old(self)@.session.ping < u64::MAX,
            old(self)@.session.window_size - reply_data(requested(frame.data@)).len() >= i32::MIN,
        ensures
            final(self)@ == ({
                let c = old(self)@.session;
                let name = requested(frame.data@);
                ClientView {
                    session: Session {
                        wqueue: c.wqueue.push(
                            response(frame.stream_id, frame.payload_len as nat, c.ping, name),
                        ),
                        ping: (c.ping + 1) as u64,
                        window_size: (c.window_size - reply_data(name).len()) as i32,
                        seen: c.seen,
                    },
                    ..old(self)@
                }
            }),
            frame.stream_id != 0 && reply_data(requested(frame.data@)).len() < 0x100_0000
                ==> frames_in(final(self)@.session.wqueue.last()) == (
                response_frames(
                    frame.stream_id,
                    frame.payload_len as nat,
                    old(self)@.session.ping,
                    encoded(status_headers()),
                    reply_data(requested(frame.data@)),
                    encoded(trailers()),
                ),
                Seq::<u8>::empty(),
            ),
    {
        let ghost c = self@.session;
        let ghost name = requested(frame.data@);
        let len: usize = frame.data.len();
        let bytes = slice_subrange(frame.data.as_slice(), GRPC_PREFIX_LEN, len);
        assert(bytes@ =~= frame.data@.skip(GRPC_PREFIX_LEN as int));
        match HelloRequest::from_reader(bytes) {
            None => {},
            Some(request) => {
                proof {
                    lemma_reply_len(bytes@, name);
                }
                let reply = self.say_hello(request);
                let data = grpc_message(&reply);
                assert(data@ == reply_data(name));
                let left: i64 = self.window_size as i64 - data.len() as i64;
                let status = encode_status();
                let end = encode_trailers();
                proof {
                    if frame.stream_id != 0 && data@.len() < 0x100_0000 {
                        law_assembled_is_read_in_order(
                            frame.stream_id,
                            frame.payload_len,
                            c.ping,
                            status@,
                            data@,
                            end@,
                        );
                    }
                }
                let out = assemble(
                    frame.stream_id,
                    frame.payload_len,
                    self.ping,
                    status,
                    data,
                    end,
                );
                self.ping = self.ping + 1;
                self.window_size = left as i32;
                self.wqueue.push_back(out);
                assert(self@.session.wqueue =~= c.wqueue.push(out@));
            },
        }
    }

    /// Works off a HEADERS frame.
    fn handle_headers(&mut self, fragment: Vec<u8>) -> (r: Result<(), Stop>)
        ensures
            final(self)@.buffer == old(self)@.buffer,
            final(self)@.established == old(self)@.established,
            on_headers(old(self)@.session, fragment@) == (final(self)@.session, stop_of(r)),
    {
        if !is_well_framed(fragment.as_slice()) {
            return Err(Stop::Fault(Fault::BadHeaderBlock));
        }
        match decode(&mut self.decoder, &fragment) {
            Err(_) => Err(Stop::Fault(Fault::BadHeaderBlock)),
            Ok(headers) => if is_acceptable(&headers) {
                Ok(())
            } else {
                Err(Stop::Reject(Error::WrongHeaders))
            },
        }
    }

    /// Adds to the window.
    fn widen(&mut self, increment: u32) -> (r: Result<(), Stop>)
        requires
            increment < 0x8000_0000,
        ensures
            final(self)@.buffer == old(self)@.buffer,
            final(self)@.established == old(self)@.established,
            on_frame(
                old(self)@.session,
                FrameView::WindowUpdate { increment: increment as nat },
            ) == (final(self)@.session, stop_of(r)),
    {
        let wide: i64 = self.window_size as i64 + increment as i64;
        if wide > i32::MAX as i64 {
            return Err(Stop::Fault(Fault::WindowOverflow));
        }
        self.window_size = wide as i32;
        Ok(())
    }

    /// Works off the bytes of one frame.
    fn handle_frame(&mut self, raw: Vec<u8>) -> (r: Result<(), Stop>)
        requires
            raw@.len() >= FRAME_HEADER_LEN,
        ensures
            final(self)@.buffer == old(self)@.buffer,
            final(self)@.established == old(self)@.established,
            on_raw(old(self)@.session, raw@) == (final(self)@.session, stop_of(r)),
    {
        proof {
            lemma_be_value_bound(raw@.take(3));
            lemma_be_limits();
        }
        match HttpFrame::from_raw(raw) {
            Err(FrameError::Invalid) => Err(
                Stop::Reject(Error::WrongHttpFrame(HttpError::InvalidFrame)),
            ),
            Err(FrameError::ShortPriority) => Err(Stop::Fault(Fault::ShortPriority)),
            Ok(HttpFrame::Data(frame)) => match self.data_fault(&frame) {
                None => {
                    self.handle_dataframe(frame);
                    Ok(())
                },
                Some(fault) => Err(Stop::Fault(fault)),
            },
            Ok(HttpFrame::Headers { fragment }) => self.handle_headers(fragment),
            Ok(HttpFrame::Settings { ack }) => {
                if !ack {
                    self.queue(settings_ack());
                }
                Ok(())
            },
            Ok(HttpFrame::Ping { ack, opaque_data }) => {
                if !ack {
                    self.queue(ping_frame(ACK, opaque_data));
                }
                Ok(())
            },
            Ok(HttpFrame::WindowUpdate { increment }) => self.widen(increment),
            Ok(HttpFrame::RstStream) | Ok(HttpFrame::Goaway) | Ok(HttpFrame::Unknown(_)) => Ok(()),
        }
    }

    /// Takes the frame at the front of what was received, if it is there as a whole.
    fn next_frame(&mut self) -> (frame: Option<Vec<u8>>)
        ensures
            match frame {
                None => !has_frame(old(self)@.buffer) && final(self)@ == old(self)@,
                Some(raw) => has_frame(old(self)@.buffer) && raw@ == old(self)@.buffer.take(
                    front_len(old(self)@.buffer),
                ) && final(self)@ == (ClientView {
                    buffer: old(self)@.buffer.skip(front_len(old(self)@.buffer)),
                    ..old(self)@
                }),
            },
    {
        let b = &self.buffer;
        if buffer_len(b) < FRAME_HEADER_LEN {
            return None;
        }
        let header: [u8; 9] = [
            byte_at(b, 0),
            byte_at(b, 1),
            byte_at(b, 2),
            byte_at(b, 3),
            byte_at(b, 4),
            byte_at(b, 5),
            byte_at(b, 6),
            byte_at(b, 7),
            byte_at(b, 8),
        ];
        let fields: (u32, u8, u8, u32) = unpack_header(&header);
        proof {
            assert(header@.take(3) =~= self@.buffer.take(3));
            lemma_be_value_bound(self@.buffer.take(3));
            lemma_be_limits();
        }
        self.consume(FRAME_HEADER_LEN + fields.0 as usize)
    }

    /// Looks at all that was received.
    pub fn receive(&mut self) -> (progress: Progress)
        ensures
            received(old(self)@) == (final(self)@, progress),
    {
        let ghost before = self@;
        proof {
            lemma_preface_len();
        }
        if !self.established {
            let expected: Vec<u8> = text_bytes("PRI * HTTP/2.0\r\n\r\nSM\r\n\r\n");
            match self.consume(expected.len()) {
                Some(bytes) => {
                    if !same_bytes(&bytes, &expected) {
                        return Progress::Stopped(Stop::Reject(Error::WrongPreface));
                    }
                    self.established = true;
                },
                None => {
                    return Progress::Waiting;
                },
            }
        }
        let ghost start = self@;
        loop
            invariant
                before == old(self)@,
                self@.established,
                start.established,
                run(self@.buffer, self@.session) == run(start.buffer, start.session),
                ({
                    let (rest, session, stop) = run(start.buffer, start.session);
                    received(before) == (
                        ClientView { buffer: rest, established: true, session },
                        match stop {
                            None => Progress::Flush,
                            Some(s) => Progress::Stopped(s),
                        },
                    )
                }),
            ensures
                run(self@.buffer, self@.session) == (self@.buffer, self@.session, None::<Stop>),
            decreases self@.buffer.len(),
        {
            match self.next_frame() {
                None => {
                    break ;
                },
                Some(raw) => {
                    match self.handle_frame(raw) {
                        Ok(_) => {},
                        Err(stop) => {
                            return Progress::Stopped(stop);
                        },
                    }
                },
            }
        }
        Progress::Flush
    }

    /// Takes in what happened to the socket and says what to do with it next.
    pub fn handle(&mut self, event: Event) -> (next: Result<Action, Stop>)
        ensures
            on_event(old(self)@, event) == (
                final(self)@,
                match next {
                    Ok(action) => Ok(action@),
                    Err(stop) => Err(stop),
                },
            ),
    {
        match event {
            Event::Ready { readable, .. } => if readable {
                Ok(Action::Read)
            } else {
                Ok(self.flush())
            },
            Event::Received(bytes) => {
                if bytes.len() == 0 {
                    Err(Stop::Reject(Error::Disconnected(Cause::ReadZero)))
                } else {
                    append(&mut self.buffer, &bytes);
                    Ok(Action::Read)
                }
            },
            Event::WouldBlock => match self.receive() {
                Progress::Waiting => Ok(Action::Done),
                Progress::Flush => Ok(self.flush()),
                Progress::Stopped(stop) => Err(stop),
            },
            Event::ReadFailed(e) => Err(Stop::Reject(Error::Disconnected(Cause::Failed(e)))),
            Event::Written => Ok(self.flush()),
            Event::WriteFailed(bytes) => {
                self.wqueue.push_front(bytes);
                assert(self@.session.wqueue =~= seq![bytes@] + old(self)@.session.wqueue);
                Ok(Action::Done)
            },
        }
    }
}

} // verus!

//! The HTTP/2 frames that the greeter reads and writes.
//!
//! A frame is a nine-byte header (payload length, type, flags, stream) and a payload.
//! DATA, HEADERS and SETTINGS go through `solicit`; the other frames are laid out here.

use crate::bytes_be::{be_bytes, be_value, get_be, lemma_be_bytes_len, lemma_be_limits, law_value_of_bytes, put_be};
use solicit::http::connection::HttpFrame as SolicitFrame;
use solicit::http::frame::{DataFrame as SolicitData, Frame, HeadersFlag, HeadersFrame as SolicitHeaders, HttpSetting, RawFrame, SettingsFrame, unpack_header};
use solicit::http::HttpError as SolicitError;
use vstd::prelude::*;

verus! {

/// The length of a frame header.
pub const FRAME_HEADER_LEN: usize = 9;

pub const DATA: u8 = 0x0;

pub const HEADERS: u8 = 0x1;

pub const RST_STREAM: u8 = 0x3;

pub const SETTINGS: u8 = 0x4;

pub const PING: u8 = 0x6;

pub const GOAWAY: u8 = 0x7;

pub const WINDOW_UPDATE: u8 = 0x8;

pub const ACK: u8 = 0x1;

pub const END_STREAM: u8 = 0x1;

pub const END_HEADERS: u8 = 0x4;

pub const PADDED: u8 = 0x8;

pub const PRIORITY: u8 = 0x20;

/// The identifier of the `SETTINGS_MAX_FRAME_SIZE` setting.
pub const MAX_FRAME_SIZE: u16 = 0x5;

/// The bytes of a frame. A payload length that does not fit 24 bits loses its high bits.
pub open spec fn frame_bytes(kind: u8, flags: u8, stream_id: u32, payload: Seq<u8>) -> Seq<u8> {
    be_bytes(payload.len(), 3) + seq![kind, flags] + be_bytes(stream_id as nat, 4) + payload
}

/// The payload length that the header at the front of `raw` announces.
pub open spec fn announced_len(raw: Seq<u8>) -> nat {
    be_value(raw.take(3))
}

pub open spec fn frame_stream(raw: Seq<u8>) -> nat {
    be_value(raw.subrange(5, 9))
}

pub open spec fn frame_payload(raw: Seq<u8>) -> Seq<u8> {
    raw.skip(9)
}

/// What is left of a payload without its padding; `None` if the padding does not fit.
pub open spec fn unpadded(payload: Seq<u8>, padded: bool) -> Option<Seq<u8>> {
    if !padded {
        Some(payload)
    } else if payload.len() == 0 || payload[0] as int >= payload.len() {
        None
    } else {
        Some(payload.subrange(1, payload.len() - payload[0]))
    }
}

/// A DATA frame: what it carries and how long its payload was with the padding.
pub struct DataFrame {
    pub stream_id: u32,
    pub data: Vec<u8>,
    pub payload_len: u32,
}

/// A frame, as far as the greeter looks at it.
pub enum HttpFrame {
    Data(DataFrame),
    Headers { fragment: Vec<u8> },
    RstStream,
    Settings { ack: bool },
    Ping { ack: bool, opaque_data: u64 },
    Goaway,
    WindowUpdate { increment: u32 },
    Unknown(Vec<u8>),
}

/// The mathematical value of a frame.
pub enum FrameView {
    Data { stream_id: u32, data: Seq<u8>, payload_len: nat },
    Headers { fragment: Seq<u8> },
    RstStream,
    Settings { ack: bool },
    Ping { ack: bool, opaque_data: nat },
    Goaway,
    WindowUpdate { increment: nat },
    Unknown { raw: Seq<u8> },
}

impl View for HttpFrame {
    type V = FrameView;

    open spec fn view(&self) -> FrameView {
        match self {
            HttpFrame::Data(d) => FrameView::Data {
                stream_id: d.stream_id,
                data: d.data@,
                payload_len: d.payload_len as nat,
            },
            HttpFrame::Headers { fragment } => FrameView::Headers { fragment: fragment@ },
            HttpFrame::RstStream => FrameView::RstStream,
            HttpFrame::Settings { ack } => FrameView::Settings { ack: *ack },
            HttpFrame::Ping { ack, opaque_data } => FrameView::Ping {
                ack: *ack,
                opaque_data: *opaque_data as nat,
            },
            HttpFrame::Goaway => FrameView::Goaway,
            HttpFrame::WindowUpdate { increment } => FrameView::WindowUpdate {
                increment: *increment as nat,
            },
            HttpFrame::Unknown(raw) => FrameView::Unknown { raw: raw@ },
        }
    }
}

/// Why a frame cannot be read.
#[derive(PartialEq, Eq, Structural, Debug, Clone, Copy)]
pub enum FrameError {
    /// The frame breaks a rule of its type.
    Invalid,
    /// A HEADERS frame promises priority fields and is too short to hold them.
    ShortPriority,
}

/// Whether `raw` is a HEADERS frame, fine so far, whose priority fields are cut off.
pub open spec fn short_priority(raw: Seq<u8>) -> bool {
    &&& raw[3] == HEADERS
    &&& announced_len(raw) == frame_payload(raw).len()
    &&& frame_stream(raw) != 0
    &&& raw[4] & PRIORITY != 0
    &&& unpadded(frame_payload(raw), raw[4] & PADDED != 0) matches Some(actual)
    &&& actual.len() < 5
}

/// The DATA, HEADERS and SETTINGS frames; a frame of another type is kept as it is.
pub open spec fn typed_frame(raw: Seq<u8>) -> Option<FrameView> {
    let payload = frame_payload(raw);
    let sized = announced_len(raw) == payload.len();
    let stream = frame_stream(raw);
    if raw[3] == DATA {
        match unpadded(payload, raw[4] & PADDED != 0) {
            Some(data) if sized && stream != 0 => Some(
                FrameView::Data { stream_id: stream as u32, data, payload_len: payload.len() },
            ),
            _ => None,
        }
    } else if raw[3] == HEADERS {
        match unpadded(payload, raw[4] & PADDED != 0) {
            Some(actual) if sized && stream != 0 => Some(
                FrameView::Headers {
                    fragment: if raw[4] & PRIORITY != 0 {
                        actual.skip(5)
                    } else {
                        actual
                    },
                },
            ),
            _ => None,
        }
    } else if raw[3] == SETTINGS {
        let ack = raw[4] & ACK != 0;
        if sized && stream == 0 && (if ack {
            payload.len() == 0
        } else {
            payload.len() % 6 == 0
        }) {
            Some(FrameView::Settings { ack })
        } else {
            None
        }
    } else {
        Some(FrameView::Unknown { raw })
    }
}

/// The frames whose payload has a fixed layout; a frame of another type is kept as it is.
pub open spec fn control_frame(raw: Seq<u8>) -> Option<FrameView> {
    let payload = frame_payload(raw);
    let sized = announced_len(raw) == payload.len();
    let stream = frame_stream(raw);
    if raw[3] == RST_STREAM {
        if sized && payload.len() == 4 && stream != 0 {
            Some(FrameView::RstStream)
        } else {
            None
        }
    } else if raw[3] == PING {
        if sized && payload.len() == 8 && stream == 0 {
            Some(FrameView::Ping { ack: raw[4] & ACK != 0, opaque_data: be_value(payload) })
        } else {
            None
        }
    } else if raw[3] == GOAWAY {
        if sized && payload.len() >= 8 && stream == 0 {
            Some(FrameView::Goaway)
        } else {
            None
        }
    } else if raw[3] == WINDOW_UPDATE {
        if sized && payload.len() == 4 {
            Some(FrameView::WindowUpdate { increment: be_value(payload) % 0x8000_0000 })
        } else {
            None
        }
    } else {
        Some(FrameView::Unknown { raw })
    }
}

/// What the bytes of a frame mean.
pub open spec fn parse_frame(raw: Seq<u8>) -> Result<FrameView, FrameError> {
    if short_priority(raw) {
        Err(FrameError::ShortPriority)
    } else {
        match typed_frame(raw) {
            None => Err(FrameError::Invalid),
            Some(FrameView::Unknown { raw }) => match control_frame(raw) {
                None => Err(FrameError::Invalid),
                Some(frame) => Ok(frame),
            },
            Some(frame) => Ok(frame),
        }
    }
}

/// The error of `solicit`, which is only carried.
#[verifier::external_type_specification]
#[verifier::external_body]
pub struct ExHttpError(SolicitError);

/// `solicit::http::frame::unpack_header`: the length, the type, the flags and the stream of
/// a frame header.
pub assume_specification[ unpack_header ](header: &[u8; 9]) -> (fields: (u32, u8, u8, u32))
    ensures
        fields.0 == be_value(header@.take(3)),
        fields.1 == header@[3],
        fields.2 == header@[4],
        fields.3 == be_value(header@.subrange(5, 9)),
;

/// `solicit::http::connection::HttpFrame::from_raw`: the frame that the bytes hold, with
/// every type but DATA, HEADERS and SETTINGS handed back unread. It slices past the end of
/// a HEADERS payload that is too short for its priority fields, and it reads nine header
/// bytes, so such input is left out.
#[verifier::external_body]
fn solicit_frame(raw: Vec<u8>) -> (frame: Result<HttpFrame, SolicitError>)
    requires
        raw@.len() >= 9,
        !short_priority(raw@),
    ensures
        match frame {
            Ok(f) => typed_frame(raw@) == Some(f@),
            Err(_) => typed_frame(raw@) is None,
        },
{
    Ok(match SolicitFrame::from_raw(RawFrame::from(raw))? {
        SolicitFrame::DataFrame(f) => HttpFrame::Data(DataFrame {
            stream_id: f.get_stream_id(),
            payload_len: f.get_header().0,
            data: f.data,
        }),
        SolicitFrame::HeadersFrame(f) => HttpFrame::Headers { fragment: f.header_fragment },
        SolicitFrame::SettingsFrame(f) => HttpFrame::Settings { ack: f.is_ack() },
        SolicitFrame::UnknownFrame(f) => HttpFrame::Unknown(f.into()),
    })
}

/// Tells whether `solicit` would run past the end of the frame.
fn has_short_priority(raw: &Vec<u8>) -> (short: bool)
    requires
        raw.len() >= 9,
    ensures
        short == short_priority(raw@),
{
    let len: usize = raw.len() - 9;
    let announced: u64 = get_be(raw, 0, 3);
    let stream: u64 = get_be(raw, 5, 4);
    assert(raw@.subrange(0, 3) =~= raw@.take(3));
    if raw[3] != HEADERS || announced != len as u64 || stream == 0 || raw[4] & PRIORITY == 0 {
        return false;
    }
    if raw[4] & PADDED == 0 {
        len < 5
    } else if len == 0 {
        false
    } else {
        assert(frame_payload(raw@)[0] == raw@[9]);
        let pad: usize = raw[9] as usize;
        pad < len && len - 1 - pad < 5
    }
}

/// Reads a frame with a payload of fixed layout.
fn read_control(raw: Vec<u8>) -> (frame: Option<HttpFrame>)
    requires
        raw.len() >= 9,
    ensures
        match frame {
            Some(f) => control_frame(raw@) == Some(f@),
            None => control_frame(raw@) is None,
        },
{
    let len: usize = raw.len() - 9;
    let announced: u64 = get_be(&raw, 0, 3);
    let stream: u64 = get_be(&raw, 5, 4);
    let kind: u8 = raw[3];
    let flags: u8 = raw[4];
    assert(raw@.subrange(0, 3) =~= raw@.take(3));
    let sized: bool = announced == len as u64;
    if kind == RST_STREAM {
        if sized && len == 4 && stream != 0 {
            Some(HttpFrame::RstStream)
        } else {
            None
        }
    } else if kind == PING {
        if sized && len == 8 && stream == 0 {
            assert(raw@.subrange(9, 17) =~= frame_payload(raw@));
            Some(HttpFrame::Ping { ack: flags & ACK != 0, opaque_data: get_be(&raw, 9, 8) })
        } else {
            None
        }
    } else if kind == GOAWAY {
        if sized && len >= 8 && stream == 0 {
            Some(HttpFrame::Goaway)
        } else {
            None
        }
    } else if kind == WINDOW_UPDATE {
        if sized && len == 4 {
            assert(raw@.subrange(9, 13) =~= frame_payload(raw@));
            let value: u64 = get_be(&raw, 9, 4);
            let increment: u32 = (value % 0x8000_0000) as u32;
            Some(HttpFrame::WindowUpdate { increment })
        } else {
            None
        }
    } else {
        Some(HttpFrame::Unknown(raw))
    }
}

impl HttpFrame {
    /// Reads a whole frame, header and payload.
    pub fn from_raw(raw: Vec<u8>) -> (frame: Result<HttpFrame, FrameError>)
        requires
            raw@.len() >= 9,
        ensures
            match frame {
                Ok(f) => parse_frame(raw@) == Ok::<FrameView, FrameError>(f@),
                Err(e) => parse_frame(raw@) == Err::<FrameView, FrameError>(e),
            },
    {
        if has_short_priority(&raw) {
            return Err(FrameError::ShortPriority);
        }
        match solicit_frame(raw) {
            Err(_) => Err(FrameError::Invalid),
            Ok(HttpFrame::Unknown(raw)) => match read_control(raw) {
                None => Err(FrameError::Invalid),
                Some(frame) => Ok(frame),
            },
            Ok(frame) => Ok(frame),
        }
    }
}

/// The payload of a SETTINGS frame with one setting.
pub open spec fn setting_bytes(id: u16, value: u32) -> Seq<u8> {
    be_bytes(id as nat, 2) + be_bytes(value as nat, 4)
}

/// `solicit::http::frame::SettingsFrame::new_ack`, serialized: an empty SETTINGS frame with
/// the ACK flag.
#[verifier::external_body]
pub(crate) fn settings_ack() -> (raw: Vec<u8>)
    ensures
        raw@ == frame_bytes(SETTINGS, ACK, 0, Seq::empty()),
{
    SettingsFrame::new_ack().serialize()
}

/// `solicit::http::frame::SettingsFrame::add_setting` on a new frame, serialized: a SETTINGS
/// frame that holds `SETTINGS_MAX_FRAME_SIZE` alone.
#[verifier::external_body]
pub(crate) fn settings_max_frame_size(value: u32) -> (raw: Vec<u8>)
    ensures
        raw@ == frame_bytes(SETTINGS, 0, 0, setting_bytes(MAX_FRAME_SIZE, value)),
{
    let mut frame = SettingsFrame::new();
    frame.add_setting(HttpSetting::MaxFrameSize(value));
    frame.serialize()
}

/// `solicit::http::frame::HeadersFrame` with the END_HEADERS flag, serialized: the fragment
/// behind a header, without padding or priority.
#[verifier::external_body]
pub(crate) fn headers_frame(fragment: Vec<u8>, stream_id: u32) -> (raw: Vec<u8>)
    ensures
        raw@ == frame_bytes(HEADERS, END_HEADERS, stream_id, fragment@),
{
    let mut frame = SolicitHeaders::new(fragment, stream_id);
    frame.set_flag(HeadersFlag::EndHeaders);
    frame.serialize()
}

/// `solicit::http::frame::HeadersFrame` with the END_HEADERS and END_STREAM flags,
/// serialized: the fragment behind a header, without padding or priority.
#[verifier::external_body]
pub(crate) fn trailers_frame(fragment: Vec<u8>, stream_id: u32) -> (raw: Vec<u8>)
    ensures
        raw@ == frame_bytes(HEADERS, END_HEADERS | END_STREAM, stream_id, fragment@),
{
    let mut frame = SolicitHeaders::new(fragment, stream_id);
    frame.set_flag(HeadersFlag::EndHeaders);
    frame.set_flag(HeadersFlag::EndStream);
    frame.serialize()
}

/// `solicit::http::frame::DataFrame` without flags, serialized: the data behind a header.
#[verifier::external_body]
pub(crate) fn data_frame(stream_id: u32, data: Vec<u8>) -> (raw: Vec<u8>)
    ensures
        raw@ == frame_bytes(DATA, 0, stream_id, data@),
{
    let mut frame = SolicitData::new(stream_id);
    frame.data = data;
    frame.serialize()
}

/// `solicit::http::frame::RawFrame::with_payload`, serialized: the header fields, packed, and
/// then the payload, whatever the length field says.
#[verifier::external_body]
fn raw_frame(header: (u32, u8, u8, u32), payload: Vec<u8>) -> (raw: Vec<u8>)
    ensures
        raw@ == be_bytes(header.0 as nat, 3) + seq![header.1, header.2] + be_bytes(
            header.3 as nat,
            4,
        ) + payload@,
{
    RawFrame::with_payload(header, payload).serialize()
}

/// A PING frame, with `flags` and eight bytes of data.
pub fn ping_frame(flags: u8, opaque_data: u64) -> (raw: Vec<u8>)
    ensures
        raw@ == frame_bytes(PING, flags, 0, be_bytes(opaque_data as nat, 8)),
{
    let mut payload: Vec<u8> = Vec::new();
    put_be(&mut payload, opaque_data, 8);
    proof {
        lemma_be_bytes_len(opaque_data as nat, 8);
        assert(payload@ =~= be_bytes(opaque_data as nat, 8));
    }
    raw_frame((8, PING, flags, 0), payload)
}

/// A WINDOW_UPDATE frame for the whole connection.
pub fn window_update_frame(increment: u32) -> (raw: Vec<u8>)
    ensures
        raw@ == frame_bytes(WINDOW_UPDATE, 0, 0, be_bytes(increment as nat, 4)),
{
    let mut payload: Vec<u8> = Vec::new();
    put_be(&mut payload, increment as u64, 4);
    proof {
        lemma_be_bytes_len(increment as nat, 4);
        assert(payload@ =~= be_bytes(increment as nat, 4));
    }
    raw_frame((4, WINDOW_UPDATE, 0, 0), payload)
}

/// The fields of a frame can be read back from its bytes, if the payload length fits.
pub proof fn law_frame_fields(kind: u8, flags: u8, stream_id: u32, payload: Seq<u8>)
    requires
        payload.len() < 0x100_0000,
    ensures
        ({
            let raw = frame_bytes(kind, flags, stream_id, payload);
            &&& raw.len() == 9 + payload.len()
            &&& announced_len(raw) == payload.len()
            &&& raw[3] == kind
            &&& raw[4] == flags
            &&& frame_stream(raw) == stream_id
            &&& frame_payload(raw) == payload
        }),
{
    let raw = frame_bytes(kind, flags, stream_id, payload);
    lemma_be_bytes_len(payload.len(), 3);
    lemma_be_bytes_len(stream_id as nat, 4);
    lemma_be_limits();
    law_value_of_bytes(payload.len(), 3);
    law_value_of_bytes(stream_id as nat, 4);
    assert(raw.take(3) =~= be_bytes(payload.len(), 3));
    assert(raw.subrange(5, 9) =~= be_bytes(stream_id as nat, 4));
    assert(frame_payload(raw) =~= payload);
}

/// A PING frame is read as the PING frame that was written.
pub proof fn law_ping_is_read_back(flags: u8, opaque_data: u64)
    ensures
        parse_frame(frame_bytes(PING, flags, 0, be_bytes(opaque_data as nat, 8))) == Ok::<
            FrameView,
            FrameError,
        >(FrameView::Ping { ack: flags & ACK != 0, opaque_data: opaque_data as nat }),
{
    lemma_be_bytes_len(opaque_data as nat, 8);
    lemma_be_limits();
    law_value_of_bytes(opaque_data as nat, 8);
    law_frame_fields(PING, flags, 0, be_bytes(opaque_data as nat, 8));
}

/// A WINDOW_UPDATE frame is read as the increment that was written, without its top bit,
/// whatever its stream and its flags.
pub proof fn law_window_update_is_read_back(flags: u8, stream_id: u32, increment: u32)
    ensures
        parse_frame(frame_bytes(WINDOW_UPDATE, flags, stream_id, be_bytes(increment as nat, 4)))
            == Ok::<FrameView, FrameError>(
            FrameView::WindowUpdate { increment: increment as nat % 0x8000_0000 },
        ),
{
    lemma_be_bytes_len(increment as nat, 4);
    lemma_be_limits();
    law_value_of_bytes(increment as nat, 4);
    law_frame_fields(WINDOW_UPDATE, flags, stream_id, be_bytes(increment as nat, 4));
}

/// Padding, whatever it holds, is cut off with its length.
pub proof fn law_padding_is_cut_off(data: Seq<u8>, padding: Seq<u8>)
    requires
        padding.len() < 256,
    ensures
        unpadded(seq![padding.len() as u8] + data + padding, true) == Some(data),
        unpadded(data, false) == Some(data),
{
    let payload = seq![padding.len() as u8] + data + padding;
    assert(payload.subrange(1, payload.len() - payload[0]) =~= data);
}

/// A DATA frame is read as the data that was written, without its padding, whatever its other
/// flags.
pub proof fn law_data_is_read_back(flags: u8, stream_id: u32, payload: Seq<u8>, data: Seq<u8>)
    requires
        stream_id != 0,
        payload.len() < 0x100_0000,
        unpadded(payload, flags & PADDED != 0) == Some(data),
    ensures
        parse_frame(frame_bytes(DATA, flags, stream_id, payload)) == Ok::<FrameView, FrameError>(
            FrameView::Data { stream_id, data, payload_len: payload.len() },
        ),
{
    law_frame_fields(DATA, flags, stream_id, payload);
}

/// A HEADERS frame is read as the fragment that was written, without its padding and its
/// priority fields, whatever its other flags.
pub proof fn law_headers_are_read_back(
    flags: u8,
    stream_id: u32,
    payload: Seq<u8>,
    actual: Seq<u8>,
)
    requires
        stream_id != 0,
        payload.len() < 0x100_0000,
        unpadded(payload, flags & PADDED != 0) == Some(actual),
        flags & PRIORITY != 0 ==> actual.len() >= 5,
    ensures
        parse_frame(frame_bytes(HEADERS, flags, stream_id, payload)) == Ok::<
            FrameView,
            FrameError,
        >(
            FrameView::Headers {
                fragment: if flags & PRIORITY != 0 {
                    actual.skip(5)
                } else {
                    actual
                },
            },
        ),
{
    law_frame_fields(HEADERS, flags, stream_id, payload);
}

/// A SETTINGS frame with any number of settings, none included, is read as one, and so is an
/// acknowledgement, which holds none.
pub proof fn law_settings_are_read_back(flags: u8, payload: Seq<u8>)
    requires
        payload.len() < 0x100_0000,
        payload.len() % 6 == 0,
        flags & ACK != 0 ==> payload.len() == 0,
    ensures
        parse_frame(frame_bytes(SETTINGS, flags, 0, payload)) == Ok::<FrameView, FrameError>(
            FrameView::Settings { ack: flags & ACK != 0 },
        ),
{
    law_frame_fields(SETTINGS, flags, 0, payload);
}

} // verus!

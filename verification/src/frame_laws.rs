//! What the bytes of a frame are, and what they mean.

use crate::bytes_be::{be_bytes, be_value, law_bytes_of_value, lemma_be_limits};
use crate::wire::{announced_len, frame_bytes, law_frame_fields, parse_frame, setting_bytes, unpadded, FrameError, FrameView, HttpFrame};
use vstd::prelude::*;

verus! {

/// Four bytes are the four digits of a number below the fourth power of 256.
proof fn lemma_four_bytes(v: u32)
    ensures
        ({
            let b = be_bytes(v as nat, 4);
            &&& b.len() == 4
            &&& b[0] * 0x100_0000 + b[1] * 0x1_0000 + b[2] * 0x100 + b[3] == v
        }),
{
    reveal_with_fuel(be_bytes, 5);
}

/// The same of three bytes.
proof fn lemma_three_bytes(v: nat)
    ensures
        ({
            let b = be_bytes(v, 3);
            &&& b.len() == 3
            &&& b[0] * 0x1_0000 + b[1] * 0x100 + b[2] == v % 0x100_0000
        }),
{
    reveal_with_fuel(be_bytes, 4);
}

/// A frame is its length in three bytes, its type, its flags, its stream in four bytes, and
/// its payload. Of a length that does not fit the high part is lost.
pub proof fn law_frame_layout(kind: u8, flags: u8, stream_id: u32, payload: Seq<u8>)
    ensures
        ({
            let raw = frame_bytes(kind, flags, stream_id, payload);
            &&& raw.len() == 9 + payload.len()
            &&& raw[0] * 0x1_0000 + raw[1] * 0x100 + raw[2] == payload.len() % 0x100_0000
            &&& raw[3] == kind
            &&& raw[4] == flags
            &&& raw[5] * 0x100_0000 + raw[6] * 0x1_0000 + raw[7] * 0x100 + raw[8] == stream_id
            &&& raw.skip(9) == payload
        }),
{
    lemma_three_bytes(payload.len());
    lemma_four_bytes(stream_id);
    assert(frame_bytes(kind, flags, stream_id, payload).skip(9) =~= payload);
}

/// Equal numbers have equal bytes.
proof fn lemma_same_bytes(a: u8, b: u8, c: u8, d: u8, e: u8, f: u8, g: u8, h: u8)
    requires
        a * 0x100_0000 + b * 0x1_0000 + c * 0x100 + d == e * 0x100_0000 + f * 0x1_0000 + g * 0x100
            + h,
    ensures
        a == e,
        b == f,
        c == g,
        d == h,
{
}

/// Whatever starts with its own length is a frame: the bytes are those of its type, its
/// flags, its stream and its payload.
pub proof fn law_whole_bytes_are_a_frame(raw: Seq<u8>, stream_id: u32)
    requires
        raw.len() >= 9,
        raw[0] * 0x1_0000 + raw[1] * 0x100 + raw[2] == raw.len() - 9,
        raw[5] * 0x100_0000 + raw[6] * 0x1_0000 + raw[7] * 0x100 + raw[8] == stream_id,
    ensures
        raw == frame_bytes(raw[3], raw[4], stream_id, raw.skip(9)),
{
    let payload = raw.skip(9);
    let made = frame_bytes(raw[3], raw[4], stream_id, payload);
    law_frame_layout(raw[3], raw[4], stream_id, payload);
    lemma_same_bytes(0, raw[0], raw[1], raw[2], 0, made[0], made[1], made[2]);
    lemma_same_bytes(raw[5], raw[6], raw[7], raw[8], made[5], made[6], made[7], made[8]);
    assert forall|i: int| 0 <= i < raw.len() implies raw[i] == made[i] by {
        if i >= 9 {
            assert(raw[i] == payload[i - 9]);
            assert(made[i] == made.skip(9)[i - 9]);
        }
    }
    assert(raw =~= made);
}

/// Padding that leaves no room for its own length is refused; any other is cut off.
pub proof fn law_padding(payload: Seq<u8>)
    ensures
        unpadded(payload, false) == Some(payload),
        unpadded(payload, true) is None <==> payload.len() == 0 || payload[0] >= payload.len(),
        unpadded(payload, true) matches Some(data) ==> data.len() == payload.len() - 1 - payload[0]
            && forall|i: int| 0 <= i < data.len() ==> data[i] == payload[i + 1],
{
}

/// Whether padding is announced that does not fit.
pub open spec fn bad_padding(flags: u8, payload: Seq<u8>) -> bool {
    flags & 0x8u8 != 0 && (payload.len() == 0 || payload[0] >= payload.len())
}

/// The rules of HTTP/2 for the length and the stream of a frame, by type.
pub open spec fn breaks_rules(kind: u8, flags: u8, stream_id: u32, payload: Seq<u8>) -> bool {
    ||| (kind == 0 || kind == 1) && (stream_id == 0 || bad_padding(flags, payload))
    ||| kind == 3 && (stream_id == 0 || payload.len() != 4)
    ||| kind == 4 && (stream_id != 0 || payload.len() % 6 != 0)
    ||| kind == 4 && flags & 0x1u8 != 0 && payload.len() != 0
    ||| kind == 6 && (stream_id != 0 || payload.len() != 8)
    ||| kind == 7 && (stream_id != 0 || payload.len() < 8)
    ||| kind == 8 && payload.len() != 4
}

/// A frame is invalid exactly if it breaks a rule of its type.
pub proof fn law_invalid_frames(kind: u8, flags: u8, stream_id: u32, payload: Seq<u8>)
    requires
        payload.len() < 0x100_0000,
    ensures
        parse_frame(frame_bytes(kind, flags, stream_id, payload)) == Err::<FrameView, FrameError>(
            FrameError::Invalid,
        ) <==> breaks_rules(kind, flags, stream_id, payload),
{
    law_frame_fields(kind, flags, stream_id, payload);
}

/// A HEADERS frame is too short exactly if it announces priority fields and has less than
/// five bytes besides its padding.
pub proof fn law_short_priority(kind: u8, flags: u8, stream_id: u32, payload: Seq<u8>)
    requires
        payload.len() < 0x100_0000,
    ensures
        parse_frame(frame_bytes(kind, flags, stream_id, payload)) == Err::<FrameView, FrameError>(
            FrameError::ShortPriority,
        ) <==> {
            &&& kind == 1
            &&& !breaks_rules(kind, flags, stream_id, payload)
            &&& flags & 0x20u8 != 0
            &&& (if flags & 0x8u8 != 0 {
                payload.len() - 1 - payload[0]
            } else {
                payload.len() as int
            }) < 5
        },
{
    law_frame_fields(kind, flags, stream_id, payload);
}

/// A frame that can be read has the type that was written, and holds what was written.
pub proof fn law_valid_frames(kind: u8, flags: u8, stream_id: u32, payload: Seq<u8>)
    requires
        payload.len() < 0x100_0000,
    ensures
        match parse_frame(frame_bytes(kind, flags, stream_id, payload)) {
            Err(_) => true,
            Ok(FrameView::Data { stream_id: on, data, payload_len }) => {
                &&& kind == 0
                &&& on == stream_id
                &&& payload_len == payload.len()
                &&& data == if flags & 0x8u8 != 0 {
                    payload.subrange(1, payload.len() - payload[0])
                } else {
                    payload
                }
            },
            Ok(FrameView::Headers { fragment }) => {
                let from = (if flags & 0x8u8 != 0 { 1int } else { 0 }) + (if flags & 0x20u8 != 0 {
                    5int
                } else {
                    0
                });
                let to = payload.len() - if flags & 0x8u8 != 0 { payload[0] as int } else { 0 };
                kind == 1 && fragment == payload.subrange(from, to)
            },
            Ok(FrameView::RstStream) => kind == 3,
            Ok(FrameView::Settings { ack }) => kind == 4 && ack == (flags & 0x1u8 != 0),
            Ok(FrameView::Ping { ack, opaque_data }) => {
                &&& kind == 6
                &&& ack == (flags & 0x1u8 != 0)
                &&& opaque_data < 0x1_0000_0000_0000_0000
                &&& be_bytes(opaque_data, 8) == payload
            },
            Ok(FrameView::Goaway) => kind == 7,
            Ok(FrameView::WindowUpdate { increment }) => {
                &&& kind == 8
                &&& increment < 0x8000_0000
                &&& be_bytes(increment, 4) == payload || be_bytes(
                    increment + 0x8000_0000,
                    4,
                ) == payload
            },
            Ok(FrameView::Unknown { raw }) => {
                &&& raw == frame_bytes(kind, flags, stream_id, payload)
                &&& kind == 2 || kind == 5 || kind >= 9
            },
        },
{
    law_frame_fields(kind, flags, stream_id, payload);
    law_bytes_of_value(payload);
    crate::bytes_be::lemma_be_value_bound(payload);
    lemma_be_limits();
    if kind == 1 && flags & 0x8u8 != 0 && !breaks_rules(kind, flags, stream_id, payload) {
        let inner = payload.subrange(1, payload.len() - payload[0]);
        assert(inner.len() >= 5 ==> inner.skip(5) =~= payload.subrange(
            6,
            payload.len() - payload[0],
        ));
    } else if kind == 1 {
        assert(payload.subrange(0, payload.len() as int) =~= payload);
        assert(payload.len() >= 5 ==> payload.skip(5) =~= payload.subrange(
            5,
            payload.len() as int,
        ));
    }
}

/// A frame that does not have the length that it announces is invalid, unless its type is not
/// served: such a frame is kept as it is.
pub proof fn law_missized_frames(raw: Seq<u8>)
    requires
        raw.len() >= 9,
        raw[0] * 0x1_0000 + raw[1] * 0x100 + raw[2] != raw.len() - 9,
    ensures
        parse_frame(raw) == if raw[3] == 0 || raw[3] == 1 || raw[3] == 3 || raw[3] == 4 || raw[3]
            == 6 || raw[3] == 7 || raw[3] == 8 {
            Err::<FrameView, FrameError>(FrameError::Invalid)
        } else {
            Ok(FrameView::Unknown { raw })
        },
{
    lemma_announced(raw);
}

/// The length that a frame announces is in its first three bytes.
pub proof fn lemma_announced(raw: Seq<u8>)
    requires
        raw.len() >= 9,
    ensures
        announced_len(raw) == raw[0] * 0x1_0000 + raw[1] * 0x100 + raw[2],
{
    let t = raw.take(3);
    let u = t.drop_last();
    let w = u.drop_last();
    assert(w.drop_last() =~= Seq::empty());
    assert(t.last() == raw[2]);
    assert(u.last() == raw[1]);
    assert(w.last() == raw[0]);
    reveal_with_fuel(be_value, 4);
}

/// A setting is its identifier in two bytes and its value in four.
pub proof fn law_setting_layout(id: u16, value: u32)
    ensures
        ({
            let s = setting_bytes(id, value);
            &&& s.len() == 6
            &&& s[0] * 0x100 + s[1] == id
            &&& s[2] * 0x100_0000 + s[3] * 0x1_0000 + s[4] * 0x100 + s[5] == value
        }),
{
    lemma_four_bytes(value);
    reveal_with_fuel(be_bytes, 3);
}

/// The value of a frame is the frame.
pub proof fn law_values_of_frames(frame: HttpFrame)
    ensures
        match frame {
            HttpFrame::Data(d) => frame@ == (FrameView::Data {
                stream_id: d.stream_id,
                data: d.data@,
                payload_len: d.payload_len as nat,
            }),
            HttpFrame::Headers { fragment } => frame@ == (FrameView::Headers {
                fragment: fragment@,
            }),
            HttpFrame::RstStream => frame@ is RstStream,
            HttpFrame::Settings { ack } => frame@ == (FrameView::Settings { ack }),
            HttpFrame::Ping { ack, opaque_data } => frame@ == (FrameView::Ping {
                ack,
                opaque_data: opaque_data as nat,
            }),
            HttpFrame::Goaway => frame@ is Goaway,
            HttpFrame::WindowUpdate { increment } => frame@ == (FrameView::WindowUpdate {
                increment: increment as nat,
            }),
            HttpFrame::Unknown(raw) => frame@ == (FrameView::Unknown { raw: raw@ }),
        },
{
}

} // verus!

//! The protocol buffers encoding, as far as a message with one string field needs it.

use quick_protobuf::sizeofs::sizeof_len;
use quick_protobuf::{BytesReader, Error as ProtobufError, Writer};
use vstd::prelude::*;
use vstd::slice::slice_subrange;
use vstd::utf8::{decode_utf8, encode_utf8, valid_utf8};

verus! {

/// The longest variable-length integer.
pub const VARINT_LEN: usize = 10;

/// The tag of field 1 with a length-delimited value.
pub const TEXT_TAG: u32 = 10;

/// The variable-length integer at the front of `s`, in at most `room` bytes: its value and
/// its number of bytes.
pub open spec fn varint_in(s: Seq<u8>, room: nat) -> Option<(nat, nat)>
    decreases room,
{
    if room == 0 || s.len() == 0 {
        None
    } else if s[0] < 128 {
        Some((s[0] as nat, 1))
    } else {
        match varint_in(s.skip(1), (room - 1) as nat) {
            None => None,
            Some((high, n)) => Some(((s[0] % 128) as nat + 128 * high, n + 1)),
        }
    }
}

pub open spec fn varint(s: Seq<u8>) -> Option<(nat, nat)> {
    varint_in(s, VARINT_LEN as nat)
}

/// The bytes of a variable-length integer.
pub open spec fn varint_bytes(v: nat) -> Seq<u8>
    decreases v,
{
    if v > 127 {
        seq![(v % 128 + 128) as u8] + varint_bytes(v / 128)
    } else {
        seq![v as u8]
    }
}

/// The length-delimited text at the front of `s`, and the number of bytes it takes with its
/// length. The length keeps its low 32 bits.
pub open spec fn text_in(s: Seq<u8>) -> Option<(Seq<char>, nat)> {
    match varint(s) {
        None => None,
        Some((v, n)) => {
            let end = n + v % 0x1_0000_0000;
            if end <= s.len() && valid_utf8(s.subrange(n as int, end as int)) {
                Some((decode_utf8(s.subrange(n as int, end as int)), end))
            } else {
                None
            }
        },
    }
}

/// The number of bytes of a value of the wire type of `tag` at the front of `s`.
pub open spec fn value_len(s: Seq<u8>, tag: nat) -> Option<nat> {
    if tag % 8 == 0 {
        match varint(s) {
            None => None,
            Some((_, n)) => Some(n),
        }
    } else if tag % 8 == 1 {
        if s.len() >= 8 {
            Some(8)
        } else {
            None
        }
    } else if tag % 8 == 2 {
        match varint(s) {
            None => None,
            Some((v, n)) => {
                let end = n + v % 0x1_0000_0000_0000_0000;
                if end <= s.len() {
                    Some(end)
                } else {
                    None
                }
            },
        }
    } else if tag % 8 == 5 {
        if s.len() >= 4 {
            Some(4)
        } else {
            None
        }
    } else {
        None
    }
}

/// The field at the front of `s`, if the fields before it left the text at `text`: the text
/// behind it, and the number of bytes it takes. A text field overrides an earlier one, a
/// field of another number is passed over.
pub open spec fn field_in(s: Seq<u8>, text: Seq<char>) -> Option<(Seq<char>, nat)> {
    match varint(s) {
        None => None,
        Some((v, n)) => {
            let tag = v % 0x1_0000_0000;
            let value = s.skip(n as int);
            if tag == TEXT_TAG {
                match text_in(value) {
                    None => None,
                    Some((t, m)) => Some((t, n + m)),
                }
            } else {
                match value_len(value, tag) {
                    None => None,
                    Some(m) => Some((text, n + m)),
                }
            }
        },
    }
}

/// The text field of the message `s`, if the fields before it left it at `text`.
pub open spec fn message_text(s: Seq<u8>, text: Seq<char>) -> Option<Seq<char>>
    decreases s.len(),
{
    if s.len() == 0 {
        Some(text)
    } else {
        match field_in(s, text) {
            Some((t, n)) if 0 < n <= s.len() => message_text(s.skip(n as int), t),
            _ => None,
        }
    }
}

/// The bytes of a message whose text field is `text`. An empty field is left out.
pub open spec fn message_bytes(text: Seq<char>) -> Seq<u8> {
    let bytes = encode_utf8(text);
    if bytes.len() == 0 {
        Seq::empty()
    } else {
        varint_bytes(TEXT_TAG as nat) + varint_bytes(bytes.len()) + bytes
    }
}

/// The error of `quick_protobuf`, which is only carried.
#[verifier::external_type_specification]
#[verifier::external_body]
pub struct ExProtobufError(ProtobufError);

/// `quick_protobuf::BytesReader::next_tag` on a new reader: the low 32 bits of the
/// variable-length integer at the front, and how many bytes are left behind it.
#[verifier::external_body]
fn next_tag(s: &[u8]) -> (r: Result<(u32, usize), ProtobufError>)
    ensures
        match r {
            Ok((tag, left)) => varint(s@) matches Some((v, n)) && tag == v % 0x1_0000_0000 && left
                == s@.len() - n,
            Err(_) => varint(s@) is None,
        },
{
    let mut reader = BytesReader::from_bytes(s);
    let tag = reader.next_tag(s)?;
    Ok((tag, reader.len()))
}

/// `quick_protobuf::BytesReader::read_string` on a new reader: the text at the front, and how
/// many bytes are left behind it. It adds up the end of the text in a `usize`, so the end
/// has to fit one.
#[verifier::external_body]
fn read_string(s: &[u8]) -> (r: Result<(String, usize), ProtobufError>)
    requires
        varint(s@) matches Some((v, n)) ==> n + v % 0x1_0000_0000 <= usize::MAX,
    ensures
        match r {
            Ok((text, left)) => text_in(s@) matches Some((t, n)) && text@ == t && left == s@.len()
                - n,
            Err(_) => text_in(s@) is None,
        },
{
    let mut reader = BytesReader::from_bytes(s);
    let text = reader.read_string(s)?.to_owned();
    Ok((text, reader.len()))
}

/// `quick_protobuf::BytesReader::read_unknown` on a new reader: how many bytes are left
/// behind a value of the tag's wire type.
#[verifier::external_body]
fn read_unknown(s: &[u8], tag: u32) -> (r: Result<usize, ProtobufError>)
    ensures
        match r {
            Ok(left) => value_len(s@, tag as nat) matches Some(n) && left == s@.len() - n,
            Err(_) => value_len(s@, tag as nat) is None,
        },
{
    let mut reader = BytesReader::from_bytes(s);
    reader.read_unknown(s, tag)?;
    Ok(reader.len())
}

/// `quick_protobuf::Writer::write_tag` on a vector, which never fails: the tag as a
/// variable-length integer.
#[verifier::external_body]
fn write_tag(out: &mut Vec<u8>, tag: u32)
    ensures
        final(out)@ == old(out)@ + varint_bytes(tag as nat),
{
    Writer::new(out).write_tag(tag).unwrap()
}

/// `quick_protobuf::Writer::write_string` on a vector, which never fails: the length of the
/// text as a variable-length integer, and then the text.
#[verifier::external_body]
fn write_string(out: &mut Vec<u8>, text: &str)
    ensures
        final(out)@ == old(out)@ + varint_bytes(encode_utf8(text@).len()) + encode_utf8(text@),
{
    Writer::new(out).write_string(text).unwrap()
}

/// `quick_protobuf::sizeofs::sizeof_len`: the size of a value of `len` bytes with its length.
pub assume_specification[ sizeof_len ](len: usize) -> (size: usize)
    requires
        len <= usize::MAX - VARINT_LEN,
    ensures
        size == varint_bytes(len as nat).len() + len,
;

/// A variable-length integer lies within the bytes it is read from.
pub proof fn lemma_varint_bounds(s: Seq<u8>, room: nat)
    ensures
        varint_in(s, room) matches Some((_, n)) ==> 0 < n <= s.len() && n <= room,
    decreases room,
{
    if room > 0 && s.len() > 0 && s[0] >= 128 {
        lemma_varint_bounds(s.skip(1), (room - 1) as nat);
    }
}

/// The text of a message is no longer than the message.
pub proof fn lemma_text_bound(s: Seq<u8>, text: Seq<char>, bound: nat)
    requires
        s.len() <= bound,
        encode_utf8(text).len() <= bound,
    ensures
        message_text(s, text) matches Some(t) ==> encode_utf8(t).len() <= bound,
    decreases s.len(),
{
    broadcast use vstd::utf8::decode_utf8_encode_utf8;

    if s.len() > 0 {
        if let Some((t, n)) = field_in(s, text) {
            if 0 < n <= s.len() {
                lemma_text_bound(s.skip(n as int), t, bound);
            }
        }
    }
}

/// Reads a length-delimited text, and tells how many bytes are left behind it.
fn read_text(s: &[u8]) -> (r: Option<(String, usize)>)
    ensures
        match r {
            Some((text, left)) => text_in(s@) matches Some((t, n)) && text@ == t && 0 < n <= s@.len()
                && left == s@.len() - n,
            None => text_in(s@) is None,
        },
{
    proof {
        lemma_varint_bounds(s@, VARINT_LEN as nat);
    }
    // A length that points past the message is refused before it is added up.
    match next_tag(s) {
        Ok((size, behind)) => {
            if size as u64 > behind as u64 {
                return None;
            }
            let total: usize = s.len();
            assert(varint(s@) matches Some((v, n)) && n + v % 0x1_0000_0000 <= total);
        },
        Err(_) => {
            return None;
        },
    }
    match read_string(s) {
        Ok(found) => Some(found),
        Err(_) => None,
    }
}

/// Reads a field: hands back the text behind it and how many bytes are left.
fn read_field(s: &[u8], text: String) -> (r: Option<(String, usize)>)
    ensures
        match r {
            Some((found, left)) => field_in(s@, text@) matches Some((t, n)) && found@ == t && 0 < n
                <= s@.len() && left == s@.len() - n,
            None => field_in(s@, text@) is None,
        },
{
    let len: usize = s.len();
    proof {
        lemma_varint_bounds(s@, VARINT_LEN as nat);
    }
    let (tag, left) = match next_tag(s) {
        Ok(found) => found,
        Err(_) => {
            return None;
        },
    };
    let value = slice_subrange(s, len - left, len);
    assert(value@ =~= s@.skip(len - left));
    if tag == TEXT_TAG {
        read_text(value)
    } else {
        proof {
            lemma_varint_bounds(value@, VARINT_LEN as nat);
        }
        match read_unknown(value, tag) {
            Ok(behind) => Some((text, behind)),
            Err(_) => None,
        }
    }
}

/// Reads the text field of a message.
pub fn read_text_message(bytes: &[u8]) -> (text: Option<String>)
    ensures
        match text {
            Some(t) => message_text(bytes@, Seq::empty()) == Some(t@),
            None => message_text(bytes@, Seq::empty()) is None,
        },
{
    let len: usize = bytes.len();
    let mut text: String = String::new();
    let mut at: usize = 0;
    assert(bytes@.skip(0) =~= bytes@);
    while at < len
        invariant
            at <= len,
            len == bytes@.len(),
            message_text(bytes@, Seq::empty()) == message_text(bytes@.skip(at as int), text@),
        decreases len - at,
    {
        let rest = slice_subrange(bytes, at, len);
        assert(rest@ =~= bytes@.skip(at as int));
        match read_field(rest, text) {
            Some((found, left)) => {
                assert(rest@.skip(len - at - left) =~= bytes@.skip(len - left));
                text = found;
                at = len - left;
            },
            None => {
                return None;
            },
        }
    }
    Some(text)
}

/// Appends a message with the given text field.
pub fn write_text_message(out: &mut Vec<u8>, text: &str)
    ensures
        final(out)@ == old(out)@ + message_bytes(text@),
{
    let bytes = text.as_bytes();
    if bytes.len() != 0 {
        write_tag(out, TEXT_TAG);
        write_string(out, text);
    }
    assert(out@ =~= old(out)@ + message_bytes(text@));
}

/// The size of a message with the given text field.
pub fn text_message_size(text: &str) -> (size: usize)
    requires
        encode_utf8(text@).len() < usize::MAX - VARINT_LEN,
    ensures
        size == message_bytes(text@).len(),
{
    let len: usize = text.as_bytes().len();
    if len == 0 {
        0
    } else {
        proof {
            reveal_with_fuel(varint_bytes, 2);
            law_varint_is_read_back(len as nat, Seq::empty());
            lemma_varint_bounds(varint_bytes(len as nat) + Seq::empty(), VARINT_LEN as nat);
        }
        1 + sizeof_len(len)
    }
}

/// A variable-length integer is read as the number that was written, whatever follows it.
pub proof fn law_varint_is_read_back(v: nat, rest: Seq<u8>)
    requires
        v < 0x1_0000_0000_0000_0000,
    ensures
        varint(varint_bytes(v) + rest) == Some((v, varint_bytes(v).len())),
{
    assert(room_limit(10) >= 0x1_0000_0000_0000_0000) by {
        reveal_with_fuel(room_limit, 11);
    }
    lemma_varint_read(v, rest, 10);
}

spec fn room_limit(room: nat) -> nat
    decreases room,
{
    if room == 0 {
        1
    } else {
        128 * room_limit((room - 1) as nat)
    }
}

proof fn lemma_varint_read(v: nat, rest: Seq<u8>, room: nat)
    requires
        0 < room,
        v < room_limit(room),
    ensures
        varint_in(varint_bytes(v) + rest, room) == Some((v, varint_bytes(v).len())),
    decreases room,
{
    let s = varint_bytes(v) + rest;
    reveal_with_fuel(room_limit, 2);
    if v > 127 {
        assert(room > 1);
        assert(s.skip(1) =~= varint_bytes(v / 128) + rest);
        lemma_varint_read(v / 128, rest, (room - 1) as nat);
    }
}

/// A message is read as the text that was written.
pub proof fn law_text_is_read_back(text: Seq<char>)
    requires
        encode_utf8(text).len() < 0x1_0000_0000,
    ensures
        message_text(message_bytes(text), Seq::empty()) == Some(text),
{
    broadcast use vstd::utf8::encode_utf8_valid_utf8;
    broadcast use vstd::utf8::encode_utf8_decode_utf8;

    let bytes = encode_utf8(text);
    if bytes.len() == 0 {
        assert(decode_utf8(bytes) =~= Seq::<char>::empty());
    } else {
        let s = message_bytes(text);
        let tag = varint_bytes(TEXT_TAG as nat);
        let value = varint_bytes(bytes.len()) + bytes;
        assert(s =~= tag + value);
        law_varint_is_read_back(TEXT_TAG as nat, value);
        law_varint_is_read_back(bytes.len(), bytes);
        lemma_varint_bounds(s, VARINT_LEN as nat);
        let n = varint_bytes(bytes.len()).len() as int;
        assert(s.skip(tag.len() as int) =~= value);
        assert(value.subrange(n, value.len() as int) =~= bytes);
        assert(text_in(value) == Some((text, value.len())));
        assert(field_in(s, Seq::empty()) == Some((text, s.len())));
        assert(s.skip(s.len() as int) =~= Seq::<u8>::empty());
        assert(message_text(Seq::<u8>::empty(), text) == Some(text));
    }
}

} // verus!

//! The messages of the greeter service.

use crate::bytes_be::be_bytes;
use crate::protobuf::{law_text_is_read_back, message_bytes, message_text, read_text_message, text_message_size, write_text_message};
use byteorder::{BigEndian, ByteOrder};
use vstd::prelude::*;
use vstd::utf8::encode_utf8;

verus! {

/// The length of the prefix of a gRPC message: a compression flag and the message length.
pub const GRPC_PREFIX_LEN: usize = 5;

/// The request of `SayHello`.
pub struct HelloRequest {
    pub name: String,
}

/// The reply of `SayHello`.
pub struct HelloReply {
    pub message: String,
}

/// The greeting for a name.
pub open spec fn greeting(name: Seq<char>) -> Seq<char> {
    "Hello "@ + name
}

/// The data of a reply: an uncompressed gRPC message that greets `name`.
pub open spec fn reply_data(name: Seq<char>) -> Seq<u8> {
    seq![0u8] + be_bytes(message_bytes(greeting(name)).len(), 4) + message_bytes(greeting(name))
}

impl HelloRequest {
    /// Reads a request.
    pub fn from_reader(bytes: &[u8]) -> (request: Option<HelloRequest>)
        ensures
            match request {
                Some(r) => message_text(bytes@, Seq::empty()) == Some(r.name@),
                None => message_text(bytes@, Seq::empty()) is None,
            },
    {
        match read_text_message(bytes) {
            Some(name) => Some(HelloRequest { name }),
            None => None,
        }
    }
}

impl HelloReply {
    /// The size of the reply once written.
    pub fn get_size(&self) -> (size: usize)
        requires
            encode_utf8(self.message@).len() < usize::MAX - 10,
        ensures
            size == message_bytes(self.message@).len(),
    {
        text_message_size(self.message.as_str())
    }

    /// Appends the reply to `out`.
    pub fn write_message(&self, out: &mut Vec<u8>)
        ensures
            final(out)@ == old(out)@ + message_bytes(self.message@),
    {
        write_text_message(out, self.message.as_str())
    }
}

/// `byteorder::BigEndian::write_u32` from position `at` on: overwrites four bytes.
#[verifier::external_body]
fn write_u32(data: &mut Vec<u8>, at: usize, value: u32)
    requires
        at + 4 <= old(data)@.len(),
    ensures
        final(data)@ == old(data)@.take(at as int) + be_bytes(value as nat, 4) + old(data)@.skip(
            at + 4,
        ),
{
    BigEndian::write_u32(&mut data[at..], value)
}

/// Frames a reply as a gRPC message.
pub fn grpc_message(reply: &HelloReply) -> (data: Vec<u8>)
    requires
        encode_utf8(reply.message@).len() < 0xffff_ff00,
    ensures
        data@ == seq![0u8] + be_bytes(message_bytes(reply.message@).len(), 4) + message_bytes(
            reply.message@,
        ),
{
    let mut data: Vec<u8> = vec![0, 0, 0, 0, 0];
    proof {
        lemma_message_len(reply.message@);
    }
    let size: usize = reply.get_size();
    write_u32(&mut data, 1, size as u32);
    reply.write_message(&mut data);
    proof {
        assert(data@ =~= seq![0u8] + be_bytes(message_bytes(reply.message@).len(), 4)
            + message_bytes(reply.message@));
    }
    data
}

/// A message is at most eleven bytes longer than its text.
pub proof fn lemma_message_len(text: Seq<char>)
    requires
        encode_utf8(text).len() < 0x1_0000_0000,
    ensures
        message_bytes(text).len() <= encode_utf8(text).len() + 11,
{
    reveal_with_fuel(crate::protobuf::varint_bytes, 2);
    let len = encode_utf8(text).len();
    crate::protobuf::law_varint_is_read_back(len, Seq::empty());
    crate::protobuf::lemma_varint_bounds(
        crate::protobuf::varint_bytes(len) + Seq::empty(),
        10,
    );
}

/// The encoding of two texts, one after the other.
pub proof fn lemma_encode_concat(a: Seq<char>, b: Seq<char>)
    ensures
        encode_utf8(a + b) == encode_utf8(a) + encode_utf8(b),
    decreases a.len(),
{
    if a.len() == 0 {
        assert(a + b =~= b);
        assert(encode_utf8(a) + encode_utf8(b) =~= encode_utf8(b));
    } else {
        assert((a + b).drop_first() =~= a.drop_first() + b);
        lemma_encode_concat(a.drop_first(), b);
        assert(encode_utf8(a + b) =~= encode_utf8(a) + encode_utf8(b));
    }
}

/// A greeting is six bytes longer than the name.
pub proof fn lemma_greeting_len(name: Seq<char>)
    ensures
        encode_utf8(greeting(name)).len() == 6 + encode_utf8(name).len(),
{
    reveal_strlit("Hello ");
    lemma_encode_concat("Hello "@, name);
    vstd::utf8::is_ascii_chars_encode_utf8("Hello "@);
}

/// Whoever sends a name is greeted by it: the reply to a request, read as a message behind
/// the gRPC prefix, is `Hello ` and the name.
pub proof fn law_greeted_by_name(name: Seq<char>)
    requires
        encode_utf8(name).len() < 0xffff_ff00,
    ensures
        message_text(message_bytes(name), Seq::empty()) == Some(name),
        message_text(reply_data(name).skip(GRPC_PREFIX_LEN as int), Seq::empty()) == Some(
            "Hello "@ + name,
        ),
{
    law_text_is_read_back(name);
    lemma_greeting_len(name);
    law_text_is_read_back(greeting(name));
    crate::bytes_be::lemma_be_bytes_len(message_bytes(greeting(name)).len(), 4);
    assert(reply_data(name).skip(5) =~= message_bytes(greeting(name)));
}

} // verus!

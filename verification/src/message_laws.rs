//! What the bytes of a message are, and how they are read.

use crate::bytes_be::{be_bytes, be_value, law_value_of_bytes, lemma_be_bytes_len, lemma_be_limits};
use crate::hello::{greeting, reply_data};
use crate::protobuf::{field_in, law_varint_is_read_back, lemma_varint_bounds, message_bytes, message_text, text_in, value_len, varint, varint_bytes, varint_in};
use vstd::arithmetic::div_mod::lemma_div_denominator;
use vstd::arithmetic::power::{lemma_pow0, lemma_pow_positive, pow};
use vstd::prelude::*;
use vstd::utf8::{encode_utf8, valid_utf8};

verus! {

/// A variable-length integer is written in groups of seven bits, the low ones first. Every
/// octet but the last is marked, and there are no more octets than the number needs.
pub proof fn law_varint_octets(v: nat, i: int)
    requires
        0 <= i < varint_bytes(v).len(),
    ensures
        ({
            let s = varint_bytes(v);
            &&& s[i] as int % 128 == (v as int / pow(128, i as nat)) % 128
            &&& s[i] >= 128 <==> i + 1 < s.len()
            &&& v < pow(128, s.len())
            &&& s.len() > 1 ==> v >= pow(128, (s.len() - 1) as nat)
        }),
    decreases v,
{
    let s = varint_bytes(v);
    lemma_pow0(128);
    reveal(pow);
    if v > 127 {
        let t = varint_bytes(v / 128);
        assert(t.len() > 0);
        assert(s.len() == t.len() + 1);
        law_varint_octets(v / 128, 0);
        assert(pow(128, s.len()) == 128 * pow(128, t.len()));
        if t.len() > 1 {
            assert(pow(128, t.len()) == 128 * pow(128, (t.len() - 1) as nat));
        }
        if i > 0 {
            law_varint_octets(v / 128, i - 1);
            assert(s[i] == t[i - 1]);
            lemma_pow_positive(128, (i - 1) as nat);
            lemma_div_denominator(v as int, 128, pow(128, (i - 1) as nat));
            assert(pow(128, i as nat) == 128 * pow(128, (i - 1) as nat));
        }
    }
}

/// The number that groups of seven bits spell, the low ones first.
pub open spec fn groups_value(s: Seq<u8>) -> nat
    decreases s.len(),
{
    if s.len() == 0 {
        0
    } else {
        (s[0] % 128) as nat + 128 * groups_value(s.drop_first())
    }
}

proof fn lemma_varint_in_groups(s: Seq<u8>, room: nat, k: int)
    requires
        0 <= k < s.len(),
        k < room,
        forall|j: int| 0 <= j < k ==> s[j] >= 128,
        s[k] < 128,
    ensures
        varint_in(s, room) == Some((groups_value(s.take(k + 1)), (k + 1) as nat)),
    decreases k,
{
    let t = s.take(k + 1);
    if k == 0 {
        assert(groups_value(t.drop_first()) == 0);
    } else {
        lemma_varint_in_groups(s.skip(1), (room - 1) as nat, k - 1);
        assert(s.skip(1).take(k) =~= t.drop_first());
    }
}

proof fn lemma_varint_in_none(s: Seq<u8>, room: nat)
    requires
        forall|j: int| 0 <= j < s.len() && j < room ==> s[j] >= 128,
    ensures
        varint_in(s, room) is None,
    decreases room,
{
    if room > 0 && s.len() > 0 {
        lemma_varint_in_none(s.skip(1), (room - 1) as nat);
    }
}

/// A variable-length integer ends with the first octet that is not marked, which has to come
/// within ten octets.
pub proof fn law_varint_by_octets(s: Seq<u8>, k: int)
    requires
        0 <= k <= s.len(),
        forall|j: int| 0 <= j < k ==> s[j] >= 128,
    ensures
        k >= 10 || k == s.len() ==> varint(s) is None,
        k < 10 && k < s.len() && s[k] < 128 ==> varint(s) == Some(
            (groups_value(s.take(k + 1)), (k + 1) as nat),
        ),
{
    if k >= 10 || k == s.len() {
        lemma_varint_in_none(s, 10);
    } else if s[k] < 128 {
        lemma_varint_in_groups(s, 10, k);
    }
}

/// A message without fields leaves the text as it is.
pub proof fn law_empty_message(text: Seq<char>)
    ensures
        message_text(Seq::empty(), text) == Some(text),
{
}

proof fn lemma_field(s: Seq<u8>, text: Seq<char>, next: Seq<char>, field: Seq<u8>, rest: Seq<u8>)
    requires
        s == field + rest,
        field.len() > 0,
        field_in(s, text) == Some((next, field.len())),
    ensures
        message_text(s, text) == message_text(rest, next),
{
    assert(s.skip(field.len() as int) =~= rest);
}

proof fn lemma_tag_ten(value: Seq<u8>)
    ensures
        varint(seq![10u8] + value) == Some((10nat, 1nat)),
        (seq![10u8] + value).skip(1) == value,
{
    let s = seq![10u8] + value;
    law_varint_by_octets(s, 0);
    assert(s.take(1).drop_first() =~= Seq::empty());
    assert(groups_value(Seq::<u8>::empty()) == 0);
    assert(s.skip(1) =~= value);
}

proof fn lemma_text_value(new: Seq<char>, rest: Seq<u8>)
    requires
        encode_utf8(new).len() < 0x1_0000_0000,
    ensures
        ({
            let len = varint_bytes(encode_utf8(new).len());
            text_in(len + (encode_utf8(new) + rest)) == Some(
                (new, len.len() + encode_utf8(new).len()),
            )
        }),
{
    broadcast use vstd::utf8::encode_utf8_valid_utf8;
    broadcast use vstd::utf8::encode_utf8_decode_utf8;

    let bytes = encode_utf8(new);
    let len = varint_bytes(bytes.len());
    let value = len + (bytes + rest);
    law_varint_is_read_back(bytes.len(), bytes + rest);
    assert(value.subrange(len.len() as int, (len.len() + bytes.len()) as int) =~= bytes);
}

proof fn lemma_text_field(value: Seq<u8>, text: Seq<char>, new: Seq<char>, n: nat)
    requires
        text_in(value) == Some((new, n)),
    ensures
        field_in(seq![10u8] + value, text) == Some((new, 1 + n)),
{
    lemma_tag_ten(value);
}

/// A text field, which is the tag 10, a length and the text, sets the text, whatever it was
/// before.
pub proof fn law_text_field_sets_the_text(new: Seq<char>, rest: Seq<u8>, text: Seq<char>)
    requires
        encode_utf8(new).len() < 0x1_0000_0000,
    ensures
        message_text(
            seq![10u8] + varint_bytes(encode_utf8(new).len()) + encode_utf8(new) + rest,
            text,
        ) == message_text(rest, new),
{
    let bytes = encode_utf8(new);
    let len = varint_bytes(bytes.len());
    let field = seq![10u8] + len + bytes;
    let s = field + rest;
    assert(s =~= seq![10u8] + (len + (bytes + rest)));
    assert(field_in(s, text) == Some((new, field.len()))) by {
        lemma_text_value(new, rest);
        lemma_text_field(len + (bytes + rest), text, new, len.len() + bytes.len());
    }
    lemma_field(s, text, new, field, rest);
}

/// Whether `value` has the form that the low bits of a tag say: a variable-length integer,
/// eight bytes, a length and as many bytes, or four bytes.
pub open spec fn has_form(tag: nat, value: Seq<u8>) -> bool {
    ||| tag % 8 == 0 && exists|n: nat|
        n < 0x1_0000_0000_0000_0000 && value == #[trigger] varint_bytes(n)
    ||| tag % 8 == 1 && value.len() == 8
    ||| tag % 8 == 2 && exists|bytes: Seq<u8>|
        bytes.len() < 0x1_0000_0000_0000_0000 && value == #[trigger] (varint_bytes(bytes.len())
            + bytes)
    ||| tag % 8 == 5 && value.len() == 4
}

proof fn lemma_value(tag: nat, value: Seq<u8>, rest: Seq<u8>)
    requires
        has_form(tag, value),
    ensures
        value_len(value + rest, tag) == Some(value.len()),
{
    if tag % 8 == 0 {
        let n = choose|n: nat|
            n < 0x1_0000_0000_0000_0000 && value == #[trigger] varint_bytes(n);
        law_varint_is_read_back(n, rest);
    } else if tag % 8 == 2 {
        let bytes = choose|bytes: Seq<u8>|
            bytes.len() < 0x1_0000_0000_0000_0000 && value == #[trigger] (varint_bytes(bytes.len())
                + bytes);
        law_varint_is_read_back(bytes.len(), bytes + rest);
        assert(value + rest =~= varint_bytes(bytes.len()) + (bytes + rest));
    }
}

proof fn lemma_other_field(tag: nat, after: Seq<u8>, text: Seq<char>, n: nat)
    requires
        tag < 0x1_0000_0000,
        tag != 10,
        value_len(after, tag) == Some(n),
    ensures
        field_in(varint_bytes(tag) + after, text) == Some((text, varint_bytes(tag).len() + n)),
{
    let t = varint_bytes(tag);
    law_varint_is_read_back(tag, after);
    assert((t + after).skip(t.len() as int) =~= after);
}

/// A field of any other tag is passed over with its value.
pub proof fn law_other_fields_are_passed_over(
    tag: nat,
    value: Seq<u8>,
    rest: Seq<u8>,
    text: Seq<char>,
)
    requires
        tag < 0x1_0000_0000,
        tag != 10,
        has_form(tag, value),
    ensures
        message_text(varint_bytes(tag) + value + rest, text) == message_text(rest, text),
{
    let t = varint_bytes(tag);
    let field = t + value;
    let s = field + rest;
    assert(s =~= t + (value + rest));
    assert(t.len() > 0);
    assert(field_in(s, text) == Some((text, field.len()))) by {
        lemma_value(tag, value, rest);
        lemma_other_field(tag, value + rest, text, value.len());
    }
    lemma_field(s, text, text, field, rest);
}

/// A field whose tag asks for a value of no known form is refused.
pub proof fn law_unknown_forms_are_refused(tag: nat, rest: Seq<u8>, text: Seq<char>)
    requires
        tag < 0x1_0000_0000,
        tag % 8 == 3 || tag % 8 == 4 || tag % 8 == 6 || tag % 8 == 7,
    ensures
        message_text(varint_bytes(tag) + rest, text) is None,
{
    let t = varint_bytes(tag);
    law_varint_is_read_back(tag, rest);
    assert((t + rest).skip(t.len() as int) =~= rest);
}

/// A text field is refused if the message ends before the text does, or if the text is not
/// valid UTF-8.
pub proof fn law_bad_texts_are_refused(len: nat, rest: Seq<u8>, text: Seq<char>)
    requires
        len < 0x1_0000_0000,
        rest.len() < len || !valid_utf8(rest.take(len as int)),
    ensures
        message_text(seq![10u8] + varint_bytes(len) + rest, text) is None,
{
    let l = varint_bytes(len);
    let s = seq![10u8] + l + rest;
    assert(s =~= seq![10u8] + (l + rest));
    lemma_tag_ten(l + rest);
    law_varint_is_read_back(len, rest);
    if rest.len() >= len {
        assert((l + rest).subrange(l.len() as int, (l.len() + len) as int) =~= rest.take(
            len as int,
        ));
    }
}

/// A message that starts with an integer that does not end is refused.
pub proof fn law_endless_tags_are_refused(s: Seq<u8>, text: Seq<char>)
    requires
        s.len() > 0,
        forall|j: int| 0 <= j < s.len() && j < 10 ==> s[j] >= 128,
    ensures
        message_text(s, text) is None,
{
    lemma_varint_in_none(s, 10);
}

/// A value that is cut off is refused: eight bytes, four bytes, or as many as a length says.
pub proof fn law_cut_values_are_refused(tag: nat, len: nat, rest: Seq<u8>, text: Seq<char>)
    requires
        tag < 0x1_0000_0000,
        tag != 10,
        len < 0x1_0000_0000_0000_0000,
        rest.len() < len,
    ensures
        tag % 8 == 1 && len <= 8 ==> message_text(varint_bytes(tag) + rest, text) is None,
        tag % 8 == 5 && len <= 4 ==> message_text(varint_bytes(tag) + rest, text) is None,
        tag % 8 == 2 ==> message_text(varint_bytes(tag) + (varint_bytes(len) + rest), text) is None,
{
    if tag % 8 == 2 {
        assert(value_len(varint_bytes(len) + rest, tag) is None) by {
            law_varint_is_read_back(len, rest);
        }
        lemma_no_value(tag, varint_bytes(len) + rest, text);
    } else if (tag % 8 == 1 && len <= 8) || (tag % 8 == 5 && len <= 4) {
        lemma_no_value(tag, rest, text);
    }
}

proof fn lemma_no_value(tag: nat, after: Seq<u8>, text: Seq<char>)
    requires
        tag < 0x1_0000_0000,
        tag != 10,
        value_len(after, tag) is None,
    ensures
        message_text(varint_bytes(tag) + after, text) is None,
{
    let t = varint_bytes(tag);
    law_varint_is_read_back(tag, after);
    assert((t + after).skip(t.len() as int) =~= after);
}

/// A message is read field by field. The low 32 bits of the tag decide: 10 stands for a text,
/// which replaces the one before, and any other tag leaves the text as it is.
pub proof fn law_message_by_fields(s: Seq<u8>, text: Seq<char>)
    requires
        s.len() > 0,
    ensures
        match varint(s) {
            None => message_text(s, text) is None,
            Some((v, n)) => if v % 0x1_0000_0000 == 10 {
                match text_in(s.skip(n as int)) {
                    None => message_text(s, text) is None,
                    Some((t, m)) => message_text(s, text) == message_text(s.skip((n + m) as int), t),
                }
            } else {
                match value_len(s.skip(n as int), v % 0x1_0000_0000) {
                    None => message_text(s, text) is None,
                    Some(m) => message_text(s, text) == message_text(
                        s.skip((n + m) as int),
                        text,
                    ),
                }
            },
        },
{
    lemma_varint_bounds(s, 10);
    if let Some((v, n)) = varint(s) {
        lemma_varint_bounds(s.skip(n as int), 10);
        assert(v % 0x1_0000_0000 == 10 ==> (text_in(s.skip(n as int)) matches Some((_, m)) ==> n + m
            <= s.len()));
        assert(value_len(s.skip(n as int), v % 0x1_0000_0000) matches Some(m) ==> n + m
            <= s.len());
    }
}

/// How long a value is follows from the low bits of its tag. A length counts with its low 64
/// bits.
pub proof fn law_values_by_form(s: Seq<u8>, tag: nat)
    ensures
        tag % 8 == 0 ==> match varint(s) {
            None => value_len(s, tag) is None,
            Some((_, n)) => value_len(s, tag) == Some(n),
        },
        tag % 8 == 1 ==> value_len(s, tag) == if s.len() < 8 {
            None
        } else {
            Some(8nat)
        },
        tag % 8 == 2 ==> match varint(s) {
            None => value_len(s, tag) is None,
            Some((v, n)) => value_len(s, tag) == if n + v % 0x1_0000_0000_0000_0000 > s.len() {
                None
            } else {
                Some(n + v % 0x1_0000_0000_0000_0000)
            },
        },
        tag % 8 == 5 ==> value_len(s, tag) == if s.len() < 4 {
            None
        } else {
            Some(4nat)
        },
        tag % 8 == 3 || tag % 8 == 4 || tag % 8 > 5 ==> value_len(s, tag) is None,
{
}

/// A text is as many bytes as the low 32 bits of its length say, and has to be valid UTF-8.
pub proof fn law_text_by_length(s: Seq<u8>)
    ensures
        match varint(s) {
            None => text_in(s) is None,
            Some((v, n)) => {
                let len = v % 0x1_0000_0000;
                if n + len > s.len() {
                    text_in(s) is None
                } else {
                    let bytes = s.subrange(n as int, (n + len) as int);
                    match text_in(s) {
                        None => !valid_utf8(bytes),
                        Some((t, m)) => m == n + len && valid_utf8(bytes) && encode_utf8(t)
                            == bytes,
                    }
                }
            },
        },
{
    broadcast use vstd::utf8::decode_utf8_encode_utf8;

}

/// A message is its text field, and an empty text is left out.
pub proof fn law_message_layout(text: Seq<char>)
    ensures
        encode_utf8(text).len() == 0 ==> message_bytes(text).len() == 0,
        encode_utf8(text).len() > 0 ==> message_bytes(text) == seq![10u8] + varint_bytes(
            encode_utf8(text).len(),
        ) + encode_utf8(text),
{
    assert(varint_bytes(10) =~= seq![10u8]);
}

/// A reply is a zero, the length of the message in four bytes, and the message, which is
/// `Hello ` and the name.
pub proof fn law_reply_layout(name: Seq<char>)
    ensures
        ({
            let data = reply_data(name);
            let message = message_bytes("Hello "@ + name);
            &&& data.len() == 5 + message.len()
            &&& data[0] == 0
            &&& message.len() < 0x1_0000_0000 ==> be_value(data.subrange(1, 5)) == message.len()
            &&& data.skip(5) == message
        }),
        greeting(name) == "Hello "@ + name,
{
    let message = message_bytes(greeting(name));
    lemma_be_bytes_len(message.len(), 4);
    lemma_be_limits();
    if message.len() < 0x1_0000_0000 {
        law_value_of_bytes(message.len(), 4);
    }
    assert(reply_data(name).subrange(1, 5) =~= be_bytes(message.len(), 4));
    assert(reply_data(name).skip(5) =~= message);
}

} // verus!

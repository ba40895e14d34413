//! Which header blocks are well framed.
//!
//! A block is a row of fields. The laws below write fields down, octet by octet, and say how
//! they are measured.

use crate::headers::{field_len, integer, integer_tail, literal_len, string_len, well_framed};
use vstd::prelude::*;

verus! {

/// A number in groups of seven bits, the low ones first; each octet but the last is marked.
pub open spec fn groups(v: nat) -> Seq<u8>
    decreases v,
{
    if v < 128 {
        seq![v as u8]
    } else {
        seq![(128 + v % 128) as u8] + groups(v / 128)
    }
}

/// An integer of HPACK behind the marks `form` of a field: a number that is below `room` goes
/// into the first octet, a larger one into groups behind it.
pub open spec fn integer_octets(form: nat, room: nat, v: nat) -> Seq<u8> {
    if v < room {
        seq![(form + v) as u8]
    } else {
        seq![(form + room) as u8] + groups((v - room) as nat)
    }
}

/// A string of HPACK: its length and its octets, which may be Huffman-coded.
pub struct Text {
    pub huffman: bool,
    pub octets: Seq<u8>,
}

pub open spec fn text_octets(t: Text) -> Seq<u8> {
    integer_octets(
        if t.huffman {
            128
        } else {
            0
        },
        127,
        t.octets.len(),
    ) + t.octets
}

/// The name of a literal field: an entry of the table, or a string.
pub enum Name {
    Entry(nat),
    Literal(Text),
}

/// What a literal field does to the table.
pub enum Form {
    Indexed,
    Plain,
    NeverIndexed,
}

/// A field of a header block.
pub enum Field {
    /// An entry of the table.
    Entry(nat),
    Literal { form: Form, name: Name, value: Text },
    /// A new size of the table.
    Resize(nat),
}

/// The octets of a literal field, behind the marks of its form.
pub open spec fn literal_octets(form: nat, room: nat, name: Name, value: Text) -> Seq<u8> {
    match name {
        Name::Entry(i) => integer_octets(form, room, i) + text_octets(value),
        Name::Literal(t) => integer_octets(form, room, 0) + text_octets(t) + text_octets(value),
    }
}

pub open spec fn field_octets(f: Field) -> Seq<u8> {
    match f {
        Field::Entry(i) => integer_octets(128, 127, i),
        Field::Literal { form: Form::Indexed, name, value } => literal_octets(64, 63, name, value),
        Field::Literal { form: Form::Plain, name, value } => literal_octets(0, 15, name, value),
        Field::Literal { form: Form::NeverIndexed, name, value } => literal_octets(
            16,
            15,
            name,
            value,
        ),
        Field::Resize(n) => integer_octets(32, 31, n),
    }
}

/// Whether the numbers in a field are within the limit of five octets.
pub open spec fn in_limits(f: Field) -> bool {
    match f {
        Field::Entry(i) => i < 0x1000_0000,
        Field::Literal { name, value, .. } => {
            &&& value.octets.len() < 0x1000_0000
            &&& match name {
                Name::Entry(i) => 0 < i < 0x1000_0000,
                Name::Literal(t) => t.octets.len() < 0x1000_0000,
            }
        },
        Field::Resize(n) => n < 0x1000_0000,
    }
}

/// The octets of a row of fields.
pub open spec fn row_octets(row: Seq<Field>) -> Seq<u8>
    decreases row.len(),
{
    if row.len() == 0 {
        Seq::empty()
    } else {
        field_octets(row[0]) + row_octets(row.drop_first())
    }
}

proof fn lemma_bits(x: u8)
    ensures
        x & 127 == x % 128,
        x & 63 == x % 64,
        x & 31 == x % 32,
        x & 15 == x % 16,
        x & 128 == 128 <==> x >= 128,
        x & 64 == 64 <==> (x / 64) % 2 == 1,
        x & 32 == 32 <==> (x / 32) % 2 == 1,
{
    assert(x & 127 == x % 128) by (bit_vector);
    assert(x & 63 == x % 64) by (bit_vector);
    assert(x & 31 == x % 32) by (bit_vector);
    assert(x & 15 == x % 16) by (bit_vector);
    assert(x & 128 == 128 <==> x >= 128) by (bit_vector);
    assert(x & 64 == 64 <==> (x / 64) % 2 == 1) by (bit_vector);
    assert(x & 32 == 32 <==> (x / 32) % 2 == 1) by (bit_vector);
}

spec fn weight(at: nat) -> nat {
    if at == 1 {
        1
    } else if at == 2 {
        128
    } else if at == 3 {
        0x4000
    } else {
        0x20_0000
    }
}

spec fn room_at(at: nat) -> nat {
    if at == 1 {
        0x1000_0000
    } else if at == 2 {
        0x20_0000
    } else if at == 3 {
        0x4000
    } else {
        128
    }
}

/// Groups from octet `at` on add up to the number that they were made of.
proof fn lemma_tail(s: Seq<u8>, at: nat, value: nat, v: nat, rest: Seq<u8>)
    requires
        1 <= at <= 4,
        at <= s.len(),
        s.skip(at as int) == groups(v) + rest,
        v < room_at(at),
    ensures
        integer_tail(s, at, value, weight(at)) == Some(
            (value + v * weight(at), at + groups(v).len()),
        ),
    decreases 5 - at,
{
    let b = s[at as int];
    assert(groups(v).len() > 0);
    assert(s.skip(at as int).len() == groups(v).len() + rest.len());
    assert(at < s.len());
    assert(b == (groups(v) + rest)[0]) by {
        assert(s.skip(at as int)[0] == b);
    }
    lemma_bits(b);
    let step = (b & 127) as nat;
    assert(step == v % 128) by {
        if v >= 128 {
            assert(b == 128 + v % 128);
        }
    }
    assert(step * weight(at) == (v % 128) * weight(at));
    if v < 128 {
        assert(b == v);
        assert(v % 128 == v);
    } else {
        assert(b == 128 + v % 128);
        assert(s.skip(at as int + 1) =~= groups(v / 128) + rest) by {
            assert(s.skip(at as int).skip(1) =~= s.skip(at as int + 1));
            assert((groups(v) + rest).skip(1) =~= groups(v / 128) + rest);
        }
        let next = value + (v % 128) * weight(at);
        lemma_tail(s, at + 1, next, v / 128, rest);
        assert(v == 128 * (v / 128) + v % 128);
        assert(weight(at + 1) == weight(at) * 128);
        assert(next + (v / 128) * weight(at + 1) == value + v * weight(at)) by (nonlinear_arith)
            requires
                next == value + (v % 128) * weight(at),
                v == 128 * (v / 128) + v % 128,
                weight(at + 1) == weight(at) * 128,
        ;
    }
}

spec fn known_room(form: nat, room: nat) -> bool {
    ||| room == 127 && (form == 0 || form == 128)
    ||| room == 63 && form == 64
    ||| room == 31 && form == 32
    ||| room == 15 && (form == 0 || form == 16)
}

/// Integers are read as they were written, whatever follows them.
proof fn lemma_integer(form: nat, room: nat, v: nat, rest: Seq<u8>)
    requires
        known_room(form, room),
        v < 0x1000_0000,
    ensures
        integer_octets(form, room, v).len() > 0,
        integer(integer_octets(form, room, v) + rest, room as u8) == Some(
            (v, integer_octets(form, room, v).len()),
        ),
{
    let s = integer_octets(form, room, v) + rest;
    let first = s[0];
    lemma_bits(first);
    if v >= room {
        let over = (v - room) as nat;
        assert(s.skip(1) =~= groups(over) + rest);
        lemma_tail(s, 1, room, over, rest);
    }
}

/// Strings are measured as they were written, Huffman-coded or not: their length and their
/// octets.
pub proof fn law_strings_are_measured(t: Text, rest: Seq<u8>)
    requires
        t.octets.len() < 0x1000_0000,
    ensures
        string_len(text_octets(t) + rest) == Some(text_octets(t).len()),
        t.octets.len() < 127 ==> text_octets(t).len() == t.octets.len() + 1,
{
    let form: nat = if t.huffman {
        128
    } else {
        0
    };
    lemma_integer(form, 127, t.octets.len(), t.octets + rest);
    assert(text_octets(t) + rest =~= integer_octets(form, 127, t.octets.len()) + (t.octets + rest));
}

proof fn lemma_literal(form: nat, room: nat, name: Name, value: Text, rest: Seq<u8>)
    requires
        known_room(form, room),
        value.octets.len() < 0x1000_0000,
        match name {
            Name::Entry(i) => 0 < i < 0x1000_0000,
            Name::Literal(t) => t.octets.len() < 0x1000_0000,
        },
    ensures
        literal_len(literal_octets(form, room, name, value) + rest, room as u8) == Some(
            literal_octets(form, room, name, value).len(),
        ),
{
    let s = literal_octets(form, room, name, value) + rest;
    law_strings_are_measured(value, rest);
    match name {
        Name::Entry(i) => {
            let head = integer_octets(form, room, i);
            lemma_integer(form, room, i, text_octets(value) + rest);
            assert(s =~= head + (text_octets(value) + rest));
            assert(s.skip(head.len() as int) =~= text_octets(value) + rest);
        },
        Name::Literal(t) => {
            let head = integer_octets(form, room, 0);
            lemma_integer(form, room, 0, text_octets(t) + (text_octets(value) + rest));
            law_strings_are_measured(t, text_octets(value) + rest);
            assert(s =~= head + (text_octets(t) + (text_octets(value) + rest)));
            assert(s.skip(head.len() as int) =~= text_octets(t) + (text_octets(value) + rest));
            assert(s.skip((head.len() + text_octets(t).len()) as int) =~= text_octets(value)
                + rest);
        },
    }
}

/// Fields are measured as they were written, whatever follows them.
pub proof fn law_fields_are_measured(f: Field, rest: Seq<u8>)
    requires
        in_limits(f),
    ensures
        0 < field_octets(f).len(),
        field_len(field_octets(f) + rest) == Some(field_octets(f).len()),
{
    let s = field_octets(f) + rest;
    lemma_first_octet(f);
    assert(s[0] == field_octets(f)[0]);
    law_fields_by_first_octet(s);
    match f {
        Field::Entry(i) => {
            lemma_integer(128, 127, i, rest);
        },
        Field::Resize(n) => {
            lemma_integer(32, 31, n, rest);
        },
        Field::Literal { form: Form::Indexed, name, value } => {
            lemma_literal(64, 63, name, value, rest);
        },
        Field::Literal { form: Form::Plain, name, value } => {
            lemma_literal(0, 15, name, value, rest);
        },
        Field::Literal { form: Form::NeverIndexed, name, value } => {
            lemma_literal(16, 15, name, value, rest);
        },
    }
}

/// The first octet of a field tells what it is.
proof fn lemma_first_octet(f: Field)
    requires
        in_limits(f),
    ensures
        field_octets(f).len() > 0,
        ({
            let b = field_octets(f)[0];
            match f {
                Field::Entry(_) => b >= 128,
                Field::Literal { form: Form::Indexed, .. } => 64 <= b < 128,
                Field::Resize(_) => 32 <= b < 64,
                Field::Literal { form: Form::NeverIndexed, .. } => 16 <= b < 32,
                Field::Literal { form: Form::Plain, .. } => b < 16,
            }
        }),
{
}

/// A row of fields is well framed, and a field in front does not change whether the rest is.
pub proof fn law_rows_are_well_framed(row: Seq<Field>, rest: Seq<u8>)
    requires
        forall|i: int| 0 <= i < row.len() ==> in_limits(#[trigger] row[i]),
    ensures
        well_framed(row_octets(row)),
        well_framed(row_octets(row) + rest) == well_framed(rest),
    decreases row.len(),
{
    if row.len() == 0 {
        assert(row_octets(row) + rest =~= rest);
    } else {
        let f = field_octets(row[0]);
        let more = row_octets(row.drop_first());
        law_rows_are_well_framed(row.drop_first(), rest);
        law_fields_are_measured(row[0], more);
        law_fields_are_measured(row[0], more + rest);
        assert((f + more).skip(f.len() as int) =~= more);
        assert(row_octets(row) + rest =~= f + (more + rest));
        assert((f + (more + rest)).skip(f.len() as int) =~= more + rest);
    }
}

/// How an integer is read, by the octets at the front of `s`: a first octet whose low bits are
/// not all set holds it; else it goes on up to the first octet below 128, which has to come
/// within five octets.
pub proof fn law_integers_by_octets(s: Seq<u8>, room: u8)
    requires
        room == 127 || room == 63 || room == 31 || room == 15,
    ensures
        integer(s, room) == if s.len() == 0 {
            None
        } else if s[0] as int % (room + 1) < room {
            Some(((s[0] as int % (room + 1)) as nat, 1nat))
        } else if s.len() > 1 && s[1] < 128 {
            Some(((room + s[1]) as nat, 2))
        } else if s.len() > 2 && s[2] < 128 {
            Some(((room + (s[1] - 128) + s[2] * 128) as nat, 3))
        } else if s.len() > 3 && s[3] < 128 {
            Some(((room + (s[1] - 128) + (s[2] - 128) * 128 + s[3] * 0x4000) as nat, 4))
        } else if s.len() > 4 && s[4] < 128 {
            Some(
                (
                    (room + (s[1] - 128) + (s[2] - 128) * 128 + (s[3] - 128) * 0x4000 + s[4]
                        * 0x20_0000) as nat,
                    5,
                ),
            )
        } else {
            None
        },
{
    if s.len() > 0 {
        lemma_bits(s[0]);
        let v0 = room as nat;
        lemma_tail_step(s, 1, v0, 1);
        if s.len() > 1 && s[1] >= 128 {
            let v1 = (v0 + (s[1] - 128)) as nat;
            lemma_tail_step(s, 2, v1, 128);
            if s.len() > 2 && s[2] >= 128 {
                let v2 = (v1 + (s[2] - 128) * 128) as nat;
                lemma_tail_step(s, 3, v2, 0x4000);
                if s.len() > 3 && s[3] >= 128 {
                    let v3 = (v2 + (s[3] - 128) * 0x4000) as nat;
                    lemma_tail_step(s, 4, v3, 0x20_0000);
                }
            }
        }
    }
}

/// One octet of a long integer.
proof fn lemma_tail_step(s: Seq<u8>, at: nat, value: nat, weight: nat)
    requires
        at < 5,
    ensures
        integer_tail(s, at, value, weight) == if at >= s.len() {
            None
        } else if s[at as int] < 128 {
            Some((value + s[at as int] as nat * weight, at + 1))
        } else if at == 4 {
            None
        } else {
            integer_tail(s, at + 1, value + (s[at as int] - 128) as nat * weight, weight * 128)
        },
{
    if at < s.len() {
        lemma_bits(s[at as int]);
        reveal_with_fuel(integer_tail, 2);
    }
}

/// A string needs its length and as many octets as that says, whatever its coding.
pub proof fn law_strings_by_length(s: Seq<u8>)
    ensures
        match integer(s, 127) {
            None => string_len(s) is None,
            Some((len, used)) => string_len(s) == if used + len <= s.len() {
                Some(used + len)
            } else {
                None
            },
        },
{
}

/// The bits of the first octet decide how a field is measured.
pub proof fn law_fields_by_first_octet(s: Seq<u8>)
    requires
        s.len() > 0,
    ensures
        s[0] >= 128 ==> match integer(s, 127) {
            None => field_len(s) is None,
            Some((_, used)) => field_len(s) == Some(used),
        },
        64 <= s[0] < 128 ==> field_len(s) == literal_len(s, 63),
        32 <= s[0] < 64 ==> match integer(s, 31) {
            None => field_len(s) is None,
            Some((_, used)) => field_len(s) == Some(used),
        },
        s[0] < 32 ==> field_len(s) == literal_len(s, 15),
{
    lemma_bits(s[0]);
}

/// A literal field is an index, a name if the index is zero, and a value.
pub proof fn law_literals_by_parts(s: Seq<u8>, room: u8)
    ensures
        match integer(s, room) {
            None => literal_len(s, room) is None,
            Some((index, used)) => {
                let name = string_len(s.skip(used as int));
                let n = if index == 0 && name is Some {
                    used + name->0
                } else {
                    used
                };
                let value = string_len(s.skip(n as int));
                literal_len(s, room) == if (index == 0 && name is None) || value is None {
                    None
                } else {
                    Some(n + value->0)
                }
            },
        },
{
}

/// A block is well framed if it is empty, or starts with a field and is well framed behind it.
pub proof fn law_blocks_by_fields(s: Seq<u8>)
    ensures
        s.len() == 0 ==> well_framed(s),
        s.len() > 0 ==> match field_len(s) {
            None => !well_framed(s),
            Some(n) => 0 < n <= s.len() && well_framed(s) == well_framed(s.skip(n as int)),
        },
{
    if s.len() > 0 {
        lemma_field_cut(s, 0);
    }
}

proof fn lemma_integer_cut(s: Seq<u8>, room: u8, m: int)
    requires
        room == 127 || room == 63 || room == 31 || room == 15,
        0 <= m <= s.len(),
    ensures
        integer(s, room) matches Some((v, used)) ==> 0 < used <= s.len() && integer(s.take(m), room)
            == if m < used {
            None
        } else {
            Some((v, used))
        },
{
    law_integers_by_octets(s, room);
    law_integers_by_octets(s.take(m), room);
}

proof fn lemma_string_cut(s: Seq<u8>, m: int)
    requires
        0 <= m <= s.len(),
    ensures
        string_len(s) matches Some(n) ==> 0 < n <= s.len() && string_len(s.take(m)) == if m < n {
            None
        } else {
            Some(n)
        },
{
    lemma_integer_cut(s, 127, m);
}

proof fn lemma_literal_cut(s: Seq<u8>, room: u8, m: int)
    requires
        room == 63 || room == 15,
        0 <= m <= s.len(),
    ensures
        literal_len(s, room) matches Some(n) ==> 0 < n <= s.len() && literal_len(s.take(m), room)
            == if m < n {
            None
        } else {
            Some(n)
        },
{
    lemma_integer_cut(s, room, m);
    if let Some((index, used)) = integer(s, room) {
        let u = used as int;
        if index == 0 {
            if m >= u {
                assert(s.take(m).skip(u) =~= s.skip(u).take(m - u));
                lemma_string_cut(s.skip(u), m - u);
            }
            lemma_string_cut(s.skip(u), 0);
            if let Some(n) = string_len(s.skip(u)) {
                let k = u + n;
                lemma_string_cut(s.skip(k), 0);
                if m >= k {
                    assert(s.take(m).skip(k) =~= s.skip(k).take(m - k));
                    lemma_string_cut(s.skip(k), m - k);
                }
            }
        } else {
            lemma_string_cut(s.skip(u), 0);
            if m >= u {
                assert(s.take(m).skip(u) =~= s.skip(u).take(m - u));
                lemma_string_cut(s.skip(u), m - u);
            }
        }
    }
}

proof fn lemma_field_cut(s: Seq<u8>, m: int)
    requires
        0 <= m <= s.len(),
    ensures
        field_len(s) matches Some(n) ==> 0 < n <= s.len() && field_len(s.take(m)) == if m < n {
            None
        } else {
            Some(n)
        },
{
    lemma_integer_cut(s, 127, m);
    lemma_integer_cut(s, 31, m);
    lemma_literal_cut(s, 63, m);
    lemma_literal_cut(s, 15, m);
}

/// A field that is cut off is not well framed, wherever it is cut.
pub proof fn law_cut_fields_are_refused(s: Seq<u8>, n: nat, m: int)
    requires
        field_len(s) == Some(n),
        0 < m < n,
    ensures
        n <= s.len(),
        !well_framed(s.take(m)),
{
    lemma_field_cut(s, 0);
    lemma_field_cut(s, m);
}

} // verus!

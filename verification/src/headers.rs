//! Header lists and their compressed form (HPACK).

use vstd::prelude::*;

verus! {

/// The text of a header list.
pub open spec fn header_list(headers: Seq<(Vec<u8>, Vec<u8>)>) -> Seq<(Seq<u8>, Seq<u8>)> {
    headers.map_values(|h: (Vec<u8>, Vec<u8>)| (h.0@, h.1@))
}

/// The continuation octets of an HPACK integer, from octet `at` on: the value so far is
/// `value`, the next octet counts `weight`. An integer has at most five octets.
pub open spec fn integer_tail(s: Seq<u8>, at: nat, value: nat, weight: nat) -> Option<(nat, nat)>
    decreases 5 - at,
{
    if at >= 5 || at >= s.len() {
        None
    } else {
        let next = value + (s[at as int] & 127) as nat * weight;
        if s[at as int] & 128 != 128 {
            Some((next, at + 1))
        } else {
            integer_tail(s, at + 1, next, weight * 128)
        }
    }
}

/// The HPACK integer at the front of `s` whose prefix is the bits of `mask`: its value and
/// its number of octets.
pub open spec fn integer(s: Seq<u8>, mask: u8) -> Option<(nat, nat)> {
    if s.len() == 0 {
        None
    } else if s[0] & mask < mask {
        Some(((s[0] & mask) as nat, 1))
    } else {
        integer_tail(s, 1, (s[0] & mask) as nat, 1)
    }
}

/// The number of octets of the HPACK string at the front of `s`.
pub open spec fn string_len(s: Seq<u8>) -> Option<nat> {
    match integer(s, 127) {
        Some((len, used)) if used + len <= s.len() => Some(used + len),
        _ => None,
    }
}

/// The number of octets of the literal header field at the front of `s`.
pub open spec fn literal_len(s: Seq<u8>, mask: u8) -> Option<nat> {
    match integer(s, mask) {
        None => None,
        Some((index, used)) => {
            let name = if index == 0 {
                string_len(s.skip(used as int))
            } else {
                Some(0nat)
            };
            match name {
                None => None,
                Some(n) => match string_len(s.skip((used + n) as int)) {
                    None => None,
                    Some(v) => Some(used + n + v),
                },
            }
        },
    }
}

/// The number of octets of the header field or table update at the front of `s`.
pub open spec fn field_len(s: Seq<u8>) -> Option<nat> {
    if s.len() == 0 {
        None
    } else if s[0] & 128 == 128 {
        match integer(s, 127) {
            None => None,
            Some((_, used)) => Some(used),
        }
    } else if s[0] & 64 == 64 {
        literal_len(s, 63)
    } else if s[0] & 32 == 32 {
        match integer(s, 31) {
            None => None,
            Some((_, used)) => Some(used),
        }
    } else {
        literal_len(s, 15)
    }
}

/// Whether `block` is a row of complete header fields and table updates.
pub open spec fn well_framed(block: Seq<u8>) -> bool
    decreases block.len(),
{
    if block.len() == 0 {
        true
    } else {
        match field_len(block) {
            Some(n) if 0 < n <= block.len() => well_framed(block.skip(n as int)),
            _ => false,
        }
    }
}

proof fn lemma_integer_bounds(s: Seq<u8>, mask: u8)
    ensures
        integer(s, mask) matches Some((v, used)) ==> 0 < used <= s.len() && used <= 5 && v
            <= 0x2000_0000,
{
    if s.len() > 0 && !(s[0] & mask < mask) {
        let m = s[0] & mask;
        lemma_tail_bounds(s, 1, m as nat, 1);
    }
}

proof fn lemma_tail_bounds(s: Seq<u8>, at: nat, value: nat, weight: nat)
    requires
        1 <= at <= 5,
        at == 1 ==> weight == 1 && value <= 255,
        at == 2 ==> weight == 128 && value <= 255 + 127,
        at == 3 ==> weight == 128 * 128 && value <= 255 + 127 + 127 * 128,
        at == 4 ==> weight == 128 * 128 * 128 && value <= 255 + 127 + 127 * 128 + 127 * 128 * 128,
    ensures
        integer_tail(s, at, value, weight) matches Some((v, used)) ==> at < used <= s.len() && used
            <= 5 && v <= 0x2000_0000,
    decreases 5 - at,
{
    if at < 5 && at < s.len() {
        let b = s[at as int];
        assert(b & 127 <= 127) by (bit_vector);
        let next = value + (b & 127) as nat * weight;
        assert((b & 127) as nat * weight <= 127 * weight) by (nonlinear_arith)
            requires
                b & 127 <= 127,
        ;
        if b & 128 == 128 {
            lemma_tail_bounds(s, at + 1, next, weight * 128);
        }
    }
}

proof fn lemma_field_bounds(s: Seq<u8>)
    ensures
        field_len(s) matches Some(n) ==> 0 < n <= s.len(),
{
    if s.len() > 0 {
        lemma_integer_bounds(s, 127);
        lemma_integer_bounds(s, 63);
        lemma_integer_bounds(s, 31);
        lemma_integer_bounds(s, 15);
    }
}

/// Reads an HPACK integer.
fn read_integer(s: &[u8], from: usize, mask: u8) -> (r: Option<(usize, usize)>)
    requires
        from <= s@.len(),
    ensures
        match r {
            Some((v, used)) => integer(s@.skip(from as int), mask) == Some((v as nat, used as nat)),
            None => integer(s@.skip(from as int), mask) is None,
        },
{
    let ghost rest = s@.skip(from as int);
    let len: usize = s.len();
    if from == len {
        return None;
    }
    let first: u8 = s[from] & mask;
    if first < mask {
        return Some((first as usize, 1));
    }
    let mut value: usize = first as usize;
    let mut weight: usize = 1;
    let mut at: usize = 1;
    while at < 5 && at < len - from
        invariant
            from < len,
            len == s@.len(),
            rest == s@.skip(from as int),
            1 <= at <= 5,
            integer(rest, mask) == integer_tail(rest, at as nat, value as nat, weight as nat),
            at == 1 ==> weight == 1 && value <= 255,
            at == 2 ==> weight == 128 && value <= 255 + 127,
            at == 3 ==> weight == 128 * 128 && value <= 255 + 127 + 127 * 128,
            at == 4 ==> weight == 128 * 128 * 128 && value <= 255 + 127 + 127 * 128 + 127 * 128
                * 128,
            at == 5 ==> weight == 128 * 128 * 128 * 128,
        decreases 5 - at,
    {
        let octet: u8 = s[from + at];
        let low: u8 = octet & 127;
        proof {
            assert(octet & 127 <= 127) by (bit_vector);
            assert(low as int * weight as int <= 127 * weight) by (nonlinear_arith)
                requires
                    low <= 127,
            ;
            assert(0 <= low as int * weight as int) by (nonlinear_arith);
        }
        value = value + low as usize * weight;
        at = at + 1;
        if octet & 128 != 128 {
            return Some((value, at));
        }
        weight = weight * 128;
    }
    None
}

/// Measures an HPACK string.
fn measure_string(s: &[u8], from: usize) -> (r: Option<usize>)
    requires
        from <= s@.len(),
    ensures
        match r {
            Some(n) => string_len(s@.skip(from as int)) == Some(n as nat) && from + n <= s@.len(),
            None => string_len(s@.skip(from as int)) is None,
        },
{
    proof {
        lemma_integer_bounds(s@.skip(from as int), 127);
    }
    let room: usize = s.len() - from;
    match read_integer(s, from, 127) {
        Some((len, used)) => if used <= room && len <= room - used {
            Some(used + len)
        } else {
            None
        },
        None => None,
    }
}

/// Measures a literal header field.
fn measure_literal(s: &[u8], from: usize, mask: u8) -> (r: Option<usize>)
    requires
        from <= s@.len(),
    ensures
        match r {
            Some(n) => literal_len(s@.skip(from as int), mask) == Some(n as nat) && from + n
                <= s@.len(),
            None => literal_len(s@.skip(from as int), mask) is None,
        },
{
    let ghost rest = s@.skip(from as int);
    proof {
        lemma_integer_bounds(rest, mask);
    }
    let total: usize = s.len();
    match read_integer(s, from, mask) {
        None => None,
        Some((index, used)) => {
            assert(rest.skip(used as int) =~= s@.skip(from + used));
            let name: Option<usize> = if index == 0 {
                measure_string(s, from + used)
            } else {
                Some(0)
            };
            match name {
                None => None,
                Some(n) => {
                    assert(rest.skip(used + n) =~= s@.skip(from + used + n));
                    match measure_string(s, from + used + n) {
                        None => None,
                        Some(v) => Some(used + n + v),
                    }
                },
            }
        },
    }
}

/// Measures a header field or a table update.
fn measure_field(s: &[u8], from: usize) -> (r: Option<usize>)
    requires
        from < s@.len(),
    ensures
        match r {
            Some(n) => field_len(s@.skip(from as int)) == Some(n as nat) && 0 < n && from + n
                <= s@.len(),
            None => field_len(s@.skip(from as int)) is None,
        },
{
    let ghost rest = s@.skip(from as int);
    proof {
        lemma_field_bounds(rest);
    }
    let first: u8 = s[from];
    if first & 128 == 128 {
        match read_integer(s, from, 127) {
            Some((_, used)) => Some(used),
            None => None,
        }
    } else if first & 64 == 64 {
        measure_literal(s, from, 63)
    } else if first & 32 == 32 {
        match read_integer(s, from, 31) {
            Some((_, used)) => Some(used),
            None => None,
        }
    } else {
        measure_literal(s, from, 15)
    }
}

/// Checks the framing of a header block.
pub fn is_well_framed(block: &[u8]) -> (framed: bool)
    ensures
        framed == well_framed(block@),
{
    let len: usize = block.len();
    let mut at: usize = 0;
    assert(block@.skip(0) =~= block@);
    while at < len
        invariant
            at <= len,
            len == block@.len(),
            well_framed(block@) == well_framed(block@.skip(at as int)),
        decreases len - at,
    {
        match measure_field(block, at) {
            Some(n) => {
                assert(block@.skip(at as int).skip(n as int) =~= block@.skip(at + n));
                at = at + n;
            },
            None => {
                return false;
            },
        }
    }
    true
}

/// The decoder of `hpack`, with its table of headers.
#[verifier::external_type_specification]
#[verifier::external_body]
pub struct ExDecoder<'a>(hpack::Decoder<'a>);

/// The error of `hpack`, which is only carried.
#[verifier::external_type_specification]
#[verifier::external_body]
pub struct ExDecoderError(hpack::decoder::DecoderError);

/// The blocks that a decoder has taken in; they determine its table.
pub uninterp spec fn blocks_seen(decoder: hpack::Decoder<'static>) -> Seq<Seq<u8>>;

/// The header list of a block for a decoder that has taken in the blocks `seen`; `None` if
/// the block does not decode.
pub uninterp spec fn decoded(seen: Seq<Seq<u8>>, block: Seq<u8>) -> Option<
    Seq<(Seq<u8>, Seq<u8>)>,
>;

/// The compressed form that a new encoder gives to a header list.
pub uninterp spec fn encoded(headers: Seq<(Seq<u8>, Seq<u8>)>) -> Seq<u8>;

/// `hpack::Decoder::new`: a decoder that has taken in nothing.
#[verifier::external_body]
pub(crate) fn new_decoder() -> (decoder: hpack::Decoder<'static>)
    ensures
        blocks_seen(decoder) == Seq::<Seq<u8>>::empty(),
{
    hpack::Decoder::new()
}

/// `hpack::Decoder::decode`: the header list is a function of the block and of the blocks
/// before it, and the block counts as taken in whether it decodes or not. A table update
/// whose size is cut off makes it panic, so a block must be well framed.
#[verifier::external_body]
pub(crate) fn decode(decoder: &mut hpack::Decoder<'static>, block: &Vec<u8>) -> (headers: Result<
    Vec<(Vec<u8>, Vec<u8>)>,
    hpack::decoder::DecoderError,
>)
    requires
        well_framed(block@),
    ensures
        blocks_seen(*final(decoder)) == blocks_seen(*old(decoder)).push(block@),
        match headers {
            Ok(h) => decoded(blocks_seen(*old(decoder)), block@) == Some(header_list(h@)),
            Err(_) => decoded(blocks_seen(*old(decoder)), block@) is None,
        },
{
    decoder.decode(block)
}

/// An upper bound for the compressed form of a header list: each header takes its name, its
/// value, and at most an octet for its form and two integers of at most eleven octets.
pub open spec fn block_bound(headers: Seq<(Seq<u8>, Seq<u8>)>) -> nat
    decreases headers.len(),
{
    if headers.len() == 0 {
        0
    } else {
        block_bound(headers.drop_last()) + headers.last().0.len() + headers.last().1.len() + 23
    }
}

/// `hpack::Encoder::encode` on a new encoder: a function of the header list. A header becomes
/// an index, or an index and its value, or its name and its value, and the integers that
/// stand for an index or a length have at most eleven octets.
#[verifier::external_body]
pub(crate) fn encode(headers: &Vec<(Vec<u8>, Vec<u8>)>) -> (block: Vec<u8>)
    ensures
        block@ == encoded(header_list(headers@)),
        block@.len() <= block_bound(header_list(headers@)),
{
    hpack::Encoder::new().encode(headers.iter().map(|h| (&h.0[..], &h.1[..])))
}

} // verus!

//! What holds of the codec across calls: round trips, streams, the optional
//! marker, the elided payload and the element-type byte.
use vstd::prelude::*;
use vstd::bytes::lemma_auto_spec_u32_to_from_le_bytes;
use crate::model::{ArrayView, NpArrayView, is_unit_shape, shape_count};
use crate::name::{
    NAME_LEN, ascii_bytes, ascii_chars, bytes_are_ascii, chars_are_ascii, field_name,
    is_ascii_whitespace, name_field, trim_end,
};
use crate::wire::{
    CodecError, array_at, decode, encoded, encoded_header, field_at, header_ok,
    header_start, le4, magic, payload_bytes, payload_len_at, shape_at, type_at, type_tag,
    wire_u32, words_le, words_of,
};

verus! {

/// The words' bytes take four per word, and word `i` sits at `4 * i`.
proof fn lemma_words_le_layout(w: Seq<u32>)
    ensures
        words_le(w).len() == 4 * w.len(),
        forall|i: int|
            0 <= i < w.len() ==> #[trigger] words_le(w).subrange(4 * i, 4 * i + 4) == le4(w[i]),
    decreases w.len(),
{
    lemma_auto_spec_u32_to_from_le_bytes();
    if w.len() > 0 {
        let init = w.drop_last();
        lemma_words_le_layout(init);
        let b = words_le(w);
        assert(b == words_le(init) + le4(w.last()));
        assert forall|i: int| 0 <= i < w.len() implies #[trigger] b.subrange(4 * i, 4 * i + 4)
            == le4(w[i]) by {
            if i < w.len() - 1 {
                assert(b.subrange(4 * i, 4 * i + 4) =~= words_le(init).subrange(4 * i, 4 * i + 4));
            } else {
                assert(b.subrange(4 * i, 4 * i + 4) =~= le4(w.last()));
            }
        }
    }
}

/// Reading words back from their bytes gives the words.
pub proof fn lemma_words_round_trip(w: Seq<u32>)
    ensures
        words_of(words_le(w)) == w,
        words_le(w).len() == 4 * w.len(),
{
    lemma_auto_spec_u32_to_from_le_bytes();
    lemma_words_le_layout(w);
    let b = words_le(w);
    assert(b.len() / 4 == w.len()) by (nonlinear_arith)
        requires
            b.len() == 4 * w.len(),
    ;
    assert forall|i: int| 0 <= i < w.len() implies #[trigger] words_of(b)[i] == w[i] by {
        assert(b.subrange(4 * i, 4 * i + 4) == le4(w[i]));
    }
    assert(words_of(b) =~= w);
}

/// Trailing spaces go and nothing before them does, when the bytes before
/// them do not end in whitespace.
proof fn lemma_trim_padding(a: Seq<u8>, k: nat)
    requires
        a.len() == 0 || !is_ascii_whitespace(a.last()),
    ensures
        trim_end(a + Seq::new(k, |i: int| 32u8)) == a,
    decreases k,
{
    let padded = a + Seq::new(k, |i: int| 32u8);
    if k == 0 {
        assert(padded =~= a);
    } else {
        assert(padded.drop_last() =~= a + Seq::new((k - 1) as nat, |i: int| 32u8));
        lemma_trim_padding(a, (k - 1) as nat);
    }
}

/// An ASCII character is one byte, and that byte is the character.
proof fn lemma_ascii_char(c: char)
    requires
        (c as nat) < 128,
    ensures
        (c as u8) < 128,
        (c as u8) as char == c,
{
}

/// A name that can be read back as it was written: ASCII, within the
/// field's width, and not ending in whitespace.
pub open spec fn name_survives(name: Seq<char>) -> bool {
    &&& chars_are_ascii(name)
    &&& name.len() <= NAME_LEN
    &&& name.len() > 0 ==> !is_ascii_whitespace(name.last() as u8)
}

/// The name field is as wide as the field, ASCII, and, for a name that does
/// not end in whitespace, reads back as the name: padding is removed and no
/// trailing space is left over.
pub proof fn law_name_field(name: Seq<char>)
    requires
        chars_are_ascii(name),
        name.len() <= NAME_LEN,
    ensures
        name_field(name).len() == NAME_LEN,
        bytes_are_ascii(name_field(name)),
        name_survives(name) ==> field_name(name_field(name)) == name,
{
    let a = ascii_bytes(name);
    let f = name_field(name);
    assert forall|i: int| 0 <= i < f.len() implies f[i] < 128 by {
        if i < name.len() {
            let c = name[i];
            
            lemma_ascii_char(c);
            assert(f[i] == a[i]);
            assert(a[i] == c as u8);
        } else {
            assert(f[i] == 32u8);
        }
    }
    if name_survives(name) {
        lemma_trim_padding(a, (NAME_LEN - name.len()) as nat);
        assert forall|i: int| 0 <= i < name.len() implies #[trigger] ascii_chars(a)[i]
            == name[i] by {
            let c = name[i];
            
            lemma_ascii_char(c);
            assert(a[i] == c as u8);
            assert(ascii_chars(a)[i] == a[i] as char);
        }
        assert(ascii_chars(a) =~= name);
    }
}

/// Every count of the entity fits the wire's signed 32-bit fields.
pub open spec fn fits_wire(m: NpArrayView) -> bool {
    &&& payload_bytes(m.array).len() < 0x8000_0000
    &&& m.array.shape()[0] < 0x8000_0000
    &&& m.array.shape()[1] < 0x8000_0000
    &&& m.array.shape()[2] < 0x8000_0000
}

/// An entity that the encoder writes faithfully: a well-formed array, an
/// ASCII name within the field, and counts that fit the wire.
pub open spec fn encodable(m: NpArrayView) -> bool {
    &&& m.array.wf()
    &&& chars_are_ascii(m.name)
    &&& m.name.len() <= NAME_LEN
    &&& fits_wire(m)
}

/// The number of payload bytes of an encodable entity, by element type.
proof fn lemma_payload_len(a: ArrayView)
    ensures
        !is_unit_shape(a.shape()) ==> payload_bytes(a).len() == a.len()
            * a.data_type().spec_data_size(),
        is_unit_shape(a.shape()) ==> payload_bytes(a).len() == 0,
{
    match a {
        ArrayView::U8(g) => {},
        ArrayView::F32(g) => {
            lemma_words_round_trip(g.data);
        },
    }
}

/// A message is the header, the name field and the payload.
proof fn lemma_encoded_len(m: NpArrayView)
    requires
        encodable(m),
    ensures
        encoded(m).len() == 149 + payload_bytes(m.array).len(),
{
    lemma_auto_spec_u32_to_from_le_bytes();
    law_name_field(m.name);
    assert(encoded_header(m).len() == 21);
}

/// Whatever starts with the first bytes of an entity's message reads back
/// that entity's header and name field.
proof fn lemma_encoded_prefix(m: NpArrayView, b: Seq<u8>)
    requires
        encodable(m),
        b.len() >= 149,
        b.subrange(0, 149) == encoded(m).subrange(0, 149),
    ensures
        header_start(b) == 4,
        header_ok(b, 4),
        payload_len_at(b, 4) == payload_bytes(m.array).len(),
        shape_at(b, 4) == m.array.shape(),
        type_at(b, 4) == m.array.data_type(),
        b.subrange(21, 149) == name_field(m.name),
        encoded(m).len() == 149 + payload_bytes(m.array).len(),
{
    lemma_auto_spec_u32_to_from_le_bytes();
    law_name_field(m.name);
    lemma_payload_len(m.array);
    let e = encoded(m);
    let s = m.array.shape();
    let plen = payload_bytes(m.array).len();
    let h = encoded_header(m);
    assert(h.len() == 21);
    assert(e.len() == 149 + plen);
    assert forall|i: int, j: int| 0 <= i <= j <= 149 implies #[trigger] b.subrange(i, j)
        == e.subrange(i, j) by {
        assert(b.subrange(i, j) =~= b.subrange(0, 149).subrange(i, j));
        assert(e.subrange(i, j) =~= e.subrange(0, 149).subrange(i, j));
    }
    assert(e.subrange(0, 4) =~= magic());
    assert(e.subrange(4, 8) =~= le4(wire_u32(plen as int)));
    assert(e.subrange(8, 12) =~= le4(wire_u32(s[1] as int)));
    assert(e.subrange(12, 16) =~= le4(wire_u32(s[0] as int)));
    assert(e.subrange(16, 20) =~= le4(wire_u32(s[2] as int)));
    assert(e.subrange(21, 149) =~= name_field(m.name));
    assert(b.subrange(0, 4) == e.subrange(0, 4));
    assert(b.subrange(4, 8) == e.subrange(4, 8));
    assert(b.subrange(8, 12) == e.subrange(8, 12));
    assert(b.subrange(12, 16) == e.subrange(12, 16));
    assert(b.subrange(16, 20) == e.subrange(16, 20));
    assert(b.subrange(21, 149) == e.subrange(21, 149));
    assert(b[20] == b.subrange(0, 149)[20]);
    assert(e[20] == type_tag(m.array.data_type()));
    assert(field_at(b, 4) == plen);
    assert(field_at(b, 8) == s[1]);
    assert(field_at(b, 12) == s[0]);
    assert(field_at(b, 16) == s[2]);
    assert(shape_at(b, 4) =~= s);
    let len = plen as int;
    let size = m.array.data_type().spec_data_size() as int;
    if len > 0 {
        assert(!is_unit_shape(s));
        assert(len == m.array.len() * size);
        assert(len / size == m.array.len()) by (nonlinear_arith)
            requires
                len == m.array.len() * size,
                size == 1 || size == 4,
        ;
        assert(len % size == 0) by (nonlinear_arith)
            requires
                len == m.array.len() * size,
                size == 1 || size == 4,
        ;
    }
}

/// What decoding an entity's message gives back: the same name and array,
/// at time 0.
pub open spec fn received(m: NpArrayView) -> NpArrayView {
    NpArrayView { name: m.name, array: m.array, time_id: 0 }
}

/// The entities that survive a round trip: encodable, with a name that does
/// not end in whitespace, at least one element, and a shape other than
/// `[1, 1, 1]`.
pub open spec fn survives_round_trip(m: NpArrayView) -> bool {
    &&& encodable(m)
    &&& name_survives(m.name)
    &&& shape_count(m.array.shape()) > 0
    &&& !is_unit_shape(m.array.shape())
}

/// A message followed by any bytes decodes to its entity, consumes exactly
/// the message, and leaves the bytes after it.
pub proof fn law_decode_prefix(m: NpArrayView, tail: Seq<u8>)
    requires
        survives_round_trip(m),
    ensures
        decode(encoded(m) + tail) == Ok::<(NpArrayView, int), CodecError>(
            (received(m), encoded(m).len() as int),
        ),
{
    let e = encoded(m);
    let b = e + tail;
    lemma_encoded_len(m);
    assert(b.subrange(0, 149) =~= e.subrange(0, 149));
    lemma_encoded_prefix(m, b);
    law_name_field(m.name);
    lemma_payload_len(m.array);
    let plen = payload_bytes(m.array).len() as int;
    let size = m.array.data_type().spec_data_size() as int;
    assert(plen > 0) by (nonlinear_arith)
        requires
            plen == m.array.len() * size,
            m.array.len() > 0,
            size == 1 || size == 4,
    ;
    assert(b.subrange(149, 149 + plen) =~= payload_bytes(m.array));
    match m.array {
        ArrayView::U8(g) => {
            assert(array_at(b, 4) == m.array);
        },
        ArrayView::F32(g) => {
            lemma_words_round_trip(g.data);
            assert(array_at(b, 4) == m.array);
        },
    }
}

/// Encoding and then decoding gives the entity back, at time 0, and
/// consumes the whole message.
pub proof fn law_round_trip(m: NpArrayView)
    requires
        survives_round_trip(m),
    ensures
        decode(encoded(m)) == Ok::<(NpArrayView, int), CodecError>(
            (received(m), encoded(m).len() as int),
        ),
{
    law_decode_prefix(m, Seq::empty());
    assert(encoded(m) + Seq::<u8>::empty() =~= encoded(m));
}

/// Two messages back to back decode one after the other: the first call
/// takes exactly the first message and leaves the second, which the next
/// call decodes.
pub proof fn law_two_messages(m1: NpArrayView, m2: NpArrayView)
    requires
        survives_round_trip(m1),
        survives_round_trip(m2),
    ensures
        ({
            let b = encoded(m1) + encoded(m2);
            let used = encoded(m1).len() as int;
            &&& decode(b) == Ok::<(NpArrayView, int), CodecError>((received(m1), used))
            &&& b.subrange(used, b.len() as int) == encoded(m2)
            &&& decode(b.subrange(used, b.len() as int)) == Ok::<(NpArrayView, int), CodecError>(
                (received(m2), encoded(m2).len() as int),
            )
        }),
{
    law_decode_prefix(m1, encoded(m2));
    law_round_trip(m2);
    let b = encoded(m1) + encoded(m2);
    assert(b.subrange(encoded(m1).len() as int, b.len() as int) =~= encoded(m2));
}

/// Every proper prefix of a message asks for more input: no field of it is
/// reported malformed and no entity is made from it.
pub proof fn law_prefix_incomplete(m: NpArrayView, k: int)
    requires
        encodable(m),
        0 <= k < encoded(m).len(),
    ensures
        decode(encoded(m).subrange(0, k)) == Err::<(NpArrayView, int), CodecError>(
            CodecError::IncompleteInput,
        ),
{
    let e = encoded(m);
    let b = e.subrange(0, k);
    lemma_payload_len(m.array);
    lemma_encoded_len(m);
    if k >= 149 {
        assert(b.subrange(0, 149) =~= e.subrange(0, 149));
        lemma_encoded_prefix(m, b);
    } else if k >= 4 {
        assert(b.subrange(0, 4) =~= e.subrange(0, 4));
        assert(e.subrange(0, 4) =~= magic());
    }
}

/// An entity of shape `[1, 1, 1]` is written with a payload length of 0 and
/// no payload, whatever its element; it reads back as an empty array of
/// shape `[0, 0, 0]` of the same element type.
pub proof fn law_unit_shape_elided(m: NpArrayView)
    requires
        encodable(m),
        is_unit_shape(m.array.shape()),
    ensures
        encoded(m).subrange(4, 8) == le4(0),
        encoded(m).len() == 149,
        decode(encoded(m)) matches Ok((v, used)) && used == 149 && v.array.shape() == seq![
            0usize,
            0usize,
            0usize,
        ] && v.array.len() == 0 && v.array.data_type() == m.array.data_type(),
{
    let e = encoded(m);
    lemma_encoded_len(m);
    lemma_payload_len(m.array);
    lemma_encoded_prefix(m, e);
    lemma_auto_spec_u32_to_from_le_bytes();
    assert(payload_bytes(m.array).len() == 0);
    assert(e.subrange(4, 8) =~= le4(wire_u32(payload_bytes(m.array).len() as int)));
    assert(wire_u32(0) == 0);
    assert(e.subrange(149, 149) =~= Seq::<u8>::empty());
}

/// The element-type byte decides the element type of what is decoded: `0`
/// gives bytes, any other value gives 32-bit floats.
pub proof fn law_type_tag(b: Seq<u8>)
    ensures
        decode(b) matches Ok((v, used)) ==> ((v.array is U8) <==> b[header_start(b) + 16] == 0),
        decode(b) matches Ok((v, used)) ==> ((v.array is F32) <==> b[header_start(b) + 16] != 0),
{
}

/// The marker is optional: a message decodes to the same entity, or fails
/// in the same way, with the marker in front of it and without. Only input
/// that itself starts with the marker is left out, since the marker would
/// then be taken off it too.
pub proof fn law_magic_optional(b: Seq<u8>)
    requires
        !(b.len() >= 4 && b.subrange(0, 4) == magic()),
    ensures
        decode(magic() + b) == match decode(b) {
            Ok((v, used)) => Ok::<(NpArrayView, int), CodecError>((v, used + 4)),
            Err(e) => Err::<(NpArrayView, int), CodecError>(e),
        },
{
    let c = magic() + b;
    assert(c.subrange(0, 4) =~= magic());
    assert(header_start(c) == 4);
    assert(header_start(b) == 0);
    if b.len() >= 145 {
        assert(c.subrange(4, 8) =~= b.subrange(0, 4));
        assert(c.subrange(8, 12) =~= b.subrange(4, 8));
        assert(c.subrange(12, 16) =~= b.subrange(8, 12));
        assert(c.subrange(16, 20) =~= b.subrange(12, 16));
        assert(c[20] == b[16]);
        assert(c.subrange(21, 149) =~= b.subrange(17, 145));
        assert(header_ok(c, 4) == header_ok(b, 0));
        let len = payload_len_at(b, 0) as int;
        if header_ok(b, 0) && b.len() >= 145 + len {
            assert(c.subrange(149, 149 + len) =~= b.subrange(145, 145 + len));
            assert(array_at(c, 4) == array_at(b, 0));
        }
    }
}

} // verus!

//! The message layout as mathematics: what the encoder writes and what the
//! decoder makes of a byte sequence.
use vstd::prelude::*;
use vstd::bytes::{spec_u32_from_le_bytes, spec_u32_to_le_bytes};
use crate::model::{ArrayView, GridView, NpArrayDataType, NpArrayView, is_unit_shape};
use crate::name::{bytes_are_ascii, field_name, name_field};

verus! {

/// Bytes of the fixed header after the marker: payload length, three
/// dimension fields and the element-type byte.
pub const HEADER_LEN: usize = 17;

/// Bytes of the header and the name field together.
pub const PREFIX_LEN: usize = 145;

/// The optional four-byte marker that may open a message.
pub open spec fn magic() -> Seq<u8> {
    seq![0x49u8, 0x68u8, 0x67u8, 0x1cu8]
}

/// A count as the wire holds it: its low 32 bits.
pub open spec fn wire_u32(v: int) -> u32 {
    (v % 0x1_0000_0000) as u32
}

/// Four little-endian bytes.
pub open spec fn le4(v: u32) -> Seq<u8> {
    spec_u32_to_le_bytes(v)
}

/// The little-endian bytes of a sequence of 32-bit words, one after another.
pub open spec fn words_le(w: Seq<u32>) -> Seq<u8>
    decreases w.len(),
{
    if w.len() == 0 {
        Seq::empty()
    } else {
        words_le(w.drop_last()) + le4(w.last())
    }
}

/// The 32-bit words read from consecutive groups of four little-endian bytes.
pub open spec fn words_of(b: Seq<u8>) -> Seq<u32> {
    Seq::new(b.len() / 4, |i: int| spec_u32_from_le_bytes(b.subrange(4 * i, 4 * i + 4)))
}

/// The element-type byte that the encoder writes.
pub open spec fn type_tag(t: NpArrayDataType) -> u8 {
    match t {
        NpArrayDataType::U8 => 0,
        NpArrayDataType::F32 => 1,
    }
}

/// The element type that an element-type byte stands for.
pub open spec fn tag_type(tag: u8) -> NpArrayDataType {
    if tag == 0 {
        NpArrayDataType::U8
    } else {
        NpArrayDataType::F32
    }
}

/// The payload bytes the encoder writes: none for the shape `[1, 1, 1]`,
/// else the elements in order, in their wire width.
pub open spec fn payload_bytes(a: ArrayView) -> Seq<u8> {
    if is_unit_shape(a.shape()) {
        Seq::empty()
    } else {
        match a {
            ArrayView::U8(g) => g.data,
            ArrayView::F32(g) => words_le(g.data),
        }
    }
}

/// The header the encoder writes: marker, payload length, the dimension
/// fields in the order `s1, s0, s2`, and the element-type byte.
pub open spec fn encoded_header(m: NpArrayView) -> Seq<u8> {
    let s = m.array.shape();
    magic() + le4(wire_u32(payload_bytes(m.array).len() as int)) + le4(wire_u32(s[1] as int))
        + le4(wire_u32(s[0] as int)) + le4(wire_u32(s[2] as int)) + seq![type_tag(m.array.data_type())]
}

/// The whole message that the encoder writes for an entity with an ASCII name.
pub open spec fn encoded(m: NpArrayView) -> Seq<u8> {
    encoded_header(m) + name_field(m.name) + payload_bytes(m.array)
}

/// The failures of the codec.
#[derive(Clone, Copy, PartialEq, Eq, Debug, Structural)]
pub enum CodecError {
    /// The input ends before the message does; more bytes may complete it.
    IncompleteInput,
    /// The name to encode holds a character that is not ASCII.
    InvalidEncoding,
    /// A field of the message breaks the format.
    MalformedField,
}

/// Where the header starts: after the marker if the input opens with it.
pub open spec fn header_start(b: Seq<u8>) -> int {
    if b.len() >= 4 && b.subrange(0, 4) == magic() {
        4
    } else {
        0
    }
}

/// The 32-bit field at offset `off`.
pub open spec fn field_at(b: Seq<u8>, off: int) -> u32 {
    spec_u32_from_le_bytes(b.subrange(off, off + 4))
}

/// The payload length field of a message whose header starts at `p`.
pub open spec fn payload_len_at(b: Seq<u8>, p: int) -> u32 {
    field_at(b, p)
}

/// The element type of a message whose header starts at `p`.
pub open spec fn type_at(b: Seq<u8>, p: int) -> NpArrayDataType {
    tag_type(b[p + 16])
}

/// The shape held in the dimension fields: `[dim_q, dim_p, dim_r]`.
pub open spec fn shape_at(b: Seq<u8>, p: int) -> Seq<usize> {
    seq![field_at(b, p + 8) as usize, field_at(b, p + 4) as usize, field_at(b, p + 12) as usize]
}

/// A non-negative 32-bit signed value.
pub open spec fn non_negative(v: u32) -> bool {
    v < 0x8000_0000
}

/// The header and name field that start at `p` obey the format: the lengths
/// are not negative, the payload is a whole number of elements, a payload
/// fills the shape exactly, and the name is ASCII.
pub open spec fn header_ok(b: Seq<u8>, p: int) -> bool {
    let len = payload_len_at(b, p) as int;
    let size = type_at(b, p).spec_data_size() as int;
    &&& len < 0x8000_0000
    &&& len % size == 0
    &&& len > 0 ==> {
        &&& non_negative(field_at(b, p + 4))
        &&& non_negative(field_at(b, p + 8))
        &&& non_negative(field_at(b, p + 12))
        &&& field_at(b, p + 8) as int * field_at(b, p + 4) as int * field_at(b, p + 12) as int
            == len / size
    }
    &&& bytes_are_ascii(b.subrange(p + HEADER_LEN, p + PREFIX_LEN))
}

/// The array of a well-formed message whose header starts at `p`: the
/// payload read in the shape of the header, or an empty `[0, 0, 0]` array
/// when the payload length is 0.
pub open spec fn array_at(b: Seq<u8>, p: int) -> ArrayView {
    let len = payload_len_at(b, p) as int;
    let raw = b.subrange(p + PREFIX_LEN, p + PREFIX_LEN + len);
    let shape = if len == 0 {
        seq![0usize, 0usize, 0usize]
    } else {
        shape_at(b, p)
    };
    match type_at(b, p) {
        NpArrayDataType::U8 => ArrayView::U8(GridView { shape, data: raw }),
        NpArrayDataType::F32 => ArrayView::F32(GridView { shape, data: words_of(raw) }),
    }
}

/// What decoding `b` gives: the entity and the number of bytes it took, or
/// the failure.
pub open spec fn decode(b: Seq<u8>) -> Result<(NpArrayView, int), CodecError> {
    let p = header_start(b);
    if b.len() < p + PREFIX_LEN {
        Err(CodecError::IncompleteInput)
    } else if !header_ok(b, p) {
        Err(CodecError::MalformedField)
    } else if b.len() < p + PREFIX_LEN + payload_len_at(b, p) {
        Err(CodecError::IncompleteInput)
    } else {
        let name = field_name(b.subrange(p + HEADER_LEN, p + PREFIX_LEN));
        Ok((
            NpArrayView { name, array: array_at(b, p), time_id: 0 },
            p + PREFIX_LEN + payload_len_at(b, p),
        ))
    }
}

} // verus!

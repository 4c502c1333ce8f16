//! Encoding an entity into a message and decoding a message back.
use vstd::prelude::*;
use vstd::bytes::{u32_from_le_bytes, u32_to_le_bytes};
use vstd::slice::{slice_subrange, slice_to_vec};
use crate::model::{Grid, NpArrayD, NpArrayData, NpArrayDataType};
use crate::name::{NAME_LEN, ascii_trimmed, chars_are_ascii, encode_name};
use crate::wire::{
    CodecError, HEADER_LEN, PREFIX_LEN, decode, encoded, header_start, le4, magic,
    wire_u32, words_le, words_of,
};

verus! {

/// The low 32 bits of a count, as the wire holds it.
fn to_wire(v: usize) -> (r: u32)
    ensures
        r == wire_u32(v as int),
{
    ((v as u64) % 0x1_0000_0000u64) as u32
}

/// Appends the four little-endian bytes of `v`.
fn push_le4(out: &mut Vec<u8>, v: u32)
    ensures
        final(out)@ == old(out)@ + le4(v),
{
    let mut b = u32_to_le_bytes(v);
    out.append(&mut b);
}

/// The little-endian bytes of each word, one after another.
pub fn words_to_le(w: &Vec<u32>) -> (r: Vec<u8>)
    ensures
        r@ == words_le(w@),
{
    let mut out: Vec<u8> = Vec::new();
    let mut i: usize = 0;
    while i < w.len()
        invariant
            i <= w@.len(),
            out@ == words_le(w@.subrange(0, i as int)),
        decreases w@.len() - i,
    {
        push_le4(&mut out, w[i]);
        assert(w@.subrange(0, i + 1).drop_last() =~= w@.subrange(0, i as int));
        i = i + 1;
    }
    assert(w@.subrange(0, i as int) =~= w@);
    out
}

/// The words read from consecutive groups of four little-endian bytes; a
/// short group at the end is left out.
pub fn words_from_le(raw: &[u8]) -> (r: Vec<u32>)
    ensures
        r@ == words_of(raw@),
{
    let total: usize = raw.len();
    let n: usize = total / 4;
    let mut out: Vec<u32> = Vec::new();
    let mut i: usize = 0;
    while i < n
        invariant
            total == raw@.len(),
            n == raw@.len() / 4,
            i <= n,
            out@ =~= words_of(raw@).subrange(0, i as int),
        decreases n - i,
    {
        assert(4 * i + 4 <= raw@.len()) by (nonlinear_arith)
            requires
                i < n,
                n == raw@.len() / 4,
        ;
        let x = u32_from_le_bytes(slice_subrange(raw, 4 * i, 4 * i + 4));
        out.push(x);
        i = i + 1;
    }
    out
}

/// Reads the 32-bit field at `off`.
fn read_u32(b: &[u8], off: usize) -> (r: u32)
    requires
        off + 4 <= b.len(),
    ensures
        r == crate::wire::field_at(b@, off as int),
{
    u32_from_le_bytes(slice_subrange(b, off, off + 4))
}

impl NpArrayD {
    /// Encodes the entity: the marker, the header, the name padded with
    /// spaces to its width, and the payload (left out for the shape
    /// `[1, 1, 1]`). Fails only when the name is not ASCII; the time is not
    /// written.
    pub fn pack_msg(&self) -> (r: Result<Vec<u8>, CodecError>)
        requires
            self.unique_name@.len() <= NAME_LEN,
        ensures
            match r {
                Ok(b) => chars_are_ascii(self.unique_name@) && b@ == encoded(self@),
                Err(e) => !chars_are_ascii(self.unique_name@) && e == CodecError::InvalidEncoding,
            },
    {
        let name_field = match encode_name(self.unique_name.as_str()) {
            Some(f) => f,
            None => {
                return Err(CodecError::InvalidEncoding);
            },
        };
        let mut payload: Vec<u8> = if self.array_data.shape_is_1() {
            Vec::new()
        } else {
            match &self.array_data {
                NpArrayData::U8(g) => slice_to_vec(g.data.as_slice()),
                NpArrayData::F32(g) => words_to_le(&g.data),
            }
        };
        let shape = self.array_data.shape();
        let tag: u8 = match self.array_data.data_type() {
            NpArrayDataType::U8 => 0,
            NpArrayDataType::F32 => 1,
        };
        let mut out: Vec<u8> = Vec::new();
        out.push(0x49u8);
        out.push(0x68u8);
        out.push(0x67u8);
        out.push(0x1cu8);
        assert(out@ =~= magic());
        push_le4(&mut out, to_wire(payload.len()));
        push_le4(&mut out, to_wire(shape[1]));
        push_le4(&mut out, to_wire(shape[0]));
        push_le4(&mut out, to_wire(shape[2]));
        out.push(tag);
        let mut name_field = name_field;
        out.append(&mut name_field);
        out.append(&mut payload);
        assert(out@ =~= encoded(self@));
        Ok(out)
    }

    /// Decodes one message from the front of `msg` and returns what follows
    /// it. The marker is skipped when it is there and is not required; the
    /// name loses its trailing whitespace; a zero payload length gives an
    /// empty `[0, 0, 0]` array; the time is 0.
    pub fn try_from_msg(msg: &[u8]) -> (r: Result<(&[u8], NpArrayD), CodecError>)
        ensures
            match decode(msg@) {
                Ok((v, used)) => r matches Ok((rest, m)) && m@ == v && rest@ == msg@.subrange(
                    used,
                    msg@.len() as int,
                ),
                Err(e) => r == Err::<(&[u8], NpArrayD), CodecError>(e),
            },
            r matches Ok((rest, m)) ==> m@.array.wf(),
    {
        let n = msg.len();
        let p: usize = if n >= 4 && msg[0] == 0x49u8 && msg[1] == 0x68u8 && msg[2] == 0x67u8
            && msg[3] == 0x1cu8 {
            assert(msg@.subrange(0, 4) =~= magic());
            4
        } else {
            assert(n >= 4 ==> msg@.subrange(0, 4)[0] == msg@[0]);
            assert(n >= 4 ==> msg@.subrange(0, 4)[1] == msg@[1]);
            assert(n >= 4 ==> msg@.subrange(0, 4)[2] == msg@[2]);
            assert(n >= 4 ==> msg@.subrange(0, 4)[3] == msg@[3]);
            0
        };
        assert(p == header_start(msg@));
        if n < p + PREFIX_LEN {
            return Err(CodecError::IncompleteInput);
        }
        let len = read_u32(msg, p);
        let dim_p = read_u32(msg, p + 4);
        let dim_q = read_u32(msg, p + 8);
        let dim_r = read_u32(msg, p + 12);
        let dt = if msg[p + 16] == 0 {
            NpArrayDataType::U8
        } else {
            NpArrayDataType::F32
        };
        let size = dt.data_size() as u32;
        if len >= 0x8000_0000 || len % size != 0 {
            return Err(CodecError::MalformedField);
        }
        if len > 0 {
            if dim_p >= 0x8000_0000 || dim_q >= 0x8000_0000 || dim_r >= 0x8000_0000 {
                return Err(CodecError::MalformedField);
            }
            assert(dim_q * dim_p <= 0x8000_0000 * 0x8000_0000) by (nonlinear_arith)
                requires
                    dim_p < 0x8000_0000,
                    dim_q < 0x8000_0000,
            ;
            let qp: u128 = (dim_q as u128) * (dim_p as u128);
            assert(qp * dim_r <= 0x8000_0000 * 0x8000_0000 * 0x8000_0000) by (nonlinear_arith)
                requires
                    qp == dim_q * dim_p,
                    dim_p < 0x8000_0000,
                    dim_q < 0x8000_0000,
                    dim_r < 0x8000_0000,
            ;
            if qp * (dim_r as u128) != ((len / size) as u128) {
                return Err(CodecError::MalformedField);
            }
        }
        let name = match ascii_trimmed(slice_subrange(msg, p + HEADER_LEN, p + PREFIX_LEN)) {
            Some(s) => s,
            None => {
                return Err(CodecError::MalformedField);
            },
        };
        let len = len as usize;
        if n - (p + PREFIX_LEN) < len {
            return Err(CodecError::IncompleteInput);
        }
        let end = p + PREFIX_LEN + len;
        let raw = slice_subrange(msg, p + PREFIX_LEN, end);
        let shape: [usize; 3] = if len == 0 {
            [0, 0, 0]
        } else {
            [dim_q as usize, dim_p as usize, dim_r as usize]
        };
        let array_data = match dt {
            NpArrayDataType::U8 => NpArrayData::U8(Grid { shape, data: slice_to_vec(raw) }),
            NpArrayDataType::F32 => NpArrayData::F32(Grid { shape, data: words_from_le(raw) }),
        };
        let m = NpArrayD::new(name, array_data);
        assert(m@.array == crate::wire::array_at(msg@, p as int));
        assert(m@.array.wf()) by {
            if len > 0 {
                assert(m@.array.shape() =~= crate::wire::shape_at(msg@, p as int));
            }
        }
        Ok((slice_subrange(msg, end, n), m))
    }
}

} // verus!

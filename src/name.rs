//! The fixed-width name field: ASCII bytes padded with spaces, read back
//! with trailing whitespace removed.
use vstd::prelude::*;
use ascii::AsAsciiStr;

verus! {

/// Width of the name field on the wire.
pub const NAME_LEN: usize = 128;

/// Every byte is below 128.
pub open spec fn bytes_are_ascii(s: Seq<u8>) -> bool {
    forall|i: int| 0 <= i < s.len() ==> s[i] < 128
}

/// Every character is below U+0080.
pub open spec fn chars_are_ascii(s: Seq<char>) -> bool {
    forall|i: int| 0 <= i < s.len() ==> (s[i] as nat) < 128
}

/// The single-byte encoding of ASCII characters.
pub open spec fn ascii_bytes(s: Seq<char>) -> Seq<u8> {
    s.map_values(|c: char| c as u8)
}

/// The characters of ASCII bytes.
pub open spec fn ascii_chars(s: Seq<u8>) -> Seq<char> {
    s.map_values(|b: u8| b as char)
}

/// Space, tab, line feed, vertical tab, form feed and carriage return.
pub open spec fn is_ascii_whitespace(b: u8) -> bool {
    b == 32 || (9 <= b && b <= 13)
}

/// The bytes without their trailing whitespace.
pub open spec fn trim_end(s: Seq<u8>) -> Seq<u8>
    decreases s.len(),
{
    if s.len() > 0 && is_ascii_whitespace(s.last()) {
        trim_end(s.drop_last())
    } else {
        s
    }
}

/// The name field that holds `name`: its bytes, then spaces up to the width.
pub open spec fn name_field(name: Seq<char>) -> Seq<u8> {
    ascii_bytes(name) + Seq::new((NAME_LEN - name.len()) as nat, |i: int| 32u8)
}

/// The name read from a name field.
pub open spec fn field_name(field: Seq<u8>) -> Seq<char> {
    ascii_chars(trim_end(field))
}

/// Relies on `ascii::AsAsciiStr::as_ascii_str` for `str`, which succeeds
/// exactly when every byte of the string is ASCII, and on
/// `AsciiStr::as_bytes`, which gives those bytes back.
#[verifier::external_body]
fn ascii_str_bytes(s: &str) -> (r: Option<Vec<u8>>)
    ensures
        r is Some <==> chars_are_ascii(s@),
        r matches Some(b) ==> b@ == ascii_bytes(s@),
{
    match s.as_ascii_str() {
        Ok(a) => Some(a.as_bytes().to_vec()),
        Err(_) => None,
    }
}

/// Relies on `ascii::AsAsciiStr::as_ascii_str` for `[u8]`, which succeeds
/// exactly when every byte is below 128, on `AsciiStr::trim_end`, which drops
/// the trailing bytes that `AsciiChar::is_whitespace` accepts (space, tab,
/// line feed, vertical tab, form feed, carriage return), and on its
/// `to_string`.
#[verifier::external_body]
pub(crate) fn ascii_trimmed(raw: &[u8]) -> (r: Option<String>)
    ensures
        r is Some <==> bytes_are_ascii(raw@),
        r matches Some(s) ==> s@ == field_name(raw@),
{
    match raw.as_ascii_str() {
        Ok(a) => Some(a.trim_end().to_string()),
        Err(_) => None,
    }
}

/// Builds the name field for `name`, or `None` when the name is not ASCII.
pub fn encode_name(name: &str) -> (r: Option<Vec<u8>>)
    requires
        name@.len() <= NAME_LEN,
    ensures
        r is Some <==> chars_are_ascii(name@),
        r matches Some(f) ==> f@ == name_field(name@),
{
    match ascii_str_bytes(name) {
        None => None,
        Some(mut bytes) => {
            let n: usize = bytes.len();
            let mut i: usize = n;
            while i < NAME_LEN
                invariant
                    n == name@.len(),
                    n <= i <= NAME_LEN,
                    bytes@ == ascii_bytes(name@) + Seq::new((i - n) as nat, |k: int| 32u8),
                decreases NAME_LEN - i,
            {
                bytes.push(32u8);
                i = i + 1;
                assert(bytes@ =~= ascii_bytes(name@) + Seq::new((i - n) as nat, |k: int| 32u8));
            }
            Some(bytes)
        },
    }
}

} // verus!

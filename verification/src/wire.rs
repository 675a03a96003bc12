//! Integers and strings as they travel: little endian, strings behind their length.
use byteorder::{LittleEndian, ReadBytesExt, WriteBytesExt};
use vstd::prelude::*;
use vstd::utf8::*;

verus! {

/// The number that four bytes stand for, least significant byte first.
pub open spec fn le_u32(bytes: Seq<u8>) -> u32
    recommends
        bytes.len() == 4,
{
    (bytes[0] + 0x100 * bytes[1] + 0x1_0000 * bytes[2] + 0x100_0000 * bytes[3]) as u32
}

/// The four bytes of a number, least significant byte first.
pub open spec fn le_bytes(n: u32) -> Seq<u8> {
    seq![
        (n % 0x100) as u8,
        (n / 0x100 % 0x100) as u8,
        (n / 0x1_0000 % 0x100) as u8,
        (n / 0x100_0000) as u8,
    ]
}

/// Bytes behind their number.
pub open spec fn block_bytes(body: Seq<u8>) -> Seq<u8> {
    le_bytes(body.len() as u32) + body
}

/// A string on the wire: the number of its UTF-8 bytes, then those bytes.
pub open spec fn str_bytes(text: Seq<char>) -> Seq<u8> {
    block_bytes(encode_utf8(text))
}

/// Writing a number and reading the four bytes gives the number back.
pub proof fn law_u32_read_of_write(n: u32)
    ensures
        le_bytes(n).len() == 4,
        le_u32(le_bytes(n)) == n,
{
}

/// Reading four bytes and writing the number gives the four bytes back.
pub proof fn law_u32_write_of_read(bytes: Seq<u8>)
    requires
        bytes.len() == 4,
    ensures
        le_bytes(le_u32(bytes)) == bytes,
{
    let n = le_u32(bytes) as int;
    let (a, b, c, d) = (bytes[0] as int, bytes[1] as int, bytes[2] as int, bytes[3] as int);
    assert(n == a + 0x100 * b + 0x1_0000 * c + 0x100_0000 * d);
    assert(n % 0x100 == a);
    assert(n / 0x100 == b + 0x100 * c + 0x1_0000 * d);
    assert(n / 0x1_0000 == c + 0x100 * d);
    assert(n / 0x100_0000 == d);
    assert((b + 0x100 * c + 0x1_0000 * d) % 0x100 == b);
    assert((c + 0x100 * d) % 0x100 == c);
    let written = le_bytes(le_u32(bytes));
    assert(written[0] == bytes[0]);
    assert(written[1] == bytes[1]);
    assert(written[2] == bytes[2]);
    assert(written[3] == bytes[3]);
    assert(written =~= bytes);
}

/// `byteorder::ReadBytesExt::read_u32::<LittleEndian>` on a byte slice: the number
/// that the first four bytes stand for, and no number when there are fewer than four.
#[verifier::external_body]
pub(crate) fn read_u32(bytes: &[u8]) -> (n: Option<u32>)
    ensures
        n == (if bytes@.len() < 4 { None } else { Some(le_u32(bytes@.take(4))) }),
{
    let mut source: &[u8] = bytes;
    source.read_u32::<LittleEndian>().ok()
}

/// `byteorder::WriteBytesExt::write_u32::<LittleEndian>` into a vector, which never
/// refuses a write: the four bytes of the number come after what was there.
#[verifier::external_body]
pub(crate) fn write_u32(out: &mut Vec<u8>, n: u32)
    ensures
        final(out)@ == old(out)@ + le_bytes(n),
{
    out.write_u32::<LittleEndian>(n).unwrap()
}

/// `byteorder::WriteBytesExt::write_u8` into a vector, which never refuses a write:
/// the byte comes after what was there.
#[verifier::external_body]
pub(crate) fn write_u8(out: &mut Vec<u8>, n: u8)
    ensures
        final(out)@ == old(out)@.push(n),
{
    out.write_u8(n).unwrap()
}

/// `String::from_utf8`: the text that the bytes encode, and none when they are not
/// valid UTF-8.
#[verifier::external_body]
pub(crate) fn string_from_utf8(bytes: Vec<u8>) -> (text: Option<String>)
    ensures
        text is Some <==> valid_utf8(bytes@),
        text matches Some(t) ==> t@ == decode_utf8(bytes@),
{
    String::from_utf8(bytes).ok()
}

/// Appends a slice of bytes.
pub(crate) fn write_all(out: &mut Vec<u8>, bytes: &[u8])
    ensures
        final(out)@ == old(out)@ + bytes@,
{
    out.extend_from_slice(bytes);
    assert(out@ =~= old(out)@ + bytes@);
}

/// Appends bytes behind their number.
pub(crate) fn write_block(out: &mut Vec<u8>, body: &[u8])
    ensures
        final(out)@ == old(out)@ + block_bytes(body@),
{
    write_u32(out, body.len() as u32);
    write_all(out, body);
    assert(out@ =~= old(out)@ + block_bytes(body@));
}

/// Appends a string: the number of its UTF-8 bytes, then those bytes.
pub fn encode_str(value: &str, out: &mut Vec<u8>)
    ensures
        final(out)@ == old(out)@ + str_bytes(value@),
{
    write_block(out, value.as_bytes());
}

} // verus!

//! Numbers, blocks and strings on the wire, and the bytes that have come in.
use crate::stream::ByteStream;
use crate::wire;
use vstd::prelude::*;
use vstd::utf8::*;

verus! {

/// A number is four bytes, the least significant first.
pub proof fn law_number_on_the_wire(n: u32)
    ensures
        ({
            let bytes = wire::le_bytes(n);
            &&& bytes.len() == 4
            &&& bytes[0] + 0x100 * bytes[1] + 0x1_0000 * bytes[2] + 0x100_0000 * bytes[3] == n
        }),
{
}

/// Four bytes stand for a number, the least significant first.
pub proof fn law_number_from_the_wire(bytes: Seq<u8>)
    requires
        bytes.len() == 4,
    ensures
        wire::le_u32(bytes) == bytes[0] + 0x100 * bytes[1] + 0x1_0000 * bytes[2] + 0x100_0000
            * bytes[3],
{
}

/// A block is its contents behind their number, as long as that can be written down.
pub proof fn law_block_on_the_wire(body: Seq<u8>)
    ensures
        ({
            let block = wire::block_bytes(body);
            &&& block.len() == 4 + body.len()
            &&& block.skip(4) == body
            &&& body.len() <= u32::MAX ==> block[0] + 0x100 * block[1] + 0x1_0000 * block[2]
                + 0x100_0000 * block[3] == body.len()
        }),
{
    law_number_on_the_wire(body.len() as u32);
    assert(wire::block_bytes(body).skip(4) =~= body);
}

/// A string is written as its UTF-8 bytes behind their number, and comes after what was
/// there.
pub proof fn law_string_on_the_wire(value: &str, out: &mut Vec<u8>)
    requires
        call_ensures(wire::encode_str, (value, out), ()),
    ensures
        ({
            let (before, after) = (old(out)@, final(out)@);
            let text = encode_utf8(value@);
            let written = after.skip(before.len() as int);
            &&& after.len() == before.len() + 4 + text.len()
            &&& after.take(before.len() as int) == before
            &&& written.skip(4) == text
            &&& text.len() <= u32::MAX ==> written[0] + 0x100 * written[1] + 0x1_0000 * written[2]
                + 0x100_0000 * written[3] == text.len()
        }),
{
    let (before, after) = (old(out)@, final(out)@);
    law_block_on_the_wire(encode_utf8(value@));
    assert(after.take(before.len() as int) =~= before);
    assert(after.skip(before.len() as int) =~= wire::block_bytes(encode_utf8(value@)));
}

/// What is put into a stream can be read from it, and its length is the number of bytes.
pub proof fn law_stream_holds_what_came(bytes: Vec<u8>, stream: ByteStream, unread: Vec<u8>, n: usize)
    requires
        call_ensures(ByteStream::new, (bytes,), stream),
        call_ensures(ByteStream::unread, (&stream,), unread),
        call_ensures(ByteStream::len, (&stream,), n),
    ensures
        unread@ == bytes@,
        n == bytes@.len(),
{
}

/// What arrives comes behind what was left to read.
pub proof fn law_stream_grows_at_its_end(
    stream: &mut ByteStream,
    arrived: &[u8],
    before: Vec<u8>,
    after: Vec<u8>,
)
    requires
        call_ensures(ByteStream::unread, (&*old(stream),), before),
        call_ensures(ByteStream::extend, (stream, arrived), ()),
        call_ensures(ByteStream::unread, (&*final(stream),), after),
    ensures
        after@ == before@ + arrived@,
{
}

/// What is missing are first the four bytes of the length and then the bytes that the
/// length announces, as far as they have not come.
pub proof fn law_missing_bytes(stream: &ByteStream, n: usize)
    requires
        call_ensures(ByteStream::missing, (stream,), n),
    ensures
        ({
            let input = stream@;
            let length = input[0] + 0x100 * input[1] + 0x1_0000 * input[2] + 0x100_0000 * input[3];
            if input.len() < 4 {
                n == 4 - input.len()
            } else if 4 + length <= input.len() {
                n == 0
            } else {
                input.len() + n == 4 + length
            }
        }),
{
    if stream@.len() >= 4 {
        law_number_from_the_wire(stream@.take(4));
    }
}

} // verus!

//! Connection headers: what is written, what is read, and what is found in them.
use crate::error::{ErrorKind, ErrorKindView};
use crate::header;
use crate::header::{HeaderFields, Row};
use crate::laws::transport;
use crate::stream::ByteStream;
use crate::wire;
use vstd::prelude::*;
use vstd::utf8::*;

verus! {

/// Where nothing has been put in, nothing is found.
pub proof fn law_no_fields(fields: HeaderFields, name: &str, value: Option<&String>)
    requires
        call_ensures(HeaderFields::new, (), fields),
        call_ensures(HeaderFields::get, (&fields, name), value),
    ensures
        value is None,
{
}

/// A field that has been put in is found with its value, and every other field is found
/// as it was.
pub proof fn law_field_found_as_put_in(
    fields: &mut HeaderFields,
    name: String,
    value: String,
    other: &str,
    before: Option<&String>,
    after: Option<&String>,
)
    requires
        call_ensures(HeaderFields::get, (&*old(fields), other), before),
        call_ensures(HeaderFields::insert, (fields, name, value), ()),
        call_ensures(HeaderFields::get, (&*final(fields), other), after),
    ensures
        other@ == name@ ==> (after matches Some(found) && found@ == value@),
        other@ != name@ ==> match (before, after) {
            (Some(was), Some(is_now)) => is_now@ == was@,
            (None, None) => true,
            _ => false,
        },
{
}

/// A field is sent where it was first put in, with the value that it was last given, and
/// the other fields are sent as before.
pub proof fn law_fields_sent_in_order(fields: &mut HeaderFields, name: String, value: String)
    requires
        call_ensures(HeaderFields::insert, (fields, name, value), ()),
    ensures
        ({
            let (before, after) = (old(fields).rows(), final(fields).rows());
            &&& (forall|i: int| 0 <= i < before.len() ==> (#[trigger] before[i]).0 != name@)
                ==> after == before.push((name@, value@))
            &&& forall|i: int|
                0 <= i < before.len() && (#[trigger] before[i]).0 == name@ ==> after
                    == before.update(i, (name@, value@))
        }),
{
    let before = old(fields).rows();
    law_last_row_counts(before, name@);
}

/// A field has to be found, and with the value that it must have.
pub proof fn law_field_matches(
    fields: &HeaderFields,
    field: &str,
    expected: &str,
    value: Option<&String>,
    result: Result<(), ErrorKind>,
)
    requires
        call_ensures(HeaderFields::get, (fields, field), value),
        call_ensures(header::match_field, (fields, field, expected), result),
    ensures
        match value {
            None => result matches Err(ErrorKind::HeaderMissingField(name)) && name@ == field@,
            Some(actual) => if actual@ == expected@ {
                result is Ok
            } else {
                result matches Err(
                    ErrorKind::HeaderMismatch { field: name, expected: wanted, actual: found },
                ) && name@ == field@ && wanted@ == expected@ && found@ == actual@
            },
        },
{
}

/// Of rows with the same name the last counts, and what no row names is not there.
pub proof fn law_last_row_counts(rows: Seq<Row>, name: Seq<char>)
    ensures
        ({
            let fields = header::with_rows(Map::empty(), rows);
            &&& forall|i: int|
                0 <= i < rows.len() && (#[trigger] rows[i]).0 == name && (forall|j: int|
                    i < j < rows.len() ==> (#[trigger] rows[j]).0 != name) ==> fields.contains_key(
                    name,
                ) && fields[name] == rows[i].1
            &&& (forall|i: int| 0 <= i < rows.len() ==> (#[trigger] rows[i]).0 != name)
                ==> !fields.contains_key(name)
        }),
    decreases rows.len(),
{
    let fields = header::with_rows(Map::empty(), rows);
    if rows.len() > 0 {
        let (earlier, last) = (rows.drop_last(), rows.last());
        assert(rows =~= earlier.push(last));
        header::lemma_rows_push(Map::empty(), earlier, last);
        law_last_row_counts(earlier, name);
        let known = header::with_rows(Map::empty(), earlier);
        assert(last == rows[rows.len() - 1]);
        assert forall|i: int|
            0 <= i < rows.len() && (#[trigger] rows[i]).0 == name && (forall|j: int|
                i < j < rows.len() ==> (#[trigger] rows[j]).0 != name) implies fields.contains_key(
            name,
        ) && fields[name] == rows[i].1 by {
            if i < rows.len() - 1 {
                assert(earlier[i].0 == name);
                assert forall|j: int| i < j < earlier.len() implies (#[trigger] earlier[j]).0
                    != name by {
                    assert(rows[j].0 != name);
                }
                assert(rows[rows.len() - 1].0 != name);
            }
        }
        if forall|i: int| 0 <= i < rows.len() ==> (#[trigger] rows[i]).0 != name {
            assert forall|i: int| 0 <= i < earlier.len() implies (#[trigger] earlier[i]).0
                != name by {
                assert(rows[i].0 != name);
            }
            assert(rows[rows.len() - 1].0 != name);
        }
    }
}

/// A row on the wire is the number of its bytes, then its name, the byte of `=`, and its
/// value, in UTF-8.
pub proof fn law_row_on_the_wire(row: Row)
    ensures
        ({
            let bytes = header::rows_bytes(seq![row]);
            let (name, value) = (encode_utf8(row.0), encode_utf8(row.1));
            let n = name.len() + 1 + value.len();
            &&& bytes.len() == 4 + n
            &&& n <= u32::MAX ==> bytes[0] + 0x100 * bytes[1] + 0x1_0000 * bytes[2] + 0x100_0000
                * bytes[3] == n
            &&& bytes.subrange(4, 4 + name.len() as int) == name
            &&& bytes[4 + name.len() as int] == 0x3d
            &&& bytes.skip(5 + name.len() as int) == value
        }),
{
    let (name, value) = (encode_utf8(row.0), encode_utf8(row.1));
    let bytes = header::rows_bytes(seq![row]);
    header::lemma_encode_row_text(row);
    let text = encode_utf8(header::row_text(row));
    transport::law_block_on_the_wire(text);
    reveal_with_fuel(header::rows_bytes, 2);
    assert(seq![row].drop_first() =~= seq![]);
    assert(bytes =~= wire::block_bytes(text));
    assert(bytes.subrange(4, 4 + name.len() as int) =~= name);
    assert(bytes.skip(5 + name.len() as int) =~= value);
}

/// Rows follow each other on the wire without anything between them.
pub proof fn law_rows_on_the_wire(rows: Seq<Row>, more: Seq<Row>)
    ensures
        header::rows_bytes(Seq::<Row>::empty()) == Seq::<u8>::empty(),
        header::rows_bytes(rows + more) == header::rows_bytes(rows) + header::rows_bytes(more),
    decreases rows.len(),
{
    if rows.len() == 0 {
        assert(rows + more =~= more);
        assert(header::rows_bytes(rows + more) =~= header::rows_bytes(rows) + header::rows_bytes(
            more,
        ));
    } else {
        law_rows_on_the_wire(rows.drop_first(), more);
        assert((rows + more).drop_first() =~= rows.drop_first() + more);
        assert(header::rows_bytes(rows + more) =~= header::rows_bytes(rows) + header::rows_bytes(
            more,
        ));
    }
}

/// A header is written as the number of bytes of its rows and then the rows, and comes
/// after what was there.
pub proof fn law_header_on_the_wire(fields: &HeaderFields, out: &mut Vec<u8>)
    requires
        call_ensures(header::encode, (fields, out), ()),
    ensures
        ({
            let (before, after) = (old(out)@, final(out)@);
            let rows = header::rows_bytes(fields.rows());
            let written = after.skip(before.len() as int);
            &&& after.len() == before.len() + 4 + rows.len()
            &&& after.take(before.len() as int) == before
            &&& written.skip(4) == rows
            &&& rows.len() <= u32::MAX ==> written[0] + 0x100 * written[1] + 0x1_0000 * written[2]
                + 0x100_0000 * written[3] == rows.len()
        }),
{
    let (before, after) = (old(out)@, final(out)@);
    transport::law_block_on_the_wire(header::rows_bytes(fields.rows()));
    assert(after.take(before.len() as int) =~= before);
    assert(after.skip(before.len() as int) =~= header::header_bytes(fields.rows()));
}

/// A row that stands at the start of the input is read as the name before its first `=`
/// and the value behind it, and reading goes on behind the row.
pub proof fn law_row_is_read(
    input: Seq<u8>,
    name: Seq<char>,
    value: Seq<char>,
    fields: Map<Seq<char>, Seq<char>>,
)
    requires
        !name.contains('='),
        ({
            let n = encode_utf8(name + seq!['='] + value).len() as int;
            &&& 4 + n <= input.len()
            &&& input[0] + 0x100 * input[1] + 0x1_0000 * input[2] + 0x100_0000 * input[3] == n
            &&& input.subrange(4, 4 + n) == encode_utf8(name + seq!['='] + value)
        }),
    ensures
        header::read_rows(input, fields) == header::read_rows(
            input.skip(4 + encode_utf8(name + seq!['='] + value).len() as int),
            fields.insert(name, value),
        ),
{
    transport::law_number_from_the_wire(input.take(4));
    encode_utf8_valid_utf8(name + seq!['='] + value);
    header::lemma_split_row_text((name, value));
}

/// A row without a `=` spoils the header.
pub proof fn law_row_without_separator(
    input: Seq<u8>,
    text: Seq<char>,
    fields: Map<Seq<char>, Seq<char>>,
)
    requires
        !text.contains('='),
        4 + encode_utf8(text).len() <= input.len(),
        input[0] + 0x100 * input[1] + 0x1_0000 * input[2] + 0x100_0000 * input[3] == encode_utf8(
            text,
        ).len(),
        input.subrange(4, 4 + encode_utf8(text).len() as int) == encode_utf8(text),
    ensures
        header::read_rows(input, fields) is None,
{
    transport::law_number_from_the_wire(input.take(4));
    encode_utf8_valid_utf8(text);
    assert forall|j: int| 0 <= j < encode_utf8(text).len() implies #[trigger] encode_utf8(text)[j]
        != header::SEPARATOR by {
        header::lemma_no_separator(text, j);
    }
    header::lemma_no_separator_index(encode_utf8(text));
}

/// Reading ends, with the fields that have been read, where no whole string in UTF-8
/// stands.
pub proof fn law_rows_end(input: Seq<u8>, fields: Map<Seq<char>, Seq<char>>)
    requires
        input.len() >= 4 ==> ({
            let n = input[0] + 0x100 * input[1] + 0x1_0000 * input[2] + 0x100_0000 * input[3];
            4 + n > input.len() || !valid_utf8(input.subrange(4, 4 + n))
        }),
    ensures
        header::read_rows(input, fields) == Some(fields),
{
    if input.len() >= 4 {
        transport::law_number_from_the_wire(input.take(4));
    }
}

/// A header is read from the bytes behind its length, as many as that announces or as
/// are there, and what comes behind them stays. Without a length it is cut short.
pub proof fn law_header_is_read(stream: &mut ByteStream, result: Result<HeaderFields, ErrorKind>)
    requires
        call_ensures(header::decode, (stream,), result),
    ensures
        ({
            let (input, rest) = (old(stream)@, final(stream)@);
            let length = input[0] + 0x100 * input[1] + 0x1_0000 * input[2] + 0x100_0000 * input[3];
            let end = if 4 + length <= input.len() { 4 + length } else { input.len() as int };
            if input.len() < 4 {
                &&& rest.len() == 0
                &&& result matches Err(ErrorKind::ConnectionClosed(words)) && words@
                    == "failed to fill whole buffer"@
            } else {
                &&& rest == input.skip(end)
                &&& match header::read_rows(input.subrange(4, end), Map::empty()) {
                    Some(fields) => result matches Ok(read) && read@ == fields,
                    None => result matches Err(ErrorKind::MalformedHeader),
                }
            }
        }),
{
    if old(stream)@.len() >= 4 {
        transport::law_number_from_the_wire(old(stream)@.take(4));
    }
}

/// What the header at the start of the input says is what reading it gives.
pub proof fn law_header_says(stream: &mut ByteStream, result: Result<HeaderFields, ErrorKind>)
    requires
        call_ensures(header::decode, (stream,), result),
    ensures
        match result {
            Ok(read) => header::header_fields(old(stream)@) == Ok::<_, ErrorKindView>(read@),
            Err(kind) => header::header_fields(old(stream)@) == Err::<Map<Seq<char>, Seq<char>>, _>(
                kind@,
            ),
        },
{
}

/// A header is read back as it was written, whatever comes behind it, as long as no name
/// holds a `=` and its length can be written down.
pub proof fn law_header_read_as_written(
    fields: &HeaderFields,
    out: &mut Vec<u8>,
    stream: &mut ByteStream,
    rest: Seq<u8>,
    name: &str,
    value: Option<&String>,
    result: Result<HeaderFields, ErrorKind>,
    found: Option<&String>,
)
    requires
        call_ensures(header::encode, (fields, out), ()),
        old(stream)@ == final(out)@.skip(old(out)@.len() as int) + rest,
        call_ensures(header::decode, (stream,), result),
        forall|i: int|
            0 <= i < fields.rows().len() ==> !(#[trigger] fields.rows()[i]).0.contains('='),
        final(out)@.len() - old(out)@.len() <= u32::MAX,
        call_ensures(HeaderFields::get, (fields, name), value),
        result matches Ok(read) ==> call_ensures(HeaderFields::get, (&read, name), found),
    ensures
        result is Ok,
        final(stream)@ == rest,
        match (value, found) {
            (Some(was), Some(is_now)) => is_now@ == was@,
            (None, None) => true,
            _ => false,
        },
{
    let rows = fields.rows();
    let bytes = header::header_bytes(rows);
    assert(final(out)@.skip(old(out)@.len() as int) =~= bytes);
    header::law_header_read_of_write(rows, rest);
    assert((bytes + rest).skip(bytes.len() as int) =~= rest);
}

} // verus!

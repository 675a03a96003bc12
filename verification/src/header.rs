//! Connection headers: the named fields that two nodes exchange before anything else.
//!
//! On the wire a header is a block (its length, then its rows), and each row is a
//! string `name=value`.
use crate::error;
use crate::error::{ErrorKind, ErrorKindView};
use crate::stream::ByteStream;
use crate::wire;
use vstd::prelude::*;
use vstd::slice::slice_subrange;
use vstd::utf8::*;

verus! {

/// The byte that stands between the name and the value of a field.
pub const SEPARATOR: u8 = 0x3d;

/// A field, as its name and its value.
pub type Row = (Seq<char>, Seq<char>);

/// The fields that remain when rows are put one after the other into some fields: a
/// later row replaces an earlier one of the same name.
pub open spec fn with_rows(fields: Map<Seq<char>, Seq<char>>, rows: Seq<Row>) -> Map<
    Seq<char>,
    Seq<char>,
>
    decreases rows.len(),
{
    if rows.len() == 0 {
        fields
    } else {
        with_rows(fields.insert(rows[0].0, rows[0].1), rows.drop_first())
    }
}

/// No two rows have the same name.
pub open spec fn distinct_names(rows: Seq<Row>) -> bool {
    forall|i: int, j: int| 0 <= i < j < rows.len() ==> rows[i].0 != rows[j].0
}

/// A row as text.
pub open spec fn row_text(row: Row) -> Seq<char> {
    row.0 + seq!['='] + row.1
}

/// Rows on the wire, one string after the other.
pub open spec fn rows_bytes(rows: Seq<Row>) -> Seq<u8>
    decreases rows.len(),
{
    if rows.len() == 0 {
        seq![]
    } else {
        wire::str_bytes(row_text(rows[0])) + rows_bytes(rows.drop_first())
    }
}

/// A header on the wire: the number of bytes of its rows, then the rows.
pub open spec fn header_bytes(rows: Seq<Row>) -> Seq<u8> {
    wire::block_bytes(rows_bytes(rows))
}

/// The bytes of the string at the start of the input and what comes after it. None
/// when no whole string in valid UTF-8 stands there.
pub open spec fn first_string(input: Seq<u8>) -> Option<(Seq<u8>, Seq<u8>)> {
    if input.len() < 4 {
        None
    } else {
        let end = 4 + wire::le_u32(input.take(4));
        if end <= input.len() && valid_utf8(input.subrange(4, end)) {
            Some((input.subrange(4, end), input.skip(end)))
        } else {
            None
        }
    }
}

/// Where the first separator of a row stands, or its length when it has none.
pub open spec fn separator_index(row: Seq<u8>) -> int
    decreases row.len(),
{
    if row.len() == 0 || row[0] == SEPARATOR {
        0
    } else {
        1 + separator_index(row.drop_first())
    }
}

/// The name and the value that a row holds: what stands before its first separator
/// and what stands after it.
pub open spec fn split_row(row: Seq<u8>) -> Option<Row> {
    let i = separator_index(row);
    if i < row.len() {
        Some((decode_utf8(row.take(i)), decode_utf8(row.skip(i + 1))))
    } else {
        None
    }
}

/// The fields after reading rows up to the end of the input, or up to the first
/// thing that is no string. None when a row has no separator.
pub open spec fn read_rows(input: Seq<u8>, fields: Map<Seq<char>, Seq<char>>) -> Option<
    Map<Seq<char>, Seq<char>>,
>
    decreases input.len(),
{
    match first_string(input) {
        None => Some(fields),
        Some((row, rest)) => match split_row(row) {
            None => None,
            Some((name, value)) => read_rows(rest, fields.insert(name, value)),
        },
    }
}

/// How much of the input the header at its start takes up: what its length
/// announces, as far as it is there.
pub open spec fn header_end(input: Seq<u8>) -> int {
    if input.len() < 4 {
        input.len() as int
    } else if 4 + wire::le_u32(input.take(4)) <= input.len() {
        4 + wire::le_u32(input.take(4))
    } else {
        input.len() as int
    }
}

/// What the header at the start of the input says.
pub open spec fn header_fields(input: Seq<u8>) -> Result<Map<Seq<char>, Seq<char>>, ErrorKindView> {
    if input.len() < 4 {
        Err(error::cut_short())
    } else {
        match read_rows(input.subrange(4, header_end(input)), Map::empty()) {
            Some(fields) => Ok(fields),
            None => Err(ErrorKindView::MalformedHeader),
        }
    }
}

/// Whether a field holds the value that it must, and what is wrong when it does not.
pub open spec fn field_outcome(
    fields: Map<Seq<char>, Seq<char>>,
    field: Seq<char>,
    expected: Seq<char>,
) -> Result<(), ErrorKindView> {
    if !fields.contains_key(field) {
        Err(ErrorKindView::HeaderMissingField(field))
    } else if fields[field] != expected {
        Err(ErrorKindView::HeaderMismatch { field, expected, actual: fields[field] })
    } else {
        Ok(())
    }
}

pub(crate) proof fn lemma_rows_push(fields: Map<Seq<char>, Seq<char>>, rows: Seq<Row>, row: Row)
    ensures
        with_rows(fields, rows.push(row)) == with_rows(fields, rows).insert(row.0, row.1),
    decreases rows.len(),
{
    if rows.len() == 0 {
        reveal_with_fuel(with_rows, 2);
    } else {
        assert(rows.push(row).drop_first() =~= rows.drop_first().push(row));
        lemma_rows_push(fields.insert(rows[0].0, rows[0].1), rows.drop_first(), row);
    }
}

proof fn lemma_name_absent(rows: Seq<Row>, name: Seq<char>)
    requires
        forall|i: int| 0 <= i < rows.len() ==> #[trigger] rows[i].0 != name,
    ensures
        !with_rows(Map::empty(), rows).contains_key(name),
    decreases rows.len(),
{
    if rows.len() > 0 {
        assert(rows =~= rows.drop_last().push(rows.last()));
        lemma_rows_push(Map::empty(), rows.drop_last(), rows.last());
        lemma_name_absent(rows.drop_last(), name);
    }
}

proof fn lemma_name_present(rows: Seq<Row>, i: int)
    requires
        distinct_names(rows),
        0 <= i < rows.len(),
    ensures
        with_rows(Map::empty(), rows).contains_key(rows[i].0),
        with_rows(Map::empty(), rows)[rows[i].0] == rows[i].1,
    decreases rows.len(),
{
    assert(rows =~= rows.drop_last().push(rows.last()));
    lemma_rows_push(Map::empty(), rows.drop_last(), rows.last());
    if i < rows.len() - 1 {
        lemma_name_present(rows.drop_last(), i);
    }
}

proof fn lemma_row_replaced(rows: Seq<Row>, i: int, value: Seq<char>)
    requires
        distinct_names(rows),
        0 <= i < rows.len(),
    ensures
        distinct_names(rows.update(i, (rows[i].0, value))),
        with_rows(Map::empty(), rows.update(i, (rows[i].0, value))) == with_rows(
            Map::empty(),
            rows,
        ).insert(rows[i].0, value),
{
    let after = rows.update(i, (rows[i].0, value));
    let left = with_rows(Map::empty(), after);
    let right = with_rows(Map::empty(), rows).insert(rows[i].0, value);
    assert forall|name: Seq<char>|
        #![trigger left.dom().contains(name)]
        #![trigger right.dom().contains(name)]
        left.dom().contains(name) == right.dom().contains(name) && (left.dom().contains(name)
            ==> left[name] == right[name]) by {
        if exists|j: int| 0 <= j < rows.len() && #[trigger] rows[j].0 == name {
            let j = choose|j: int| 0 <= j < rows.len() && #[trigger] rows[j].0 == name;
            assert(after[j].0 == name);
            lemma_name_present(rows, j);
            lemma_name_present(after, j);
        } else {
            assert forall|j: int| 0 <= j < after.len() implies #[trigger] after[j].0 != name by {
                assert(rows[j].0 != name);
            }
            lemma_name_absent(rows, name);
            lemma_name_absent(after, name);
        }
    }
    assert(left =~= right);
}

/// The fields of a header. Its view is the value of each field by its name.
pub struct HeaderFields {
    rows: Vec<(String, String)>,
}

/// The views of some rows, in order.
pub open spec fn rows_view(rows: Seq<(String, String)>) -> Seq<Row> {
    Seq::new(rows.len(), |i: int| (rows[i].0@, rows[i].1@))
}

impl View for HeaderFields {
    type V = Map<Seq<char>, Seq<char>>;

    open spec fn view(&self) -> Map<Seq<char>, Seq<char>> {
        with_rows(Map::empty(), self.rows())
    }
}

impl HeaderFields {
    /// The fields in the order in which they are sent.
    pub closed spec fn rows(self) -> Seq<Row> {
        rows_view(self.rows@)
    }

    #[verifier::type_invariant]
    closed spec fn each_name_once(self) -> bool {
        distinct_names(self.rows())
    }

    /// No fields.
    pub fn new() -> (fields: HeaderFields)
        ensures
            fields.rows() == Seq::<Row>::empty(),
            fields@ == Map::<Seq<char>, Seq<char>>::empty(),
    {
        let fields = HeaderFields { rows: Vec::new() };
        assert(fields.rows() =~= Seq::<Row>::empty());
        fields
    }

    /// Where the field of this name stands.
    fn position(&self, name: &String) -> (found: Option<usize>)
        ensures
            match found {
                Some(i) => i < self.rows().len() && self.rows()[i as int].0 == name@,
                None => forall|i: int|
                    0 <= i < self.rows().len() ==> #[trigger] self.rows()[i].0 != name@,
            },
    {
        let mut i: usize = 0;
        while i < self.rows.len()
            invariant
                i <= self.rows.len(),
                forall|j: int| 0 <= j < i ==> #[trigger] self.rows()[j].0 != name@,
            decreases self.rows.len() - i,
        {
            if self.rows[i].0 == *name {
                return Some(i);
            }
            i = i + 1;
        }
        None
    }

    /// Gives a field a value: in the place of its earlier value, or behind the other
    /// fields when it had none.
    pub fn insert(&mut self, name: String, value: String)
        ensures
            final(self)@ == old(self)@.insert(name@, value@),
            !old(self)@.contains_key(name@) ==> final(self).rows() == old(self).rows().push(
                (name@, value@),
            ),
            forall|i: int|
                0 <= i < old(self).rows().len() && #[trigger] old(self).rows()[i].0 == name@
                    ==> final(self).rows() == old(self).rows().update(i, (name@, value@)),
    {
        proof {
            use_type_invariant(&*self);
        }
        let found = self.position(&name);
        let mut rows: Vec<(String, String)> = Vec::new();
        std::mem::swap(&mut rows, &mut self.rows);
        let ghost before = rows_view(rows@);
        match found {
            Some(i) => {
                proof {
                    lemma_name_present(before, i as int);
                    lemma_row_replaced(before, i as int, value@);
                }
                rows.set(i, (name, value));
                assert(rows_view(rows@) =~= before.update(i as int, (before[i as int].0, value@)));
            },
            None => {
                proof {
                    lemma_rows_push(Map::empty(), before, (name@, value@));
                }
                rows.push((name, value));
                assert(rows_view(rows@) =~= before.push((name@, value@)));
            },
        }
        self.rows = rows;
    }

    /// The value of a field.
    pub fn get(&self, name: &str) -> (value: Option<&String>)
        ensures
            match value {
                Some(text) => self@.contains_key(name@) && text@ == self@[name@],
                None => !self@.contains_key(name@),
            },
    {
        proof {
            use_type_invariant(self);
        }
        match self.position(&name.to_owned()) {
            Some(i) => {
                proof {
                    lemma_name_present(self.rows(), i as int);
                }
                Some(&self.rows[i].1)
            },
            None => {
                proof {
                    lemma_name_absent(self.rows(), name@);
                }
                None
            },
        }
    }
}

/// Checks that a field holds the value that it must.
pub fn match_field(fields: &HeaderFields, field: &str, expected: &str) -> (result: Result<
    (),
    ErrorKind,
>)
    ensures
        match result {
            Ok(_) => field_outcome(fields@, field@, expected@) is Ok,
            Err(kind) => field_outcome(fields@, field@, expected@) == Err::<(), _>(kind@),
        },
{
    match fields.get(field) {
        None => Err(ErrorKind::HeaderMissingField(field.to_owned())),
        Some(actual) => {
            let expected = expected.to_owned();
            if *actual == expected {
                Ok(())
            } else {
                Err(
                    ErrorKind::HeaderMismatch {
                        field: field.to_owned(),
                        expected,
                        actual: actual.clone(),
                    },
                )
            }
        },
    }
}

/// Appends a header to what goes out.
pub fn encode(fields: &HeaderFields, out: &mut Vec<u8>)
    ensures
        final(out)@ == old(out)@ + header_bytes(fields.rows()),
{
    let mut body: Vec<u8> = Vec::new();
    let mut i: usize = 0;
    let ghost rows = fields.rows();
    assert(rows.skip(0) =~= rows);
    while i < fields.rows.len()
        invariant
            i <= fields.rows.len(),
            rows == fields.rows(),
            rows_bytes(rows) == body@ + rows_bytes(rows.skip(i as int)),
        decreases fields.rows.len() - i,
    {
        let row = fields.rows[i].0.clone().concat("=").concat(fields.rows[i].1.as_str());
        proof {
            reveal_strlit("=");
            assert("="@ =~= seq!['=']);
            assert(row@ == row_text(rows[i as int]));
            assert(rows.skip(i as int).drop_first() =~= rows.skip(i + 1));
        }
        wire::encode_str(row.as_str(), &mut body);
        assert(rows_bytes(rows) =~= body@ + rows_bytes(rows.skip(i + 1)));
        i = i + 1;
    }
    assert(rows_bytes(rows) =~= body@);
    wire::write_block(out, body.as_slice());
}

/// The string at the start of the input.
fn decode_string(input: &[u8]) -> (text: Option<String>)
    ensures
        match text {
            Some(t) => first_string(input@) == Some(
                (encode_utf8(t@), input@.skip(4 + encode_utf8(t@).len() as int)),
            ),
            None => first_string(input@) is None,
        },
{
    let length: usize = match wire::read_u32(input) {
        Some(n) => n as usize,
        None => return None,
    };
    if length > input.len() - 4 {
        return None;
    }
    let mut bytes: Vec<u8> = Vec::new();
    wire::write_all(&mut bytes, slice_subrange(input, 4, 4 + length));
    assert(bytes@ =~= input@.subrange(4, 4 + length as int));
    proof {
        if valid_utf8(bytes@) {
            decode_utf8_encode_utf8(bytes@);
        }
    }
    wire::string_from_utf8(bytes)
}

/// Where the first separator of a row stands.
fn find_separator(row: &[u8]) -> (i: usize)
    ensures
        i == separator_index(row@),
        i < row@.len() ==> row@[i as int] == SEPARATOR,
        i <= row@.len(),
{
    let mut i: usize = 0;
    assert(row@.skip(0) =~= row@);
    while i < row.len() && row[i] != SEPARATOR
        invariant
            i <= row@.len(),
            separator_index(row@) == i + separator_index(row@.skip(i as int)),
        decreases row@.len() - i,
    {
        assert(row@.skip(i as int).drop_first() =~= row@.skip(i + 1));
        i = i + 1;
    }
    i
}

/// The name and the value that a row holds.
fn decode_row(row: &str) -> (field: Option<(String, String)>)
    ensures
        match field {
            Some((name, value)) => split_row(encode_utf8(row@)) == Some((name@, value@)),
            None => split_row(encode_utf8(row@)) is None,
        },
{
    let bytes = row.as_bytes();
    let i: usize = find_separator(bytes);
    if i >= bytes.len() {
        return None;
    }
    let ghost b = encode_utf8(row@);
    proof {
        encode_utf8_valid_utf8(row@);
        is_char_boundary_iff_not_is_continuation_byte(b, i as int);
        assert(!is_continuation_byte(b[i as int]));
        valid_utf8_split(b, i as int);
    }
    let (name, rest) = row.split_at(i);
    proof {
        let r = encode_utf8(rest@);
        assert(r =~= b.subrange(i as int, b.len() as int));
        assert(r[0] == SEPARATOR);
        reveal_with_fuel(is_char_boundary, 2);
        assert(is_char_boundary(r, 1));
    }
    let (_, value) = rest.split_at(1);
    proof {
        assert(b.take(i as int) =~= encode_utf8(name@));
        assert(b.skip(i + 1) =~= encode_utf8(value@));
        encode_utf8_decode_utf8(name@);
        encode_utf8_decode_utf8(value@);
    }
    Some((name.to_owned(), value.to_owned()))
}

/// The fields that the rows of a header hold.
fn decode_rows(body: &[u8]) -> (fields: Option<HeaderFields>)
    ensures
        match fields {
            Some(f) => read_rows(body@, Map::empty()) == Some(f@),
            None => read_rows(body@, Map::empty()) is None,
        },
{
    let mut fields = HeaderFields::new();
    let mut i: usize = 0;
    assert(body@.skip(0) =~= body@);
    loop
        invariant
            i <= body@.len(),
            read_rows(body@, Map::empty()) == read_rows(body@.skip(i as int), fields@),
        decreases body@.len() - i,
    {
        let rest = slice_subrange(body, i, body.len());
        assert(rest@ =~= body@.skip(i as int));
        match decode_string(rest) {
            None => return Some(fields),
            Some(row) => match decode_row(row.as_str()) {
                None => return None,
                Some((name, value)) => {
                    fields.insert(name, value);
                    let used: usize = 4 + row.as_str().as_bytes().len();
                    assert(rest@.skip(used as int) =~= body@.skip(i + used));
                    i = i + used;
                },
            },
        }
    }
}

/// Reads a header.
pub fn decode(stream: &mut ByteStream) -> (result: Result<HeaderFields, ErrorKind>)
    ensures
        final(stream)@ == old(stream)@.skip(header_end(old(stream)@)),
        match result {
            Ok(fields) => header_fields(old(stream)@) == Ok::<_, ErrorKindView>(fields@),
            Err(kind) => header_fields(old(stream)@) == Err::<Map<Seq<char>, Seq<char>>, _>(kind@),
        },
{
    let ghost input = stream@;
    let announced: usize = match stream.peek_u32() {
        Some(n) => n as usize,
        None => {
            let _ = stream.read_exact(stream.len());
            return Err(ErrorKind::cut_short());
        },
    };
    let _ = stream.read_exact(4);
    let available: usize = stream.len();
    let length: usize = if announced <= available { announced } else { available };
    let body = stream.read_exact(length);
    assert(stream@ =~= input.skip(header_end(input)));
    assert(body@ =~= input.subrange(4, header_end(input)));
    match decode_rows(body.as_slice()) {
        Some(fields) => Ok(fields),
        None => Err(ErrorKind::MalformedHeader),
    }
}

proof fn lemma_encode_concat(a: Seq<char>, b: Seq<char>)
    ensures
        encode_utf8(a + b) == encode_utf8(a) + encode_utf8(b),
    decreases a.len(),
{
    if a.len() == 0 {
        assert(a + b =~= b);
        assert(encode_utf8(a + b) =~= encode_utf8(a) + encode_utf8(b));
    } else {
        lemma_encode_concat(a.drop_first(), b);
        assert((a + b).drop_first() =~= a.drop_first() + b);
        assert(encode_utf8(a + b) =~= encode_utf8(a) + encode_utf8(b));
    }
}

proof fn lemma_encode_separator()
    ensures
        encode_utf8(seq!['=']) == seq![SEPARATOR],
{
    let text = seq!['='];
    assert(is_ascii_chars(text));
    is_ascii_chars_encode_utf8(text);
    assert(encode_utf8(text)[0] == text[0] as u8);
    assert(encode_utf8(text) =~= seq![SEPARATOR]);
}

pub(crate) proof fn lemma_no_separator(text: Seq<char>, j: int)
    requires
        !text.contains('='),
        0 <= j < encode_utf8(text).len(),
    ensures
        encode_utf8(text)[j] != SEPARATOR,
    decreases text.len(),
{
    let first = encode_scalar(text[0] as u32);
    assert(text.contains(text[0]));
    if j < first.len() {
        encode_utf8_first_scalar(text);
        let bytes = encode_utf8(text);
        if bytes[j] == SEPARATOR {
            if j == 0 {
                assert(codepoint_width_1(bytes[0]) == 0x3d) by {
                    let b = bytes[0];
                    assert(b == 0x3d ==> (b & 0x7F) as u32 == 0x3d) by (bit_vector);
                }
                char_u32_cast(text[0], 0x3d);
            } else {
                assert(is_continuation_byte(bytes[j]));
            }
        }
    } else {
        assert forall|c: char| text.drop_first().contains(c) implies text.contains(c) by {
            let k = choose|k: int| 0 <= k < text.drop_first().len() && text.drop_first()[k] == c;
            assert(text[k + 1] == c);
        }
        lemma_no_separator(text.drop_first(), j - first.len());
    }
}

proof fn lemma_separator_index(name: Seq<u8>, value: Seq<u8>)
    requires
        forall|j: int| 0 <= j < name.len() ==> #[trigger] name[j] != SEPARATOR,
    ensures
        separator_index(name + seq![SEPARATOR] + value) == name.len(),
    decreases name.len(),
{
    let row = name + seq![SEPARATOR] + value;
    if name.len() > 0 {
        assert(row[0] == name[0]);
        assert(row.drop_first() =~= name.drop_first() + seq![SEPARATOR] + value);
        assert forall|j: int| 0 <= j < name.drop_first().len() implies #[trigger] name.drop_first()[j]
            != SEPARATOR by {
            assert(name[j + 1] != SEPARATOR);
        }
        lemma_separator_index(name.drop_first(), value);
    }
}

pub(crate) proof fn lemma_no_separator_index(row: Seq<u8>)
    requires
        forall|j: int| 0 <= j < row.len() ==> #[trigger] row[j] != SEPARATOR,
    ensures
        separator_index(row) == row.len(),
    decreases row.len(),
{
    if row.len() > 0 {
        assert forall|j: int| 0 <= j < row.drop_first().len() implies #[trigger] row.drop_first()[j]
            != SEPARATOR by {
            assert(row[j + 1] != SEPARATOR);
        }
        lemma_no_separator_index(row.drop_first());
    }
}

pub(crate) proof fn lemma_encode_row_text(row: Row)
    ensures
        encode_utf8(row_text(row)) == encode_utf8(row.0) + seq![SEPARATOR] + encode_utf8(row.1),
{
    lemma_encode_concat(row.0 + seq!['='], row.1);
    lemma_encode_concat(row.0, seq!['=']);
    lemma_encode_separator();
}

pub(crate) proof fn lemma_split_row_text(row: Row)
    requires
        !row.0.contains('='),
    ensures
        split_row(encode_utf8(row_text(row))) == Some(row),
{
    let (name, value) = (encode_utf8(row.0), encode_utf8(row.1));
    lemma_encode_row_text(row);
    let bytes = name + seq![SEPARATOR] + value;
    assert forall|j: int| 0 <= j < name.len() implies #[trigger] name[j] != SEPARATOR by {
        lemma_no_separator(row.0, j);
    }
    lemma_separator_index(name, value);
    assert(bytes.take(name.len() as int) =~= name);
    assert(bytes.skip(name.len() as int + 1) =~= value);
    encode_utf8_decode_utf8(row.0);
    encode_utf8_decode_utf8(row.1);
}

/// The string at the start of the input is read back as it was written, and what
/// comes after it stays.
pub proof fn law_string_read_of_write(text: Seq<char>, rest: Seq<u8>)
    requires
        encode_utf8(text).len() <= u32::MAX,
    ensures
        first_string(wire::str_bytes(text) + rest) == Some((encode_utf8(text), rest)),
{
    let n = encode_utf8(text).len() as u32;
    let input = wire::str_bytes(text) + rest;
    wire::law_u32_read_of_write(n);
    assert(input.take(4) =~= wire::le_bytes(n));
    assert(input.subrange(4, 4 + n) =~= encode_utf8(text));
    assert(input.skip(4 + n) =~= rest);
    encode_utf8_valid_utf8(text);
}

proof fn lemma_rows_read_of_write(rows: Seq<Row>, fields: Map<Seq<char>, Seq<char>>)
    requires
        forall|i: int| 0 <= i < rows.len() ==> !(#[trigger] rows[i]).0.contains('='),
        rows_bytes(rows).len() <= u32::MAX,
    ensures
        read_rows(rows_bytes(rows), fields) == Some(with_rows(fields, rows)),
    decreases rows.len(),
{
    if rows.len() > 0 {
        let text = row_text(rows[0]);
        let rest = rows.drop_first();
        assert forall|i: int| 0 <= i < rest.len() implies !(#[trigger] rest[i]).0.contains('=') by {
            assert(rest[i] == rows[i + 1]);
        }
        law_string_read_of_write(text, rows_bytes(rest));
        lemma_split_row_text(rows[0]);
        lemma_rows_read_of_write(rest, fields.insert(rows[0].0, rows[0].1));
    }
}

/// A header is read back as it was written, whatever comes after it on the wire, as
/// long as no name holds a separator and its length can be written down.
pub proof fn law_header_read_of_write(rows: Seq<Row>, rest: Seq<u8>)
    requires
        forall|i: int| 0 <= i < rows.len() ==> !(#[trigger] rows[i]).0.contains('='),
        rows_bytes(rows).len() <= u32::MAX,
    ensures
        header_fields(header_bytes(rows) + rest) == Ok::<_, ErrorKindView>(
            with_rows(Map::empty(), rows),
        ),
        header_end(header_bytes(rows) + rest) == header_bytes(rows).len(),
{
    let n = rows_bytes(rows).len() as u32;
    let input = header_bytes(rows) + rest;
    wire::law_u32_read_of_write(n);
    assert(input.take(4) =~= wire::le_bytes(n));
    assert(input.subrange(4, header_end(input)) =~= rows_bytes(rows));
    lemma_rows_read_of_write(rows, Map::empty());
}

} // verus!

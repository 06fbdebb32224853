//! The header of a message and its MIME structure.
//!
//! A message is a header, an empty line, and a body. The header is a list of
//! fields, `Name: value`, one to a line; a line that begins with a blank
//! continues the field before it. Where the content type is `multipart/*`,
//! the body is a list of parts, each a message in small, kept apart by lines
//! that say two dashes and the boundary.

use crate::bytes::{
    find_byte, holds_at, is_blank, lemma_find_byte, lowered, matches_at, same_bytes, seek_byte,
    to_lower, to_vec, trim, trim_of, CR, LF, SPACE, TAB,
};
use vstd::prelude::*;
use vstd::string::StringSliceAdditionalSpecFns;

verus! {

pub const COLON: u8 = 0x3a;

pub const SEMICOLON: u8 = 0x3b;

pub const EQUALS: u8 = 0x3d;

pub const QUOTE: u8 = 0x22;

pub const DASH: u8 = 0x2d;

/// A header field, or a parameter of one: a name and what it is set to.
#[derive(Debug, Clone, PartialEq, Eq)]
pub struct Header {
    pub name: Vec<u8>,
    pub value: Vec<u8>,
}

/// A `Header`, seen as plain values.
pub struct Field {
    pub name: Seq<u8>,
    pub value: Seq<u8>,
}

impl View for Header {
    type V = Field;

    open spec fn view(&self) -> Field {
        Field { name: self.name@, value: self.value@ }
    }
}

/// A list of headers, seen as plain values.
pub open spec fn fields_of(headers: Seq<Header>) -> Seq<Field> {
    Seq::new(headers.len(), |i: int| headers[i]@)
}

/// Where the line that starts at `from` ends: the index of its line feed,
/// or the length of `s` for a last line without one.
pub open spec fn line_end(s: Seq<u8>, from: int) -> int {
    find_byte(s, from, LF)
}

/// Where what the line says ends: a carriage return before the line feed
/// belongs to the end of the line.
pub open spec fn content_end(s: Seq<u8>, from: int) -> int {
    let e = line_end(s, from);
    if e > from && s[e - 1] == CR {
        e - 1
    } else {
        e
    }
}

/// Where the line after the one that starts at `from` starts.
pub open spec fn next_line(s: Seq<u8>, from: int) -> int {
    let e = line_end(s, from);
    if e < s.len() {
        e + 1
    } else {
        e
    }
}

/// The fields after one more line of the header has been read.
///
/// A line that begins with a blank continues the last field: what it says,
/// without the blanks around it, is added to that field's value behind one
/// space. Any other line with a colon is a new field: the name, in lower
/// case, stands before the colon and the value behind it, both without the
/// blanks around them. A line that is neither changes nothing.
pub open spec fn absorb(acc: Seq<Field>, line: Seq<u8>) -> Seq<Field> {
    if line.len() > 0 && is_blank(line[0]) {
        if acc.len() > 0 {
            acc.drop_last().push(
                Field {
                    name: acc.last().name,
                    value: acc.last().value + seq![SPACE] + trim(line),
                },
            )
        } else {
            acc
        }
    } else {
        let c = find_byte(line, 0, COLON);
        if c < line.len() {
            acc.push(Field { name: lowered(trim(line.take(c))), value: trim(line.skip(c + 1)) })
        } else {
            acc
        }
    }
}

/// A message cut in two: the fields of its header, and the index at which
/// its body begins.
pub struct Split {
    pub fields: Seq<Field>,
    pub body_start: int,
}

/// Reads the header of `s` line by line from the line that starts at
/// `from`, with the fields `acc` read so far. The first empty line ends the
/// header, and the body begins behind it. A message without an empty line
/// is all header.
pub open spec fn header_scan(s: Seq<u8>, from: int, acc: Seq<Field>) -> Split
    decreases s.len() - from,
{
    if from < 0 || from >= s.len() {
        Split { fields: acc, body_start: s.len() as int }
    } else {
        let ce = content_end(s, from);
        let nx = next_line(s, from);
        if ce == from {
            Split { fields: acc, body_start: nx }
        } else {
            proof {
                lemma_find_byte(s, from, LF);
            }
            header_scan(s, nx, absorb(acc, s.subrange(from, ce)))
        }
    }
}

/// The index of the first field at or after `from` with the given name, or
/// the number of fields where there is none.
pub open spec fn position(fields: Seq<Field>, name: Seq<u8>, from: int) -> int
    decreases fields.len() - from,
{
    if 0 <= from < fields.len() && fields[from].name != name {
        position(fields, name, from + 1)
    } else {
        from
    }
}

/// Whether a field with the given name is among `fields`.
pub open spec fn has_name(fields: Seq<Field>, name: Seq<u8>) -> bool {
    position(fields, name, 0) < fields.len()
}

/// The value of the first field with the given name.
pub open spec fn value_of(fields: Seq<Field>, name: Seq<u8>) -> Option<Seq<u8>> {
    let i = position(fields, name, 0);
    if i < fields.len() {
        Some(fields[i].value)
    } else {
        None
    }
}

/// The fields without those whose name has occurred before: of the fields
/// with one name the first stays.
pub open spec fn first_wins(fields: Seq<Field>) -> Seq<Field>
    decreases fields.len(),
{
    if fields.len() == 0 {
        Seq::empty()
    } else {
        let kept = first_wins(fields.drop_last());
        if has_name(kept, fields.last().name) {
            kept
        } else {
            kept.push(fields.last())
        }
    }
}

/// The bounds of the line that starts at `from`: where what it says ends,
/// and where the next line starts.
fn line_bounds(s: &[u8], from: usize) -> (r: (usize, usize))
    requires
        from <= s.len(),
    ensures
        r.0 == content_end(s@, from as int),
        r.1 == next_line(s@, from as int),
        from <= r.0 <= r.1 <= s.len(),
        from < s.len() ==> from < r.1,
{
    let e = seek_byte(s, from, LF);
    let ce = if e > from && s[e - 1] == CR {
        e - 1
    } else {
        e
    };
    let nx = if e < s.len() {
        e + 1
    } else {
        e
    };
    (ce, nx)
}

/// Reads one more line of a header.
fn absorb_line(acc: &mut Vec<Header>, line: &[u8])
    ensures
        fields_of(final(acc)@) == absorb(fields_of(old(acc)@), line@),
{
    let ghost before = fields_of(acc@);
    if line.len() > 0 && (line[0] == SPACE || line[0] == TAB) {
        if acc.len() > 0 {
            let mut last = acc.pop().unwrap();
            let ghost value = last.value@;
            last.value.push(SPACE);
            last.value.extend_from_slice(trim_of(line));
            assert(last.value@ =~= value + seq![SPACE] + trim(line@));
            acc.push(last);
            assert(fields_of(acc@) =~= absorb(before, line@));
        }
    } else {
        let c = seek_byte(line, 0, COLON);
        if c < line.len() {
            let name = to_lower(trim_of(&line[0..c]));
            let value = to_vec(trim_of(&line[c + 1..line.len()]));
            acc.push(Header { name, value });
            assert(line@.subrange(0, c as int) =~= line@.take(c as int));
            assert(line@.subrange(c + 1, line.len() as int) =~= line@.skip(c + 1));
            assert(fields_of(acc@) =~= absorb(before, line@));
        } else {
            assert(fields_of(acc@) =~= before);
        }
    }
}

/// Reads the header of a message: every field in the order in which it
/// stands, and the index at which the body begins.
pub fn scan_headers(s: &[u8]) -> (r: (Vec<Header>, usize))
    ensures
        fields_of(r.0@) == header_scan(s@, 0, Seq::empty()).fields,
        r.1 == header_scan(s@, 0, Seq::empty()).body_start,
        r.1 <= s.len(),
{
    let mut acc: Vec<Header> = Vec::new();
    let mut from: usize = 0;
    assert(fields_of(acc@) =~= Seq::empty());
    while from < s.len()
        invariant
            from <= s.len(),
            header_scan(s@, from as int, fields_of(acc@)) == header_scan(s@, 0, Seq::empty()),
        decreases s.len() - from,
    {
        let (ce, nx) = line_bounds(s, from);
        if ce == from {
            return (acc, nx);
        }
        absorb_line(&mut acc, &s[from..ce]);
        from = nx;
    }
    (acc, from)
}

/// Finds the first header with the given name.
pub fn find_header(headers: &Vec<Header>, name: &[u8]) -> (r: usize)
    ensures
        r == position(fields_of(headers@), name@, 0),
        r <= headers.len(),
{
    let mut i: usize = 0;
    while i < headers.len() && !same_bytes(headers[i].name.as_slice(), name)
        invariant
            i <= headers.len(),
            position(fields_of(headers@), name@, 0) == position(
                fields_of(headers@),
                name@,
                i as int,
            ),
        decreases headers.len() - i,
    {
        i = i + 1;
    }
    i
}

/// The value of the first header with the given name.
pub fn lookup<'a>(headers: &'a Vec<Header>, name: &[u8]) -> (r: Option<&'a Vec<u8>>)
    ensures
        match r {
            Some(v) => value_of(fields_of(headers@), name@) == Some(v@),
            None => value_of(fields_of(headers@), name@) is None,
        },
{
    let i = find_header(headers, name);
    if i < headers.len() {
        Some(&headers[i].value)
    } else {
        None
    }
}

/// The value of the first header with the given name, in whatever case
/// the name is written.
pub fn lookup_any_case<'a>(headers: &'a Vec<Header>, name: &[u8]) -> (r: Option<&'a Vec<u8>>)
    ensures
        match r {
            Some(v) => value_of(fields_of(headers@), lowered(name@)) == Some(v@),
            None => value_of(fields_of(headers@), lowered(name@)) is None,
        },
{
    let low = to_lower(name);
    lookup(headers, low.as_slice())
}

/// Drops each header whose name has occurred before.
pub fn keep_first(all: &Vec<Header>) -> (r: Vec<Header>)
    ensures
        fields_of(r@) == first_wins(fields_of(all@)),
{
    let mut kept: Vec<Header> = Vec::new();
    let mut i: usize = 0;
    assert(fields_of(all@).take(0) =~= Seq::empty());
    assert(fields_of(kept@) =~= Seq::empty());
    while i < all.len()
        invariant
            i <= all.len(),
            fields_of(kept@) == first_wins(fields_of(all@).take(i as int)),
        decreases all.len() - i,
    {
        let ghost before = fields_of(kept@);
        proof {
            assert(fields_of(all@).take(i + 1).drop_last() =~= fields_of(all@).take(i as int));
        }
        if find_header(&kept, all[i].name.as_slice()) >= kept.len() {
            let name = to_vec(all[i].name.as_slice());
            let value = to_vec(all[i].value.as_slice());
            kept.push(Header { name, value });
            assert(fields_of(kept@) =~= before.push(all@[i as int]@));
        }
        i = i + 1;
    }
    assert(fields_of(all@).take(all.len() as int) =~= fields_of(all@));
    kept
}

/// The name of the field that says what a part holds.
pub open spec fn content_type_name() -> Seq<u8> {
    "content-type".spec_bytes()
}

/// The name of the parameter that says what keeps the parts of a
/// `multipart/*` body apart.
pub open spec fn boundary_name() -> Seq<u8> {
    "boundary".spec_bytes()
}

/// The content type of a part that names none.
pub open spec fn text_plain() -> Seq<u8> {
    "text/plain".spec_bytes()
}

/// What the content type of every container begins with.
pub open spec fn multipart_prefix() -> Seq<u8> {
    "multipart/".spec_bytes()
}

/// Whether a part with this content type holds parts.
pub open spec fn is_multipart(media: Seq<u8>) -> bool {
    holds_at(media, 0, multipart_prefix())
}

/// The media type that the value of a `Content-Type` field names: what
/// stands before the first semicolon, without the blanks around it, in
/// lower case.
pub open spec fn media_type(value: Seq<u8>) -> Seq<u8> {
    lowered(trim(value.take(find_byte(value, 0, SEMICOLON))))
}

/// A parameter value without the quotes around it, if it stands in quotes.
pub open spec fn unquoted(v: Seq<u8>) -> Seq<u8> {
    if v.len() >= 2 && v[0] == QUOTE && v.last() == QUOTE {
        v.subrange(1, v.len() - 1)
    } else {
        v
    }
}

/// The parameters after one more stretch between semicolons has been read:
/// `name=value` adds a parameter, the name in lower case, both without the
/// blanks and the value without the quotes around it. A stretch without an
/// equals sign adds nothing.
pub open spec fn absorb_parameter(acc: Seq<Field>, segment: Seq<u8>) -> Seq<Field> {
    let eq = find_byte(segment, 0, EQUALS);
    if eq < segment.len() {
        acc.push(
            Field {
                name: lowered(trim(segment.take(eq))),
                value: unquoted(trim(segment.skip(eq + 1))),
            },
        )
    } else {
        acc
    }
}

/// Reads the parameters of a field value from index `from` on, which stands
/// behind a semicolon, with the parameters `acc` read so far.
pub open spec fn parameters_from(value: Seq<u8>, from: int, acc: Seq<Field>) -> Seq<Field>
    decreases value.len() + 1 - from,
{
    if from < 0 || from > value.len() {
        acc
    } else {
        let e = find_byte(value, from, SEMICOLON);
        proof {
            lemma_find_byte(value, from, SEMICOLON);
        }
        parameters_from(value, e + 1, absorb_parameter(acc, value.subrange(from, e)))
    }
}

/// The parameters of a field value: what stands behind its first semicolon,
/// read stretch by stretch.
pub open spec fn parameters(value: Seq<u8>) -> Seq<Field> {
    parameters_from(value, find_byte(value, 0, SEMICOLON) + 1, Seq::empty())
}

/// Reads the media type of a `Content-Type` value.
pub fn read_media_type(value: &[u8]) -> (r: Vec<u8>)
    ensures
        r@ == media_type(value@),
{
    let e = seek_byte(value, 0, SEMICOLON);
    assert(value@.subrange(0, e as int) =~= value@.take(e as int));
    to_lower(trim_of(&value[0..e]))
}

/// Reads the parameters of a field value.
pub fn read_parameters(value: &[u8]) -> (r: Vec<Header>)
    ensures
        fields_of(r@) == parameters(value@),
{
    let mut acc: Vec<Header> = Vec::new();
    let first = seek_byte(value, 0, SEMICOLON);
    assert(fields_of(acc@) =~= Seq::empty());
    if first >= value.len() {
        return acc;
    }
    let mut from: usize = first + 1;
    loop
        invariant_except_break
            from <= value.len(),
            parameters_from(value@, from as int, fields_of(acc@)) == parameters(value@),
        ensures
            fields_of(acc@) == parameters(value@),
        decreases value.len() - from,
    {
        let e = seek_byte(value, from, SEMICOLON);
        let segment = &value[from..e];
        let eq = seek_byte(segment, 0, EQUALS);
        let ghost before = fields_of(acc@);
        if eq < segment.len() {
            let name = to_lower(trim_of(&segment[0..eq]));
            let inner = trim_of(&segment[eq + 1..segment.len()]);
            let n = inner.len();
            let value_bytes = if n >= 2 && inner[0] == QUOTE && inner[n - 1] == QUOTE {
                to_vec(&inner[1..n - 1])
            } else {
                to_vec(inner)
            };
            acc.push(Header { name, value: value_bytes });
            assert(segment@.subrange(0, eq as int) =~= segment@.take(eq as int));
            assert(segment@.subrange(eq + 1, segment.len() as int) =~= segment@.skip(eq + 1));
            assert(fields_of(acc@) =~= absorb_parameter(before, segment@));
        } else {
            assert(fields_of(acc@) =~= absorb_parameter(before, segment@));
        }
        if e >= value.len() {
            assert(parameters_from(value@, e + 1, fields_of(acc@)) == fields_of(acc@));
            break ;
        }
        from = e + 1;
    }
    acc
}

/// What the line that keeps parts apart says: two dashes and the boundary.
pub open spec fn delimiter(boundary: Seq<u8>) -> Seq<u8> {
    seq![DASH, DASH] + boundary
}

/// Whether only blanks stand in `s` from index `from` up to index `to`.
pub open spec fn only_blanks(s: Seq<u8>, from: int, to: int) -> bool {
    forall|k: int| from <= k < to ==> is_blank(#[trigger] s[k])
}

/// Whether the line that starts at `from` says `mark` and nothing else:
/// blanks may stand behind it.
pub open spec fn line_says(s: Seq<u8>, from: int, mark: Seq<u8>) -> bool {
    holds_at(s, from, mark) && only_blanks(s, from + mark.len(), content_end(s, from))
}

/// Whether the line that starts at `from` closes the last part: it says
/// two dashes, the boundary, and two more dashes.
pub open spec fn is_closing(s: Seq<u8>, from: int, boundary: Seq<u8>) -> bool {
    line_says(s, from, delimiter(boundary) + seq![DASH, DASH])
}

/// Whether the line that starts at `from` is a delimiter: it says two
/// dashes and the boundary, or it closes the last part.
pub open spec fn is_delimiter(s: Seq<u8>, from: int, boundary: Seq<u8>) -> bool {
    line_says(s, from, delimiter(boundary)) || is_closing(s, from, boundary)
}

/// Where the first delimiter line at or after the line that starts at `from`
/// starts, or the length of `s` where there is none.
pub open spec fn next_delimiter(s: Seq<u8>, from: int, boundary: Seq<u8>) -> int
    decreases s.len() - from,
{
    if from < 0 || from >= s.len() {
        s.len() as int
    } else if is_delimiter(s, from, boundary) {
        from
    } else {
        proof {
            lemma_find_byte(s, from, LF);
        }
        next_delimiter(s, next_line(s, from), boundary)
    }
}

/// A delimiter line is not looked for backwards.
pub proof fn lemma_next_delimiter(s: Seq<u8>, from: int, boundary: Seq<u8>)
    requires
        0 <= from <= s.len(),
    ensures
        from <= next_delimiter(s, from, boundary) <= s.len(),
    decreases s.len() - from,
{
    if from < s.len() && !is_delimiter(s, from, boundary) {
        lemma_find_byte(s, from, LF);
        lemma_next_delimiter(s, next_line(s, from), boundary);
    }
}

/// Where the part ends that starts at `start` and is followed by the
/// delimiter line at `d`: the line break before a delimiter belongs to the
/// delimiter. Where no delimiter follows, the part runs to the end.
pub open spec fn part_end(s: Seq<u8>, start: int, d: int) -> int {
    if d >= s.len() {
        s.len() as int
    } else if d > start && s[d - 1] == LF {
        if d - 1 > start && s[d - 2] == CR {
            d - 2
        } else {
            d - 1
        }
    } else {
        d
    }
}

/// Reads the parts of a `multipart/*` body from the delimiter line that
/// starts at `d`, with the parts `acc` read so far. A part begins on the
/// line after a delimiter and ends before the next; the closing delimiter
/// or the end of the body ends the list.
pub open spec fn parts_from(s: Seq<u8>, d: int, boundary: Seq<u8>, acc: Seq<Seq<u8>>) -> Seq<
    Seq<u8>,
>
    decreases s.len() - d,
{
    if d < 0 || d >= s.len() || is_closing(s, d, boundary) {
        acc
    } else {
        let start = next_line(s, d);
        let nd = next_delimiter(s, start, boundary);
        proof {
            lemma_find_byte(s, d, LF);
            lemma_next_delimiter(s, start, boundary);
        }
        parts_from(s, nd, boundary, acc.push(s.subrange(start, part_end(s, start, nd))))
    }
}

/// The parts of a `multipart/*` body, in the order in which they stand.
/// What stands before the first delimiter belongs to no part.
pub open spec fn part_bodies(s: Seq<u8>, boundary: Seq<u8>) -> Seq<Seq<u8>> {
    parts_from(s, next_delimiter(s, 0, boundary), boundary, Seq::empty())
}

/// One node of the MIME structure of a message. A container, whose content
/// type begins with `multipart/`, holds parts and no body of its own; any
/// other node is a leaf and holds its body as it was sent.
#[derive(Debug, PartialEq, Eq)]
pub struct MimePart {
    /// The media type, in lower case; `text/plain` where the part names none.
    pub content_type: Vec<u8>,
    /// The parameters of the content type.
    pub parameters: Vec<Header>,
    /// The header of the part, each name once: the first field of a name
    /// stays.
    pub headers: Vec<Header>,
    /// The body of a leaf, not decoded.
    pub body: Vec<u8>,
    /// The parts of a container.
    pub children: Vec<MimePart>,
}

/// A `MimePart`, seen as plain values.
pub struct Part {
    pub content_type: Seq<u8>,
    pub parameters: Seq<Field>,
    pub headers: Seq<Field>,
    pub body: Seq<u8>,
    pub children: Seq<Part>,
}

impl MimePart {
    /// The part as plain values, its parts included.
    pub open spec fn model(&self) -> Part
        decreases self,
    {
        Part {
            content_type: self.content_type@,
            parameters: fields_of(self.parameters@),
            headers: fields_of(self.headers@),
            body: self.body@,
            children: Self::models(self.children@),
        }
    }

    /// A list of parts as plain values.
    pub open spec fn models(parts: Seq<MimePart>) -> Seq<Part>
        decreases parts,
    {
        if parts.len() == 0 {
            Seq::empty()
        } else {
            Self::models(parts.drop_last()).push(parts.last().model())
        }
    }
}

impl View for MimePart {
    type V = Part;

    open spec fn view(&self) -> Part {
        self.model()
    }
}

/// A list of parts, seen as plain values.
pub open spec fn parts_of(parts: Seq<MimePart>) -> Seq<Part> {
    Seq::new(parts.len(), |i: int| parts[i]@)
}

/// The views of a list of parts are the views of its members.
pub proof fn lemma_models(parts: Seq<MimePart>)
    ensures
        MimePart::models(parts) == parts_of(parts),
    decreases parts.len(),
{
    if parts.len() > 0 {
        lemma_models(parts.drop_last());
        assert(MimePart::models(parts) =~= parts_of(parts));
    } else {
        assert(MimePart::models(parts) =~= parts_of(parts));
    }
}

/// The view of a part holds the views of its parts.
pub proof fn lemma_view_children(part: MimePart)
    ensures
        part@.children == parts_of(part.children@),
        part@.content_type == part.content_type@,
        part@.parameters == fields_of(part.parameters@),
        part@.headers == fields_of(part.headers@),
        part@.body == part.body@,
{
    lemma_models(part.children@);
}

/// How deep the parts of a message are followed.
pub const MAX_NESTING: usize = 16;

/// The MIME structure of a message, followed `depth` containers deep.
///
/// The header is read and each name kept once. The content type is what
/// the `Content-Type` field names, `text/plain` without one. A container
/// holds the parts that its boundary keeps apart, each read as a message in
/// small; below the last level, or without a boundary, it holds none.
pub open spec fn mime_tree(data: Seq<u8>, depth: nat) -> Part
    decreases depth,
{
    let split = header_scan(data, 0, Seq::empty());
    let headers = first_wins(split.fields);
    let named = value_of(headers, content_type_name());
    let media = match named {
        Some(v) => media_type(v),
        None => text_plain(),
    };
    let params = match named {
        Some(v) => parameters(v),
        None => Seq::empty(),
    };
    let body = data.skip(split.body_start);
    if is_multipart(media) {
        Part {
            content_type: media,
            parameters: params,
            headers,
            body: Seq::empty(),
            children: match value_of(params, boundary_name()) {
                Some(b) => if depth > 0 {
                    Seq::new(
                        part_bodies(body, b).len(),
                        |i: int| mime_tree(part_bodies(body, b)[i], (depth - 1) as nat),
                    )
                } else {
                    Seq::empty()
                },
                None => Seq::empty(),
            },
        }
    } else {
        Part { content_type: media, parameters: params, headers, body, children: Seq::empty() }
    }
}

/// Tells whether the line that starts at `from` says `mark` and nothing
/// else.
fn line_says_mark(s: &[u8], from: usize, mark: &[u8]) -> (r: bool)
    ensures
        r == line_says(s@, from as int, mark@),
{
    if !matches_at(s, from, mark) {
        return false;
    }
    let (ce, _) = line_bounds(s, from);
    let mut k: usize = from + mark.len();
    while k < ce
        invariant
            from + mark.len() <= k,
            ce <= s.len(),
            ce == content_end(s@, from as int),
            forall|j: int| from + mark.len() <= j < k ==> is_blank(#[trigger] s@[j]),
        decreases ce - k,
    {
        if s[k] != SPACE && s[k] != TAB {
            assert(!is_blank(s@[k as int]));
            return false;
        }
        k = k + 1;
    }
    true
}

/// Finds the first delimiter line at or after the line that starts at
/// `from`.
fn seek_delimiter(s: &[u8], from: usize, mark: &[u8], closing: &[u8]) -> (r: usize)
    requires
        from <= s.len(),
    ensures
        from <= r <= s.len(),
        forall|boundary: Seq<u8>|
            mark@ == delimiter(boundary) && closing@ == delimiter(boundary) + seq![DASH, DASH]
                ==> r == #[trigger] next_delimiter(s@, from as int, boundary),
{
    let mut at: usize = from;
    while at < s.len() && !(line_says_mark(s, at, mark) || line_says_mark(s, at, closing))
        invariant
            from <= at <= s.len(),
            forall|boundary: Seq<u8>|
                mark@ == delimiter(boundary) && closing@ == delimiter(boundary) + seq![DASH, DASH]
                    ==> #[trigger] next_delimiter(s@, from as int, boundary) == next_delimiter(
                    s@,
                    at as int,
                    boundary,
                ),
        decreases s.len() - at,
    {
        let (_, nx) = line_bounds(s, at);
        at = nx;
    }
    at
}

/// Reads the parts of a `multipart/*` body, each `depth` containers deep.
fn read_parts(s: &[u8], boundary: &[u8], depth: usize) -> (r: Vec<MimePart>)
    ensures
        parts_of(r@) == Seq::new(
            part_bodies(s@, boundary@).len(),
            |i: int| mime_tree(part_bodies(s@, boundary@)[i], depth as nat),
        ),
    decreases depth, 1nat,
{
    let mut mark: Vec<u8> = Vec::new();
    mark.push(DASH);
    mark.push(DASH);
    mark.extend_from_slice(boundary);
    assert(mark@ =~= delimiter(boundary@));
    let mut closing: Vec<u8> = Vec::new();
    closing.extend_from_slice(mark.as_slice());
    closing.push(DASH);
    closing.push(DASH);
    assert(closing@ =~= delimiter(boundary@) + seq![DASH, DASH]);
    let mut parts: Vec<MimePart> = Vec::new();
    let ghost mut bodies: Seq<Seq<u8>> = Seq::empty();
    let mut d: usize = seek_delimiter(s, 0, mark.as_slice(), closing.as_slice());
    assert(parts_of(parts@) =~= Seq::new(
        bodies.len(),
        |i: int| mime_tree(bodies[i], depth as nat),
    ));
    while d < s.len() && !line_says_mark(s, d, closing.as_slice())
        invariant
            d <= s.len(),
            mark@ == delimiter(boundary@),
            closing@ == delimiter(boundary@) + seq![DASH, DASH],
            parts_from(s@, d as int, boundary@, bodies) == part_bodies(s@, boundary@),
            parts_of(parts@) == Seq::new(
                bodies.len(),
                |i: int| mime_tree(bodies[i], depth as nat),
            ),
        decreases s.len() - d,
    {
        let (_, start) = line_bounds(s, d);
        let nd = seek_delimiter(s, start, mark.as_slice(), closing.as_slice());
        assert(nd == next_delimiter(s@, start as int, boundary@));
        let end: usize = if nd >= s.len() {
            s.len()
        } else if nd > start && s[nd - 1] == LF {
            if nd - 1 > start && s[nd - 2] == CR {
                nd - 2
            } else {
                nd - 1
            }
        } else {
            nd
        };
        let part = parse_part(&s[start..end], depth);
        let ghost before = parts_of(parts@);
        parts.push(part);
        proof {
            let body = s@.subrange(start as int, end as int);
            assert(parts_of(parts@) =~= before.push(mime_tree(body, depth as nat)));
            bodies = bodies.push(body);
            assert(parts_of(parts@) =~= Seq::new(
                bodies.len(),
                |i: int| mime_tree(bodies[i], depth as nat),
            ));
        }
        d = nd;
    }
    parts
}

/// Reads the MIME structure of a message, `depth` containers deep.
pub fn parse_part(data: &[u8], depth: usize) -> (r: MimePart)
    ensures
        r@ == mime_tree(data@, depth as nat),
    decreases depth, 0nat,
{
    let (all, body_start) = scan_headers(data);
    let headers = keep_first(&all);
    let (content_type, parameters) = match lookup(&headers, "content-type".as_bytes()) {
        Some(v) => (read_media_type(v.as_slice()), read_parameters(v.as_slice())),
        None => (to_vec("text/plain".as_bytes()), Vec::new()),
    };
    let body = &data[body_start..data.len()];
    assert(body@ =~= data@.skip(body_start as int));
    assert(fields_of(Seq::<Header>::empty()) =~= Seq::<Field>::empty());
    if matches_at(content_type.as_slice(), 0, "multipart/".as_bytes()) {
        let children: Vec<MimePart> = if depth > 0 {
            match lookup(&parameters, "boundary".as_bytes()) {
                Some(b) => read_parts(body, b.as_slice(), depth - 1),
                None => Vec::new(),
            }
        } else {
            Vec::new()
        };
        let ghost kids = parts_of(children@);
        assert(kids =~= mime_tree(data@, depth as nat).children);
        let r = MimePart { content_type, parameters, headers, body: Vec::new(), children };
        proof {
            lemma_view_children(r);
        }
        r
    } else {
        let r = MimePart {
            content_type,
            parameters,
            headers,
            body: to_vec(body),
            children: Vec::new(),
        };
        proof {
            lemma_view_children(r);
            assert(parts_of(r.children@) =~= Seq::<Part>::empty());
        }
        r
    }
}

/// Reads the MIME structure of a message.
pub fn parse_mail(data: &[u8]) -> (r: MimePart)
    ensures
        r@ == mime_tree(data@, MAX_NESTING as nat),
{
    parse_part(data, MAX_NESTING)
}

} // verus!

//! The header block shared by requests and responses: `name: value` lines
//! ended by a blank line.
use vstd::prelude::*;

use vstd::slice::slice_subrange;
use vstd::string::StringSliceAdditionalSpecFns;
use vstd::utf8::{decode_utf8, encode_utf8, valid_utf8};

use crate::Exhausted;

verus! {

/// Carriage return and line feed.
pub open spec fn crlf() -> Seq<u8> {
    seq![13u8, 10u8]
}

/// One header field, `name: value`, without its line end.
pub open spec fn field_line(name: Seq<u8>, value: Seq<u8>) -> Seq<u8> {
    name + seq![58u8, 32u8] + value
}

/// The bytes of one header field as the builder writes it.
pub open spec fn header_line(name: Seq<u8>, value: Seq<u8>) -> Seq<u8> {
    field_line(name, value) + crlf()
}

/// The field lines of `fields`, each a pair of name and value.
pub open spec fn field_lines(fields: Seq<(Seq<u8>, Seq<u8>)>) -> Seq<Seq<u8>> {
    fields.map_values(|f: (Seq<u8>, Seq<u8>)| field_line(f.0, f.1))
}

/// `lines`, each followed by CR LF.
pub open spec fn join_lines(lines: Seq<Seq<u8>>) -> Seq<u8>
    decreases lines.len(),
{
    if lines.len() == 0 {
        Seq::empty()
    } else {
        lines[0] + crlf() + join_lines(lines.drop_first())
    }
}

/// `d` holds no carriage return.
pub open spec fn no_cr(d: Seq<u8>) -> bool {
    forall|i: int| 0 <= i < d.len() ==> d[i] != 13u8
}

/// `d` holds no CR LF pair.
pub open spec fn no_crlf(d: Seq<u8>) -> bool {
    forall|i: int| !crlf_at(d, i)
}

/// A line that the header parser takes as a field: it has a colon, is
/// valid UTF-8 and holds no CR LF.
pub open spec fn good_line(line: Seq<u8>) -> bool {
    line.contains(58u8) && valid_utf8(line) && no_crlf(line)
}

/// A name and value that the builder can write and the parser read back:
/// both valid UTF-8 without CR LF.
pub open spec fn plain_field(name: Seq<u8>, value: Seq<u8>) -> bool {
    valid_utf8(name) && valid_utf8(value) && no_crlf(name) && no_crlf(value)
}

/// Bytes without carriage returns hold no CR LF.
pub proof fn lemma_no_cr_no_crlf(d: Seq<u8>)
    requires
        no_cr(d),
    ensures
        no_crlf(d),
{
    assert forall|i: int| !crlf_at(d, i) by {
        if crlf_at(d, i) {
            assert(d[i] != 13u8);
        }
    }
}

/// Joining two pieces without CR LF by a separator without CR or LF bytes
/// makes no CR LF.
pub proof fn lemma_no_crlf_join(a: Seq<u8>, sep: Seq<u8>, b: Seq<u8>)
    requires
        no_crlf(a),
        no_crlf(b),
        sep.len() > 0,
        forall|i: int| 0 <= i < sep.len() ==> sep[i] != 13u8 && sep[i] != 10u8,
    ensures
        no_crlf(a + sep + b),
{
    let d = a + sep + b;
    let m = a.len() + sep.len();
    assert forall|i: int| !crlf_at(d, i) by {
        if crlf_at(d, i) {
            if i + 1 < a.len() {
                assert(d[i] == a[i] && d[i + 1] == a[i + 1]);
                assert(crlf_at(a, i));
            } else if i + 1 == a.len() {
                assert(d[i + 1] == sep[0]);
            } else if i < m {
                assert(d[i] == sep[i - a.len()]);
            } else {
                assert(d[i] == b[i - m] && d[i + 1] == b[i + 1 - m]);
                assert(crlf_at(b, i - m));
            }
        }
    }
}

/// The bytes of an ASCII string literal.
pub(crate) fn ascii(s: &'static str) -> (r: &'static [u8])
    requires
        vstd::utf8::is_ascii_chars(s@),
    ensures
        r@.len() == s@.len(),
        forall|i: int| 0 <= i < s@.len() ==> r@[i] == s@[i] as u8,
{
    proof {
        vstd::utf8::is_ascii_chars_encode_utf8(s@);
    }
    s.as_bytes()
}

/// `": "` as bytes.
fn colon_space() -> (r: &'static [u8])
    ensures
        r@ == seq![58u8, 32u8],
{
    proof {
        reveal_strlit(": ");
    }
    let r = ascii(": ");
    assert(r@ =~= seq![58u8, 32u8]);
    r
}

/// CRLF as bytes.
pub(crate) fn crlf_bytes() -> (r: &'static [u8])
    ensures
        r@ == crlf(),
{
    proof {
        reveal_strlit("\r\n");
    }
    let r = ascii("\r\n");
    assert(r@ =~= crlf());
    r
}

/// Writes header fields into a borrowed buffer, always keeping two bytes
/// free for the blank line that `finish` appends.
pub struct HeadersBuilder<'a> {
    pub(crate) buffer: &'a mut [u8],
    pub(crate) index: usize,
}

impl<'a> HeadersBuilder<'a> {
    /// The bytes written so far.
    pub closed spec fn written(&self) -> Seq<u8> {
        self.buffer@.subrange(0, self.index as int)
    }

    /// The length of the whole buffer.
    pub closed spec fn capacity(&self) -> nat {
        self.buffer@.len()
    }

    /// The bytes after the write position, not written yet.
    pub closed spec fn rest(&self) -> Seq<u8> {
        self.buffer@.subrange(self.index as int, self.buffer@.len() as int)
    }

    /// The write position lies inside the buffer.
    pub closed spec fn inv(&self) -> bool {
        self.index <= self.buffer@.len()
    }

    /// The room for the closing blank line is still free.
    pub open spec fn wf(&self) -> bool {
        self.inv() && self.written().len() + 2 <= self.capacity()
    }

    /// A builder that writes from the start of `buffer`.
    pub(crate) fn start(buffer: &'a mut [u8]) -> (r: Self)
        ensures
            r.inv(),
            r.written() == Seq::<u8>::empty(),
            r.capacity() == old(buffer)@.len(),
            r.rest() == old(buffer)@,
    {
        HeadersBuilder { buffer, index: 0 }
    }

    /// Appends `src` at the write position.
    pub(crate) fn push(self, src: &[u8]) -> (r: Self)
        requires
            self.inv(),
            self.written().len() + src@.len() <= self.capacity(),
        ensures
            r.inv(),
            r.written() == self.written() + src@,
            r.capacity() == self.capacity(),
            r.rest() == self.rest().subrange(src@.len() as int, self.rest().len() as int),
    {
        let mut s = self;
        let start = s.index;
        let cap = s.buffer.len();
        let mut j: usize = 0;
        while j < src.len()
            invariant
                cap == s.buffer@.len(),
                start + src@.len() <= s.buffer@.len(),
                s.index == start,
                s.buffer@.len() == self.buffer@.len(),
                j <= src@.len(),
                s.buffer@.subrange(0, start + j) == self.written() + src@.subrange(0, j as int),
                s.buffer@.subrange(start + j, cap as int) == self.buffer@.subrange(start + j, cap as int),
            decreases src@.len() - j,
        {
            let prev = Ghost(s.buffer@);
            s.buffer[start + j] = src[j];
            assert(s.buffer@.subrange(0, start + j + 1) =~= prev@.subrange(0, start + j).push(src@[j as int]));
            assert(src@.subrange(0, j + 1) =~= src@.subrange(0, j as int).push(src@[j as int]));
            assert(s.buffer@.subrange(start + j + 1, cap as int) =~= prev@.subrange(start + j + 1, cap as int));
            assert(prev@.subrange(start + j + 1, cap as int) =~= self.buffer@.subrange(start + j + 1, cap as int)) by {
                assert forall|t: int| start + j + 1 <= t < cap implies prev@[t] == self.buffer@[t] by {
                    assert(prev@.subrange(start + j, cap as int)[t - start - j] == prev@[t]);
                }
            }
            j = j + 1;
        }
        s.index = start + j;
        assert(src@.subrange(0, j as int) =~= src@);
        assert(s.rest() =~= self.rest().subrange(src@.len() as int, self.rest().len() as int));
        s
    }

    /// Appends one byte at the write position.
    pub(crate) fn push_byte(self, x: u8) -> (r: Self)
        requires
            self.inv(),
            self.written().len() + 1 <= self.capacity(),
        ensures
            r.inv(),
            r.written() == self.written().push(x),
            r.capacity() == self.capacity(),
            r.rest() == self.rest().subrange(1, self.rest().len() as int),
    {
        let mut s = self;
        let i = s.index;
        s.buffer[i] = x;
        s.index = i + 1;
        assert(s.buffer@.subrange(0, i + 1) =~= self.written().push(x));
        assert(s.rest() =~= self.rest().subrange(1, self.rest().len() as int));
        s
    }

    /// Appends the field `header: value` followed by CRLF.
    pub fn add_header(self, header: &str, value: &str) -> (r: Result<Self, Exhausted>)
        requires
            self.wf(),
        ensures
            r is Err <==> self.capacity() - self.written().len()
                < header.spec_bytes().len() + value.spec_bytes().len() + 6,
            r matches Ok(b) ==> b.wf() && b.capacity() == self.capacity()
                && b.written() == self.written() + header_line(header.spec_bytes(), value.spec_bytes())
                && b.rest() == self.rest().subrange(
                header_line(header.spec_bytes(), value.spec_bytes()).len() as int,
                self.rest().len() as int,
            ),
    {
        let name = header.as_bytes();
        let text = value.as_bytes();
        let room = self.buffer.len() - self.index;
        if name.len() > room || text.len() > room - name.len() || room - name.len() - text.len() < 6 {
            return Err(Exhausted);
        }
        let s = self.push(name);
        let s = s.push(colon_space());
        let s = s.push(text);
        let s = s.push(crlf_bytes());
        Ok(s)
    }

    /// Appends the blank line that ends the head and splits the buffer into
    /// the bytes written and the rest, which is left for a body.
    pub fn finish(self) -> (r: (&'a [u8], &'a mut [u8]))
        requires
            self.wf(),
        ensures
            r.0@ == self.written() + crlf(),
            r.1@.len() == self.capacity() - self.written().len() - 2,
            r.1@ == self.rest().subrange(2, self.rest().len() as int),
    {
        let s = self.push(crlf_bytes());
        let (l, r) = s.buffer.split_at_mut(s.index);
        (l, r)
    }
}

/// `d` holds CR LF at `i`.
pub open spec fn crlf_at(d: Seq<u8>, i: int) -> bool {
    0 <= i && i + 1 < d.len() && d[i] == 13u8 && d[i + 1] == 10u8
}

/// The first CR LF of `d` starts at `i`.
pub open spec fn first_crlf(d: Seq<u8>, i: int) -> bool {
    crlf_at(d, i) && forall|j: int| 0 <= j < i ==> !crlf_at(d, j)
}

/// Where the first line of `d` ends, if it ends at all.
pub open spec fn line_end(d: Seq<u8>) -> Option<int> {
    if exists|i: int| first_crlf(d, i) {
        Some(choose|i: int| first_crlf(d, i))
    } else {
        None
    }
}

/// Finds the first CR LF in `d`.
pub(crate) fn find_crlf(d: &[u8]) -> (r: Option<usize>)
    ensures
        match r {
            Some(i) => line_end(d@) == Some(i as int),
            None => line_end(d@) is None,
        },
{
    let n = d.len();
    if n < 2 {
        return None;
    }
    let mut i: usize = 0;
    while i < n - 1
        invariant
            n == d@.len(),
            n >= 2,
            forall|j: int| 0 <= j < i ==> !crlf_at(d@, j),
        decreases d@.len() - i,
    {
        if d[i] == 13u8 && d[i + 1] == 10u8 {
            assert(first_crlf(d@, i as int));
            let ghost k = choose|k: int| first_crlf(d@, k);
            assert(k == i) by {
                if k < i {
                    assert(!crlf_at(d@, k));
                } else if k > i {
                    assert(!crlf_at(d@, i as int));
                }
            }
            return Some(i);
        }
        i = i + 1;
    }
    assert forall|j: int| !first_crlf(d@, j) by {
        if first_crlf(d@, j) {
            assert(j < i);
        }
    }
    None
}

/// Whether `d` holds the byte `b`.
pub(crate) fn has_byte(d: &[u8], b: u8) -> (r: bool)
    ensures
        r == d@.contains(b),
{
    let mut i: usize = 0;
    while i < d.len()
        invariant
            i <= d@.len(),
            forall|j: int| 0 <= j < i ==> d@[j] != b,
        decreases d@.len() - i,
    {
        if d[i] == b {
            assert(d@[i as int] == b);
            return true;
        }
        i = i + 1;
    }
    false
}

/// What can go wrong while reading a header block.
#[derive(Debug, PartialEq, Eq)]
pub enum InvalidHeader {
    /// The block does not end with a blank line, or there are more fields
    /// than slots to hold them.
    Truncated,
    /// A field is not valid UTF-8.
    InvalidUTF8,
    /// A field has no colon.
    NoValue,
}

/// The header block at the start of `data`, read with `slots` slots: the
/// raw field lines and what follows the blank line.
pub open spec fn parse_headers(data: Seq<u8>, slots: nat) -> Result<
    (Seq<Seq<u8>>, Seq<u8>),
    InvalidHeader,
>
    decreases slots,
{
    if slots == 0 || data.len() < 2 {
        Err(InvalidHeader::Truncated)
    } else if data.subrange(0, 2) == crlf() {
        Ok((Seq::empty(), data.subrange(2, data.len() as int)))
    } else {
        match line_end(data) {
            None => Err(InvalidHeader::Truncated),
            Some(i) => {
                let line = data.subrange(0, i);
                if !line.contains(58u8) {
                    Err(InvalidHeader::NoValue)
                } else if !valid_utf8(line) {
                    Err(InvalidHeader::InvalidUTF8)
                } else {
                    match parse_headers(data.subrange(i + 2, data.len() as int), (slots - 1) as nat) {
                        Ok((lines, rest)) => Ok((seq![line] + lines, rest)),
                        Err(e) => Err(e),
                    }
                }
            }
        }
    }
}

/// `res` with `lines` put in front of the lines it found.
pub open spec fn after_lines(
    lines: Seq<Seq<u8>>,
    res: Result<(Seq<Seq<u8>>, Seq<u8>), InvalidHeader>,
) -> Result<(Seq<Seq<u8>>, Seq<u8>), InvalidHeader> {
    match res {
        Ok((more, rest)) => Ok((lines + more, rest)),
        Err(e) => Err(e),
    }
}

proof fn lemma_after_lines_push(
    lines: Seq<Seq<u8>>,
    line: Seq<u8>,
    res: Result<(Seq<Seq<u8>>, Seq<u8>), InvalidHeader>,
)
    ensures
        after_lines(lines, after_lines(seq![line], res)) == after_lines(lines.push(line), res),
{
    match res {
        Ok((more, rest)) => {
            assert(lines + (seq![line] + more) =~= lines.push(line) + more);
        },
        Err(e) => {},
    }
}

/// In valid UTF-8 that starts with an ASCII byte, the next character starts
/// at index one.
proof fn lemma_boundary_after_ascii(bytes: Seq<u8>)
    requires
        valid_utf8(bytes),
        bytes.len() > 0,
        bytes[0] < 128,
    ensures
        vstd::utf8::is_char_boundary(bytes, 1),
{
    assert(vstd::utf8::length_of_first_scalar(bytes) == 1);
    assert(valid_utf8(vstd::utf8::pop_first_scalar(bytes)));
    reveal_with_fuel(vstd::utf8::is_char_boundary, 2);
}

/// A line without CR LF ends at the CR LF put after it.
pub proof fn lemma_line_end(line: Seq<u8>, rest: Seq<u8>)
    requires
        no_crlf(line),
    ensures
        line_end(line + crlf() + rest) == Some(line.len() as int),
{
    let d = line + crlf() + rest;
    let n = line.len() as int;
    assert(d[n] == 13u8 && d[n + 1] == 10u8);
    assert forall|j: int| 0 <= j < n implies !crlf_at(d, j) by {
        if j + 1 < n {
            assert(d[j] == line[j] && d[j + 1] == line[j + 1]);
            assert(!crlf_at(line, j));
        }
    }
    assert(first_crlf(d, n));
    let k = choose|k: int| first_crlf(d, k);
    if k < n {
        assert(!crlf_at(d, k));
    } else if k > n {
        assert(!crlf_at(d, n));
    }
}

/// Reading a block of good field lines: when there are slots for all of
/// them, the lines come first and the rest is read from what follows;
/// otherwise the slots run out.
pub proof fn lemma_parse_joined(lines: Seq<Seq<u8>>, tail: Seq<u8>, slots: nat)
    requires
        forall|k: int| 0 <= k < lines.len() ==> good_line(#[trigger] lines[k]),
    ensures
        parse_headers(join_lines(lines) + tail, slots) == if slots <= lines.len() {
            Err(InvalidHeader::Truncated)
        } else {
            after_lines(lines, parse_headers(tail, (slots - lines.len()) as nat))
        },
    decreases lines.len(),
{
    if lines.len() == 0 {
        assert(join_lines(lines) + tail =~= tail);
        match parse_headers(tail, slots) {
            Ok((more, rest)) => {
                assert(lines + more =~= more);
            },
            Err(e) => {},
        }
    } else {
        let line = lines[0];
        let others = lines.drop_first();
        let rest = join_lines(others) + tail;
        let d = join_lines(lines) + tail;
        assert(d =~= line + crlf() + rest);
        if slots > 0 {
            assert(good_line(line));
            lemma_line_end(line, rest);
            let n = line.len() as int;
            assert(d.subrange(0, 2) != crlf()) by {
                if d.subrange(0, 2) == crlf() {
                    assert(d.subrange(0, 2)[0] == 13u8 && d.subrange(0, 2)[1] == 10u8);
                    assert(d[0] == line[0]);
                    if n >= 2 {
                        assert(d[1] == line[1]);
                        assert(crlf_at(line, 0));
                    } else {
                        let c = choose|c: int| 0 <= c < line.len() && line[c] == 58u8;
                    }
                }
            }
            assert(d.subrange(0, n) =~= line);
            assert(d.subrange(n + 2, d.len() as int) =~= rest);
            lemma_parse_joined(others, tail, (slots - 1) as nat);
            if slots > lines.len() {
                let inner = parse_headers(tail, (slots - lines.len()) as nat);
                lemma_after_lines_push(seq![line], line, inner);
                match inner {
                    Ok((more, r)) => {
                        assert(seq![line] + (others + more) =~= lines + more);
                    },
                    Err(e) => {},
                }
            }
        }
    }
}

/// Header fields read back: a block of good lines closed by a blank line,
/// with a slot for each line and one for the blank line, reads back as
/// those lines, and the rest is what follows the blank line.
pub proof fn lemma_headers_round_trip(lines: Seq<Seq<u8>>, body: Seq<u8>, slots: nat)
    requires
        forall|k: int| 0 <= k < lines.len() ==> good_line(#[trigger] lines[k]),
        slots > lines.len(),
    ensures
        parse_headers(join_lines(lines) + crlf() + body, slots) == Ok::<_, InvalidHeader>(
            (lines, body),
        ),
{
    let tail = crlf() + body;
    assert(join_lines(lines) + crlf() + body =~= join_lines(lines) + tail);
    lemma_parse_joined(lines, tail, slots);
    assert(tail.subrange(0, 2) =~= crlf());
    assert(tail.subrange(2, tail.len() as int) =~= body);
    assert(lines + Seq::empty() =~= lines);
}

/// Truncation: a block of good field lines that lacks the closing blank
/// line, and ends in a tail without CR LF, fails with `Truncated`.
pub proof fn lemma_headers_truncated(lines: Seq<Seq<u8>>, tail: Seq<u8>, slots: nat)
    requires
        forall|k: int| 0 <= k < lines.len() ==> good_line(#[trigger] lines[k]),
        no_crlf(tail),
    ensures
        parse_headers(join_lines(lines) + tail, slots) == Err::<(Seq<Seq<u8>>, Seq<u8>), _>(
            InvalidHeader::Truncated,
        ),
{
    lemma_parse_joined(lines, tail, slots);
    if slots > lines.len() {
        if tail.len() >= 2 && tail.subrange(0, 2) == crlf() {
            assert(tail.subrange(0, 2)[0] == tail[0] && tail.subrange(0, 2)[1] == tail[1]);
            assert(crlf_at(tail, 0));
        }
        assert(!exists|i: int| first_crlf(tail, i));
    }
}

/// Storage bound: a block with at least as many fields as slots fails with
/// `Truncated`, whatever follows.
pub proof fn lemma_headers_storage_bound(lines: Seq<Seq<u8>>, tail: Seq<u8>, slots: nat)
    requires
        forall|k: int| 0 <= k < lines.len() ==> good_line(#[trigger] lines[k]),
        slots <= lines.len(),
    ensures
        parse_headers(join_lines(lines) + tail, slots) == Err::<(Seq<Seq<u8>>, Seq<u8>), _>(
            InvalidHeader::Truncated,
        ),
{
    lemma_parse_joined(lines, tail, slots);
}

/// The line of a plain field is a good line.
pub proof fn lemma_plain_field_line(name: Seq<u8>, value: Seq<u8>)
    requires
        plain_field(name, value),
    ensures
        good_line(field_line(name, value)),
{
    let line = field_line(name, value);
    let sep = seq![58u8, 32u8];
    vstd::utf8::is_ascii_chars_encode_utf8(seq![':', ' ']);
    assert(encode_utf8(seq![':', ' ']) =~= sep);
    vstd::utf8::encode_utf8_valid_utf8(seq![':', ' ']);
    vstd::utf8::valid_utf8_concat(name, sep);
    vstd::utf8::valid_utf8_concat(name + sep, value);
    assert(line[name.len() as int] == 58u8);
    lemma_no_crlf_join(name, sep, value);
}

/// The lines of plain fields are good lines.
pub proof fn lemma_plain_field_lines(fields: Seq<(Seq<u8>, Seq<u8>)>)
    requires
        forall|k: int| 0 <= k < fields.len() ==> plain_field(#[trigger] fields[k].0, fields[k].1),
    ensures
        forall|k: int| 0 <= k < fields.len() ==> good_line(#[trigger] field_lines(fields)[k]),
{
    assert forall|k: int| 0 <= k < fields.len() implies good_line(#[trigger] field_lines(fields)[k]) by {
        lemma_plain_field_line(fields[k].0, fields[k].1);
    }
}

/// Header fidelity: adding one more field appends exactly its line, so the
/// fields of a head stand in the order they were added.
pub proof fn lemma_fields_push(fields: Seq<(Seq<u8>, Seq<u8>)>, name: Seq<u8>, value: Seq<u8>)
    ensures
        join_lines(field_lines(fields.push((name, value)))) == join_lines(field_lines(fields))
            + header_line(name, value),
    decreases fields.len(),
{
    let more = fields.push((name, value));
    if fields.len() == 0 {
        assert(field_lines(more) =~= seq![field_line(name, value)]);
        assert(field_lines(more).drop_first() =~= Seq::<Seq<u8>>::empty());
        assert(join_lines(field_lines(more).drop_first()) =~= Seq::<u8>::empty());
        assert(field_lines(more)[0] == field_line(name, value));
        assert(join_lines(field_lines(more)) =~= header_line(name, value));
        assert(join_lines(field_lines(fields)) =~= Seq::<u8>::empty());
    } else {
        let rest = fields.drop_first();
        assert(more.drop_first() =~= rest.push((name, value)));
        assert(field_lines(more).drop_first() =~= field_lines(rest.push((name, value))));
        assert(field_lines(fields).drop_first() =~= field_lines(rest));
        lemma_fields_push(rest, name, value);
        assert(field_lines(more)[0] == field_lines(fields)[0]);
        assert(join_lines(field_lines(more)) =~= join_lines(field_lines(fields)) + header_line(name, value));
    }
}

/// Two names that differ at most in ASCII case.
pub open spec fn same_name(a: Seq<u8>, b: Seq<u8>) -> bool {
    a.len() == b.len() && forall|i: int| 0 <= i < a.len() ==> ascii_lower(#[trigger] a[i]) == ascii_lower(b[i])
}

/// `s` is empty or does not start with white space.
pub open spec fn plain_start(s: Seq<char>) -> bool {
    s.len() == 0 || !is_white_space(s[0])
}

/// Case-insensitive lookup: a name finds what any other casing of it finds.
pub proof fn lemma_lookup_ignores_case(lines: Seq<Seq<u8>>, a: Seq<u8>, b: Seq<u8>)
    requires
        same_name(a, b),
    ensures
        lookup(lines, a) == lookup(lines, b),
    decreases lines.len(),
{
    if lines.len() > 0 {
        let line = lines[0];
        if names_field(line, a) {
            assert forall|i: int| 0 <= i < b.len() implies ascii_lower(#[trigger] line[i]) == ascii_lower(b[i]) by {
                assert(ascii_lower(a[i]) == ascii_lower(b[i]));
            }
        }
        if names_field(line, b) {
            assert forall|i: int| 0 <= i < a.len() implies ascii_lower(#[trigger] line[i]) == ascii_lower(a[i]) by {
                assert(ascii_lower(a[i]) == ascii_lower(b[i]));
            }
        }
        lemma_lookup_ignores_case(lines.drop_first(), a, b);
    }
}

/// The field line of a name without colons is not named by a name without
/// colons that differs from it in more than case.
proof fn lemma_other_name(n: Seq<u8>, v: Seq<u8>, m: Seq<u8>)
    requires
        !n.contains(58u8),
        !m.contains(58u8),
        !same_name(n, m),
    ensures
        !names_field(field_line(n, v), m),
{
    let line = field_line(n, v);
    let a = n.len() as int;
    let b = m.len() as int;
    if names_field(line, m) {
        if b < a {
            assert(line[b] == n[b]);
        } else if b == a {
            assert forall|i: int| 0 <= i < a implies ascii_lower(#[trigger] n[i]) == ascii_lower(m[i]) by {
                assert(line[i] == n[i]);
            }
        } else {
            assert(line[a] == 58u8);
            assert(ascii_lower(line[a]) == ascii_lower(m[a]));
            assert(m[a] == 58u8);
        }
    }
}

/// A space put before valid UTF-8 decodes to a space before its characters.
proof fn lemma_decode_after_space(v: Seq<u8>)
    requires
        valid_utf8(v),
    ensures
        decode_utf8(seq![32u8] + v) == seq![' '] + decode_utf8(v),
{
    let w = decode_utf8(v);
    vstd::utf8::decode_utf8_encode_utf8(v);
    vstd::utf8::is_ascii_chars_encode_utf8(seq![' ']);
    let cs = seq![' '] + w;
    assert(cs.drop_first() =~= w);
    assert(seq![' '].drop_first() =~= Seq::<char>::empty());
    assert(encode_utf8(cs) == vstd::utf8::encode_scalar(' ' as u32) + encode_utf8(w));
    assert(encode_utf8(seq![' ']) == vstd::utf8::encode_scalar(' ' as u32) + encode_utf8(Seq::<char>::empty()));
    assert(encode_utf8(seq![' ']) =~= seq![32u8]);
    assert(encode_utf8(cs) =~= seq![32u8] + v);
    vstd::utf8::encode_utf8_decode_utf8(cs);
}

/// Each plain field reads back by its name, as long as no name up to it
/// holds a colon, no earlier field has the same name, and the value does not
/// start with white space.
pub proof fn lemma_lookup_field(fields: Seq<(Seq<u8>, Seq<u8>)>, k: int)
    requires
        0 <= k < fields.len(),
        forall|j: int| 0 <= j <= k ==> plain_field(#[trigger] fields[j].0, fields[j].1),
        forall|j: int| 0 <= j <= k ==> !(#[trigger] fields[j].0).contains(58u8),
        forall|j: int| 0 <= j < k ==> !same_name(#[trigger] fields[j].0, fields[k].0),
        plain_start(decode_utf8(fields[k].1)),
    ensures
        lookup(field_lines(fields), fields[k].0) == Some(decode_utf8(fields[k].1)),
    decreases k,
{
    let lines = field_lines(fields);
    let n = fields[0].0;
    let v = fields[0].1;
    let line = field_line(n, v);
    assert(lines[0] == line);
    assert(plain_field(n, v));
    if k == 0 {
        assert(line[n.len() as int] == 58u8);
        assert forall|i: int| 0 <= i < n.len() implies ascii_lower(#[trigger] line[i]) == ascii_lower(n[i]) by {
            assert(line[i] == n[i]);
        }
        assert(names_field(line, n));
        assert(line.subrange(n.len() + 1 as int, line.len() as int) =~= seq![32u8] + v);
        lemma_decode_after_space(v);
        let w = decode_utf8(v);
        assert((seq![' '] + w).drop_first() =~= w);
        assert(is_white_space(' '));
        assert(trim_start_of(seq![' '] + w) == trim_start_of(w));
    } else {
        let m = fields[k].0;
        assert(plain_field(m, fields[k].1));
        assert(!same_name(n, m));
        lemma_other_name(n, v, m);
        let rest = fields.drop_first();
        assert(lines.drop_first() =~= field_lines(rest));
        assert forall|j: int| 0 <= j <= k - 1 implies plain_field(#[trigger] rest[j].0, rest[j].1) by {
            assert(rest[j] == fields[j + 1]);
        }
        assert forall|j: int| 0 <= j <= k - 1 implies !(#[trigger] rest[j].0).contains(58u8) by {
            assert(rest[j] == fields[j + 1]);
        }
        assert forall|j: int| 0 <= j < k - 1 implies !same_name(#[trigger] rest[j].0, rest[k - 1].0) by {
            assert(rest[j] == fields[j + 1]);
        }
        lemma_lookup_field(rest, k - 1);
    }
}

/// Round trip for header fields: the block the builder writes for
/// `fields`, closed by a blank line, reads back as their lines with the
/// body after it. Each field whose name and the names before it hold no
/// colon, that no earlier field names, and whose value does not start with
/// white space, is found by its name with its value.
pub proof fn lemma_header_fields_round_trip(
    fields: Seq<(Seq<u8>, Seq<u8>)>,
    body: Seq<u8>,
    slots: nat,
)
    requires
        forall|k: int| 0 <= k < fields.len() ==> plain_field(#[trigger] fields[k].0, fields[k].1),
        slots > fields.len(),
    ensures
        parse_headers(join_lines(field_lines(fields)) + crlf() + body, slots) == Ok::<_, InvalidHeader>(
            (field_lines(fields), body),
        ),
        forall|k: int|
            0 <= k < fields.len() && plain_start(decode_utf8(fields[k].1)) && (forall|j: int|
                0 <= j <= k ==> !(#[trigger] fields[j].0).contains(58u8)) && (forall|j: int|
                0 <= j < k ==> !same_name(#[trigger] fields[j].0, fields[k].0)) ==> lookup(
                field_lines(fields),
                #[trigger] fields[k].0,
            ) == Some(decode_utf8(fields[k].1)),
{
    lemma_plain_field_lines(fields);
    lemma_headers_round_trip(field_lines(fields), body, slots);
    assert forall|k: int|
        0 <= k < fields.len() && plain_start(decode_utf8(fields[k].1)) && (forall|j: int|
            0 <= j <= k ==> !(#[trigger] fields[j].0).contains(58u8)) && (forall|j: int|
            0 <= j < k ==> !same_name(#[trigger] fields[j].0, fields[k].0)) implies lookup(
        field_lines(fields),
        #[trigger] fields[k].0,
    ) == Some(decode_utf8(fields[k].1)) by {
        lemma_lookup_field(fields, k);
    }
}

/// Relies on `core::str::from_utf8`: it accepts exactly the valid UTF-8
/// byte strings, and the string it returns holds those bytes.
#[verifier::external_body]
pub(crate) fn str_from_utf8(b: &[u8]) -> (r: Option<&str>)
    ensures
        r is Some <==> valid_utf8(b@),
        r matches Some(s) ==> s.spec_bytes() == b@,
{
    core::str::from_utf8(b).ok()
}

/// White space as `char::is_whitespace` has it: the Unicode `White_Space`
/// property.
pub open spec fn is_white_space(c: char) -> bool {
    ('\t' <= c && c <= '\r') || c == ' ' || c == '\u{85}' || c == '\u{a0}' || c == '\u{1680}'
        || ('\u{2000}' <= c && c <= '\u{200a}') || c == '\u{2028}' || c == '\u{2029}'
        || c == '\u{202f}' || c == '\u{205f}' || c == '\u{3000}'
}

/// `s` without its leading white space.
pub open spec fn trim_start_of(s: Seq<char>) -> Seq<char>
    decreases s.len(),
{
    if s.len() > 0 && is_white_space(s[0]) {
        trim_start_of(s.drop_first())
    } else {
        s
    }
}

/// Relies on `str::trim_start`: it drops the leading white space.
#[verifier::external_body]
fn trim_start(s: &str) -> (r: &str)
    ensures
        r@ == trim_start_of(s@),
{
    s.trim_start()
}

/// `b` with ASCII upper case letters made lower case.
pub open spec fn ascii_lower(b: u8) -> u8 {
    if 65 <= b && b <= 90 {
        (b + 32) as u8
    } else {
        b
    }
}

/// Lower-cases one ASCII letter.
fn to_lower(b: u8) -> (r: u8)
    ensures
        r == ascii_lower(b),
{
    if 65u8 <= b && b <= 90u8 {
        b + 32
    } else {
        b
    }
}

/// `line` is a field whose name is `name`, ignoring ASCII case.
pub open spec fn names_field(line: Seq<u8>, name: Seq<u8>) -> bool {
    name.len() < line.len() && line[name.len() as int] == 58u8 && forall|i: int|
        0 <= i < name.len() ==> ascii_lower(#[trigger] line[i]) == ascii_lower(name[i])
}

/// The value of the field `line` whose name is `n` bytes long: what follows
/// the colon, without leading white space.
pub open spec fn field_value(line: Seq<u8>, n: nat) -> Seq<char> {
    trim_start_of(decode_utf8(line.subrange(n + 1 as int, line.len() as int)))
}

/// The value of the first of `lines` named `name`.
pub open spec fn lookup(lines: Seq<Seq<u8>>, name: Seq<u8>) -> Option<Seq<char>>
    decreases lines.len(),
{
    if lines.len() == 0 {
        None
    } else if names_field(lines[0], name) {
        Some(field_value(lines[0], name.len()))
    } else {
        lookup(lines.drop_first(), name)
    }
}

/// Whether the first `name.len()` bytes of `line` equal `name`, ignoring
/// ASCII case.
fn name_prefix_matches(line: &[u8], name: &[u8]) -> (r: bool)
    requires
        name@.len() <= line@.len(),
    ensures
        r == forall|i: int|
            0 <= i < name@.len() ==> ascii_lower(#[trigger] line@[i]) == ascii_lower(name@[i]),
{
    let mut i: usize = 0;
    while i < name.len()
        invariant
            name@.len() <= line@.len(),
            i <= name@.len(),
            forall|j: int| 0 <= j < i ==> ascii_lower(#[trigger] line@[j]) == ascii_lower(name@[j]),
        decreases name@.len() - i,
    {
        if to_lower(line[i]) != to_lower(name[i]) {
            return false;
        }
        i = i + 1;
    }
    true
}

/// The header fields of a parsed message, as raw lines.
#[derive(Debug)]
pub struct HeadersParser<'a, 'b> {
    headers: &'b [&'a str],
}

impl<'a, 'b> HeadersParser<'a, 'b> {
    /// The field lines, in the order they came.
    pub closed spec fn lines(&self) -> Seq<Seq<u8>> {
        self.headers@.map_values(|h: &str| h.spec_bytes())
    }

    /// Reads the header block at the start of `data` into `storage`, one
    /// field line per slot.
    pub fn parse(data: &'a [u8], storage: &'b mut [&'a str]) -> (r: Result<
        (Self, &'a [u8]),
        InvalidHeader,
    >)
        ensures
            match r {
                Ok((p, rest)) => parse_headers(data@, old(storage)@.len()) == Ok::<_, InvalidHeader>((p.lines(), rest@)),
                Err(e) => parse_headers(data@, old(storage)@.len()) == Err::<(Seq<Seq<u8>>, Seq<u8>), _>(e),
            },
            final(storage)@.len() == old(storage)@.len(),
            r matches Ok((p, _)) ==> final(storage)@.subrange(0, p.lines().len() as int).map_values(
                |h: &str| h.spec_bytes(),
            ) == p.lines(),
            r matches Ok((p, _)) ==> final(storage)@.subrange(p.lines().len() as int, old(storage)@.len() as int)
                == old(storage)@.subrange(p.lines().len() as int, old(storage)@.len() as int),
    {
        let slots = storage.len();
        let mut cur = data;
        let mut index: usize = 0;
        while index < slots
            invariant
                slots == storage@.len(),
                slots == old(storage)@.len(),
                index <= slots,
                storage@.subrange(index as int, slots as int) == old(storage)@.subrange(index as int, slots as int),
                parse_headers(data@, slots as nat) == after_lines(
                    storage@.subrange(0, index as int).map_values(|h: &str| h.spec_bytes()),
                    parse_headers(cur@, (slots - index) as nat),
                ),
            decreases slots - index,
        {
            let ghost lines = storage@.subrange(0, index as int).map_values(|h: &str| h.spec_bytes());
            if cur.len() < 2 {
                return Err(InvalidHeader::Truncated);
            }
            if cur[0] == 13u8 && cur[1] == 10u8 {
                assert(cur@.subrange(0, 2) =~= crlf());
                let st: &'b [&'a str] = storage;
                let headers = slice_subrange(st, 0, index);
                let rest = slice_subrange(cur, 2, cur.len());
                assert(lines + Seq::empty() =~= lines);
                assert(headers@.map_values(|h: &str| h.spec_bytes()) =~= lines);
                return Ok((HeadersParser { headers }, rest));
            }
            assert(cur@.subrange(0, 2) != crlf());
            match find_crlf(cur) {
                None => {
                    return Err(InvalidHeader::Truncated);
                },
                Some(i) => {
                    let ghost prev = cur@;
                    let (h, d) = cur.split_at(i);
                    if !has_byte(h, 58u8) {
                        return Err(InvalidHeader::NoValue);
                    }
                    match str_from_utf8(h) {
                        None => {
                            return Err(InvalidHeader::InvalidUTF8);
                        },
                        Some(s) => {
                            let ghost before = storage@;
                            storage[index] = s;
                            assert(storage@.subrange(index + 1, slots as int) =~= before.subrange(index + 1, slots as int));
                            assert(before.subrange(index + 1, slots as int) =~= old(storage)@.subrange(index + 1, slots as int)) by {
                                assert forall|t: int| index + 1 <= t < slots implies before[t] == old(storage)@[t] by {
                                    assert(before.subrange(index as int, slots as int)[t - index] == before[t]);
                                }
                            }
                            let ghost h_line = h@;
                            cur = slice_subrange(d, 2, d.len());
                            assert(h_line == prev.subrange(0, i as int));
                            proof {
                                lemma_after_lines_push(lines, h_line, parse_headers(cur@, (slots - index - 1) as nat));
                            }
                            assert(cur@ =~= prev.subrange(i + 2, prev.len() as int));
                            assert(storage@.subrange(0, index + 1).map_values(|h: &str| h.spec_bytes())
                                =~= lines.push(h@));
                            assert(lines + (seq![h@] + Seq::empty()) =~= lines.push(h@));
                            index = index + 1;
                        },
                    }
                },
            }
        }
        Err(InvalidHeader::Truncated)
    }

    /// The value of the first field named `name`, ignoring ASCII case, with
    /// leading white space removed.
    pub fn get(&self, name: &str) -> (r: Option<&'a str>)
        ensures
            match r {
                Some(v) => lookup(self.lines(), name.spec_bytes()) == Some(v@),
                None => lookup(self.lines(), name.spec_bytes()) is None,
            },
    {
        let key = name.as_bytes();
        let mut i: usize = 0;
        assert(self.lines().subrange(0, self.lines().len() as int) =~= self.lines());
        while i < self.headers.len()
            invariant
                i <= self.headers@.len(),
                key@ == name.spec_bytes(),
                lookup(self.lines(), key@) == lookup(self.lines().subrange(i as int, self.lines().len() as int), key@),
            decreases self.headers@.len() - i,
        {
            let h: &'a str = self.headers[i];
            let line = h.as_bytes();
            let ghost tail = self.lines().subrange(i as int, self.lines().len() as int);
            assert(tail[0] == line@);
            if key.len() < line.len() && line[key.len()] == 58u8 && name_prefix_matches(line, key) {
                let n = key.len();
                proof {
                    vstd::utf8::encode_utf8_valid_utf8(h@);
                    vstd::utf8::is_char_boundary_iff_not_is_continuation_byte(line@, n as int);
                }
                let (_, b) = h.split_at(n);
                proof {
                    vstd::utf8::encode_utf8_valid_utf8(b@);
                    assert(b.spec_bytes()[0] == line@[n as int]);
                    lemma_boundary_after_ascii(b.spec_bytes());
                }
                let (_, c) = b.split_at(1);
                proof {
                    vstd::utf8::encode_utf8_decode_utf8(c@);
                    assert(c.spec_bytes() =~= line@.subrange(n + 1, line@.len() as int));
                    assert(names_field(line@, key@));
                    assert(field_value(line@, n as nat) == trim_start_of(c@));
                    assert(lookup(tail, key@) == Some(trim_start_of(c@)));
                }
                let v = trim_start(c);
                return Some(v);
            }
            assert(tail.drop_first() =~= self.lines().subrange(i + 1, self.lines().len() as int));
            i = i + 1;
        }
        None
    }
}

} // verus!

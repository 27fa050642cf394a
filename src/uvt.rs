//! The UVT container: a map section and a trajectory table in one text,
//! separated by a line of 29 `#`.
//!
//! ```text
//! <map section>
//! #############################
//! frame_id : <frame>
//! x,y,z,roll,pitch,yaw
//! ...
//! ```
use vstd::prelude::*;
use vstd::slice::{slice_subrange, slice_to_vec};
use vstd::utf8::{decode_utf8, encode_utf8, encode_utf8_decode_utf8, encode_utf8_valid_utf8, valid_utf8};
use crate::deserialization::{decode_text, spec_text};
use crate::error::UvtError;
use crate::text_lemmas::{
    free_of, lemma_find_byte_first, lemma_find_from_first, lemma_find_from_none,
    lemma_join_free_of, lemma_join_last, lemma_split_join, lemma_split_on_concat,
    lemma_split_on_single, lemma_trim_nl_suffix, lemma_join_ends_with, lemma_join_first,
    lemma_utf8_starts_a_char, lemma_trimmed_suffix, lemma_trimmed_end, is_continuation,
};
use crate::text::{
    space_len_at, occurs_at, trim_end, trim_start, find_byte, find_byte_in, find_from, find_pattern, split_bytes, split_on, trim, trim_bytes,
    lemma_find_byte_bounds, lemma_find_from_occurs, lemma_split_on_nonempty,
};

verus! {

/// Number of `#` in the delimiter line.
pub const DELIMITER_LEN: usize = 29;

/// Values on each trajectory line: `x, y, z, roll, pitch, yaw`.
pub const VALUES_PER_LINE: usize = 6;

/// The delimiter line between the two sections.
pub open spec fn delimiter() -> Seq<u8> {
    Seq::new(DELIMITER_LEN as nat, |i: int| 0x23u8)
}

/// A line without the carriage return of a CRLF ending.
pub open spec fn strip_cr(l: Seq<u8>) -> Seq<u8> {
    if l.len() > 0 && l.last() == 0x0d {
        l.drop_last()
    } else {
        l
    }
}

/// The lines of a non-empty block.
pub open spec fn lines(block: Seq<u8>) -> Seq<Seq<u8>> {
    split_on(block, 0x0a).map_values(|l: Seq<u8>| strip_cr(l))
}

/// The six values of a trajectory line, each trimmed; `number` is the
/// line's 1-based number in the block.
pub open spec fn spec_row(line: Seq<u8>, number: int) -> Result<Seq<Seq<char>>, UvtError> {
    let fs = split_on(line, 0x2c);
    if fs.len() != VALUES_PER_LINE {
        Err(UvtError::MalformedTrajLine(number as usize))
    } else if forall|k: int| 0 <= k < VALUES_PER_LINE ==> valid_utf8(#[trigger] trim(fs[k])) {
        Ok(Seq::new(VALUES_PER_LINE as nat, |k: int| decode_utf8(trim(fs[k]))))
    } else {
        Err(UvtError::MalformedTrajLine(number as usize))
    }
}

/// The rows of lines `1..n` of `ls` (line `0` holds the frame).
pub open spec fn spec_rows(ls: Seq<Seq<u8>>, n: int) -> Result<Seq<Seq<Seq<char>>>, UvtError>
    decreases n,
{
    if n <= 1 {
        Ok(Seq::empty())
    } else {
        match spec_rows(ls, n - 1) {
            Err(e) => Err(e),
            Ok(rs) => match spec_row(ls[n - 1], n) {
                Err(e) => Err(e),
                Ok(r) => Ok(rs.push(r)),
            },
        }
    }
}

/// The frame of a `frame_id : <value>` line: what follows the first `:`,
/// trimmed.
pub open spec fn spec_frame(line: Seq<u8>) -> Result<Seq<char>, UvtError> {
    match find_byte(line, 0x3a, 0) {
        None => Err(UvtError::MissingFrameId),
        Some(k) => spec_text(trim(line.subrange(k + 1, line.len() as int))),
    }
}

/// The sections of a UVT text.
pub struct UvtText {
    /// The map section, trimmed.
    pub map: Vec<u8>,
    /// The frame that every pose of the trajectory shares.
    pub frame_id: String,
    /// The values of each trajectory line, as text.
    pub rows: Vec<Vec<String>>,
}

pub struct UvtTextView {
    pub map: Seq<u8>,
    pub frame_id: Seq<char>,
    pub rows: Seq<Seq<Seq<char>>>,
}

impl View for UvtText {
    type V = UvtTextView;

    open spec fn view(&self) -> UvtTextView {
        UvtTextView {
            map: self.map@,
            frame_id: self.frame_id@,
            rows: self.rows@.map_values(|r: Vec<String>| r@.map_values(|v: String| v@)),
        }
    }
}

/// Reading a UVT text: the map section is what precedes the first
/// delimiter, trimmed; the block after it, trimmed, starts with the frame
/// line, then one line of six values per pose.
pub open spec fn spec_read_uvt(content: Seq<u8>) -> Result<UvtTextView, UvtError> {
    match find_from(content, delimiter(), 0) {
        None => Err(UvtError::MissingDelimiter),
        Some(d) => {
            let map = trim(content.subrange(0, d));
            let block = trim(content.subrange(d + DELIMITER_LEN, content.len() as int));
            if block.len() == 0 {
                Err(UvtError::MissingFrameId)
            } else {
                let ls = lines(block);
                match spec_frame(ls[0]) {
                    Err(e) => Err(e),
                    Ok(frame_id) => match spec_rows(ls, ls.len() as int) {
                        Err(e) => Err(e),
                        Ok(rows) => Ok(UvtTextView { map, frame_id, rows }),
                    },
                }
            }
        },
    }
}

fn delimiter_bytes() -> (r: Vec<u8>)
    ensures
        r@ == delimiter(),
{
    let mut v: Vec<u8> = Vec::new();
    let mut i: usize = 0;
    while i < DELIMITER_LEN
        invariant
            i <= DELIMITER_LEN,
            v@ == Seq::new(i as nat, |k: int| 0x23u8),
        decreases DELIMITER_LEN - i,
    {
        v.push(0x23u8);
        i = i + 1;
        assert(v@ =~= Seq::new(i as nat, |k: int| 0x23u8));
    }
    v
}

/// Parses one trajectory line into its six values.
pub fn parse_row(line: &[u8], number: usize) -> (r: Result<Vec<String>, UvtError>)
    ensures
        match spec_row(line@, number as int) {
            Ok(v) => r matches Ok(got) && got@.map_values(|s: String| s@) == v,
            Err(e) => r == Err::<Vec<String>, UvtError>(e),
        },
{
    let fields = split_bytes(line, 0x2c);
    let ghost fs = split_on(line@, 0x2c);
    if fields.len() != VALUES_PER_LINE {
        return Err(UvtError::MalformedTrajLine(number));
    }
    let mut out: Vec<String> = Vec::new();
    let mut k: usize = 0;
    while k < VALUES_PER_LINE
        invariant
            fields@.map_values(|p: Vec<u8>| p@) == fs,
            fs == split_on(line@, 0x2c),
            fs.len() == VALUES_PER_LINE,
            k <= VALUES_PER_LINE,
            out@.len() == k,
            forall|j: int| 0 <= j < k ==> valid_utf8(#[trigger] trim(fs[j])),
            forall|j: int| 0 <= j < k ==> out@[j]@ == decode_utf8(trim(fs[j])),
        decreases VALUES_PER_LINE - k,
    {
        assert(fields@[k as int]@ == fs[k as int]);
        let t = trim_bytes(fields[k].as_slice());
        assert(t@ == trim(fs[k as int]));
        match decode_text(t) {
            Ok(s) => out.push(s),
            Err(_) => {
                assert(!valid_utf8(trim(fs[k as int])));
                return Err(UvtError::MalformedTrajLine(number));
            },
        }
        k = k + 1;
    }
    assert(out@.map_values(|s: String| s@) =~= Seq::new(
        VALUES_PER_LINE as nat,
        |j: int| decode_utf8(trim(fs[j])),
    ));
    Ok(out)
}

proof fn lemma_rows_fail(ls: Seq<Seq<u8>>, k: int, n: int)
    requires
        1 < k <= n,
        spec_rows(ls, k) is Err,
    ensures
        spec_rows(ls, n) == spec_rows(ls, k),
    decreases n - k,
{
    if k < n {
        lemma_rows_fail(ls, k + 1, n);
    }
}

/// Splits a UVT text into its map section, frame and trajectory rows.
pub fn read_uvt_text(content: &[u8]) -> (r: Result<UvtText, UvtError>)
    ensures
        match spec_read_uvt(content@) {
            Ok(v) => r matches Ok(got) && got@ == v,
            Err(e) => r matches Err(g) && g == e,
        },
{
    let n = content.len();
    let delim = delimiter_bytes();
    let d = match find_pattern(content, delim.as_slice()) {
        Some(d) => d,
        None => return Err(UvtError::MissingDelimiter),
    };
    proof {
        lemma_find_from_occurs(content@, delimiter(), 0);
    }
    let map = slice_to_vec(trim_bytes(slice_subrange(content, 0, d)));
    let block = trim_bytes(slice_subrange(content, d + DELIMITER_LEN, n));
    if block.len() == 0 {
        return Err(UvtError::MissingFrameId);
    }
    let raw_lines = split_bytes(block, 0x0a);
    proof {
        lemma_split_on_nonempty(block@, 0x0a);
    }
    let ghost ls = lines(block@);
    assert(raw_lines@[0]@ == split_on(block@, 0x0a)[0]);
    let first = strip_cr_bytes(raw_lines[0].as_slice());
    let first_len = first.len();
    proof {
        lemma_find_byte_bounds(first@, 0x3a, 0);
    }
    let frame_id = match find_byte_in(first, 0x3a) {
        None => return Err(UvtError::MissingFrameId),
        Some(k) => match decode_text(trim_bytes(slice_subrange(first, k + 1, first_len))) {
            Ok(s) => s,
            Err(e) => return Err(e),
        },
    };
    let mut rows: Vec<Vec<String>> = Vec::new();
    assert(rows@.map_values(|r: Vec<String>| r@.map_values(|v: String| v@)) =~= Seq::<Seq<Seq<char>>>::empty());
    let mut i: usize = 1;
    while i < raw_lines.len()
        invariant
            raw_lines@.map_values(|p: Vec<u8>| p@) == split_on(block@, 0x0a),
            find_from(content@, delimiter(), 0) == Some(d as int),
            d + DELIMITER_LEN <= content@.len(),
            map@ == trim(content@.subrange(0, d as int)),
            block@ == trim(content@.subrange(d + DELIMITER_LEN, content@.len() as int)),
            block@.len() > 0,
            spec_frame(ls[0]) == Ok::<Seq<char>, UvtError>(frame_id@),
            ls == lines(block@),
            ls.len() == raw_lines@.len(),
            1 <= i <= raw_lines@.len(),
            spec_rows(ls, i as int) == Ok::<Seq<Seq<Seq<char>>>, UvtError>(
                rows@.map_values(|r: Vec<String>| r@.map_values(|v: String| v@)),
            ),
        decreases raw_lines@.len() - i,
    {
        assert(raw_lines@[i as int]@ == split_on(block@, 0x0a)[i as int]);
        let line = strip_cr_bytes(raw_lines[i].as_slice());
        assert(ls[i as int] == line@);
        match parse_row(line, i + 1) {
            Ok(row) => {
                let ghost prev = rows@.map_values(|r: Vec<String>| r@.map_values(|v: String| v@));
                let ghost rv = row@.map_values(|v: String| v@);
                rows.push(row);
                assert(rows@.map_values(|r: Vec<String>| r@.map_values(|v: String| v@)) =~= prev.push(rv));
            },
            Err(e) => {
                proof {
                    lemma_rows_fail(ls, (i + 1) as int, ls.len() as int);
                }
                return Err(e);
            },
        }
        i = i + 1;
    }
    Ok(UvtText { map, frame_id, rows })
}

/// A line without the carriage return of a CRLF ending.
fn strip_cr_bytes(l: &[u8]) -> (r: &[u8])
    ensures
        r@ == strip_cr(l@),
{
    if l.len() > 0 && l[l.len() - 1] == 0x0d {
        slice_subrange(l, 0, l.len() - 1)
    } else {
        l
    }
}


/// `parts` joined by `sep`.
pub open spec fn join(parts: Seq<Seq<u8>>, sep: u8) -> Seq<u8>
    decreases parts.len(),
{
    if parts.len() == 0 {
        Seq::empty()
    } else if parts.len() == 1 {
        parts[0]
    } else {
        join(parts.drop_last(), sep) + seq![sep] + parts.last()
    }
}

/// The text of a trajectory line: its values joined by commas.
pub open spec fn row_text(row: Seq<Seq<char>>) -> Seq<u8> {
    join(row.map_values(|v: Seq<char>| encode_utf8(v)), 0x2c)
}

/// `frame_id : ` as bytes.
pub open spec fn frame_prefix() -> Seq<u8> {
    seq![0x66u8, 0x72, 0x61, 0x6d, 0x65, 0x5f, 0x69, 0x64, 0x20, 0x3a, 0x20]
}

/// Writing a UVT text: the map section, the delimiter line, the frame line,
/// then one line per row, lines separated by line feeds.
pub open spec fn spec_write_uvt(map: Seq<u8>, frame_id: Seq<char>, rows: Seq<Seq<Seq<char>>>) -> Seq<u8> {
    map + seq![0x0au8] + delimiter() + seq![0x0au8] + frame_prefix() + encode_utf8(frame_id) + seq![
        0x0au8,
    ] + join(rows.map_values(|r: Seq<Seq<char>>| row_text(r)), 0x0a)
}

fn append(out: &mut Vec<u8>, src: &[u8])
    ensures
        final(out)@ == old(out)@ + src@,
{
    let mut i: usize = 0;
    while i < src.len()
        invariant
            i <= src@.len(),
            out@ == old(out)@ + src@.take(i as int),
        decreases src@.len() - i,
    {
        out.push(src[i]);
        i = i + 1;
        assert(out@ =~= old(out)@ + src@.take(i as int));
    }
    assert(src@.take(src@.len() as int) =~= src@);
}

fn append_row(out: &mut Vec<u8>, row: &Vec<String>)
    ensures
        final(out)@ == old(out)@ + row_text(row@.map_values(|v: String| v@)),
{
    let ghost rv = row@.map_values(|v: String| v@);
    let ghost parts = rv.map_values(|v: Seq<char>| encode_utf8(v));
    let mut i: usize = 0;
    while i < row.len()
        invariant
            rv == row@.map_values(|v: String| v@),
            parts == rv.map_values(|v: Seq<char>| encode_utf8(v)),
            i <= row@.len(),
            out@ == old(out)@ + join(parts.take(i as int), 0x2c),
        decreases row@.len() - i,
    {
        let ghost before = out@;
        if i > 0 {
            out.push(0x2c);
        }
        let bytes = row[i].as_str().as_bytes();
        assert(bytes@ == encode_utf8(row@[i as int]@));
        append(out, bytes);
        assert(parts.take(i + 1).drop_last() =~= parts.take(i as int));
        assert(parts[i as int] == encode_utf8(row@[i as int]@));
        if i == 0 {
            assert(join(parts.take(1), 0x2c) =~= parts[0]);
        }
        i = i + 1;
        assert(out@ =~= old(out)@ + join(parts.take(i as int), 0x2c));
    }
    assert(parts.take(row@.len() as int) =~= parts);
}

/// Lays out a UVT text from its map section, frame and trajectory rows.
pub fn write_uvt_text(map: &[u8], frame_id: &str, rows: &Vec<Vec<String>>) -> (r: Vec<u8>)
    ensures
        r@ == spec_write_uvt(map@, frame_id@, rows@.map_values(|r: Vec<String>| r@.map_values(|v: String| v@))),
{
    let ghost rv = rows@.map_values(|r: Vec<String>| r@.map_values(|v: String| v@));
    let ghost lines = rv.map_values(|r: Seq<Seq<char>>| row_text(r));
    let mut out: Vec<u8> = Vec::new();
    append(&mut out, map);
    out.push(0x0a);
    let delim = delimiter_bytes();
    append(&mut out, delim.as_slice());
    out.push(0x0a);
    let prefix: [u8; 11] = [0x66, 0x72, 0x61, 0x6d, 0x65, 0x5f, 0x69, 0x64, 0x20, 0x3a, 0x20];
    append(&mut out, prefix.as_slice());
    append(&mut out, frame_id.as_bytes());
    out.push(0x0a);
    assert(prefix@ =~= frame_prefix());
    let ghost head = out@;
    assert(head =~= map@ + seq![0x0au8] + delimiter() + seq![0x0au8] + frame_prefix() + encode_utf8(frame_id@) + seq![0x0au8]);
    let mut i: usize = 0;
    while i < rows.len()
        invariant
            rv == rows@.map_values(|r: Vec<String>| r@.map_values(|v: String| v@)),
            lines == rv.map_values(|r: Seq<Seq<char>>| row_text(r)),
            i <= rows@.len(),
            out@ == head + join(lines.take(i as int), 0x0a),
        decreases rows@.len() - i,
    {
        if i > 0 {
            out.push(0x0a);
        }
        append_row(&mut out, &rows[i]);
        assert(lines.take(i + 1).drop_last() =~= lines.take(i as int));
        assert(lines[i as int] == row_text(rows@[i as int]@.map_values(|v: String| v@)));
        if i == 0 {
            assert(join(lines.take(1), 0x0a) =~= lines[0]);
        }
        i = i + 1;
        assert(out@ =~= head + join(lines.take(i as int), 0x0a));
    }
    assert(lines.take(rows@.len() as int) =~= lines);
    out
}


// ---------------------------------------------------------------------------
// Writing then reading
// ---------------------------------------------------------------------------

/// A value the writer can lay out so that it reads back: non-empty, no
/// white space at either end, no comma, no line feed.
pub open spec fn value_ok(v: Seq<u8>) -> bool {
    &&& v.len() > 0
    &&& trim_start(v) == v
    &&& trim_end(v) == v
    &&& free_of(v, 0x2c)
    &&& free_of(v, 0x0a)
}

/// A frame the writer can lay out so that it reads back: no white space at
/// either end, no line feed.
pub open spec fn frame_ok(f: Seq<u8>) -> bool {
    &&& trim_start(f) == f
    &&& trim_end(f) == f
    &&& free_of(f, 0x0a)
}

/// A trajectory the writer lays out: at least one pose (the frame comes
/// from the first), six writable values per pose.
pub open spec fn rows_ok(rows: Seq<Seq<Seq<char>>>) -> bool {
    &&& rows.len() >= 1
    &&& forall|i: int|
        0 <= i < rows.len() ==> {
            &&& (#[trigger] rows[i]).len() == VALUES_PER_LINE
            &&& forall|k: int| 0 <= k < VALUES_PER_LINE ==> value_ok(encode_utf8(#[trigger] rows[i][k]))
        }
}

proof fn lemma_value_text(v: Seq<char>)
    requires
        value_ok(encode_utf8(v)),
    ensures
        trim(encode_utf8(v)) == encode_utf8(v),
        valid_utf8(encode_utf8(v)),
        decode_utf8(encode_utf8(v)) == v,
{
    encode_utf8_valid_utf8(v);
    encode_utf8_decode_utf8(v);
}

/// A row text is read back as its values; it starts a character and ends
/// in no white space.
proof fn lemma_row_read(r: Seq<Seq<char>>, number: int)
    requires
        r.len() == VALUES_PER_LINE,
        forall|k: int| 0 <= k < VALUES_PER_LINE ==> value_ok(encode_utf8(#[trigger] r[k])),
    ensures
        spec_row(row_text(r), number) == Ok::<Seq<Seq<char>>, UvtError>(r),
        row_text(r).len() > 0,
        !is_continuation(row_text(r)[0]),
        trim_end(row_text(r)) == row_text(r),
        free_of(row_text(r), 0x0a),
{
    let parts = r.map_values(|v: Seq<char>| encode_utf8(v));
    assert forall|i: int| 0 <= i < parts.len() implies free_of(#[trigger] parts[i], 0x2c) by {
        assert(value_ok(encode_utf8(r[i])));
    }
    assert forall|i: int| 0 <= i < parts.len() implies free_of(#[trigger] parts[i], 0x0a) by {
        assert(value_ok(encode_utf8(r[i])));
    }
    lemma_split_join(parts, 0x2c);
    lemma_join_free_of(parts, 0x2c, 0x0a);
    assert(value_ok(encode_utf8(r[5])));
    assert(value_ok(encode_utf8(r[0])));
    assert(parts.last() == encode_utf8(r[5]));
    assert(parts[0] == encode_utf8(r[0]));
    lemma_join_last(parts, 0x2c);
    lemma_join_ends_with(parts, 0x2c);
    lemma_join_first(parts, 0x2c);
    lemma_utf8_starts_a_char(r[5]);
    lemma_utf8_starts_a_char(r[0]);
    lemma_trimmed_suffix(row_text(r), encode_utf8(r[5]));
    let fs = split_on(row_text(r), 0x2c);
    assert(fs == parts);
    assert forall|k: int| 0 <= k < VALUES_PER_LINE implies valid_utf8(#[trigger] trim(fs[k])) by {
        lemma_value_text(r[k]);
    }
    assert forall|k: int| 0 <= k < VALUES_PER_LINE implies decode_utf8(trim(fs[k])) == r[k] by {
        lemma_value_text(r[k]);
    }
    assert(Seq::new(VALUES_PER_LINE as nat, |k: int| decode_utf8(trim(fs[k]))) =~= r);
}

proof fn lemma_rows_read(ls: Seq<Seq<u8>>, rows: Seq<Seq<Seq<char>>>, n: int)
    requires
        rows_ok(rows),
        ls.len() == rows.len() + 1,
        forall|j: int| 1 <= j < ls.len() ==> #[trigger] ls[j] == row_text(rows[j - 1]),
        1 <= n <= ls.len(),
    ensures
        spec_rows(ls, n) == Ok::<Seq<Seq<Seq<char>>>, UvtError>(rows.take(n - 1)),
    decreases n,
{
    if n <= 1 {
        assert(rows.take(0) =~= Seq::<Seq<Seq<char>>>::empty());
    } else {
        lemma_rows_read(ls, rows, n - 1);
        assert(ls[n - 1] == row_text(rows[n - 2]));
        assert(rows[n - 2].len() == VALUES_PER_LINE);
        lemma_row_read(rows[n - 2], n);
        assert(rows.take(n - 2).push(rows[n - 2]) =~= rows.take(n - 1));
    }
}

/// The frame line is read back as the frame.
proof fn lemma_frame_read(frame_id: Seq<char>)
    requires
        frame_ok(encode_utf8(frame_id)),
    ensures
        spec_frame(frame_prefix() + encode_utf8(frame_id)) == Ok::<Seq<char>, UvtError>(frame_id),
{
    let f = encode_utf8(frame_id);
    let line = frame_prefix() + f;
    lemma_find_byte_first(line, 0x3a, 0, 9);
    let rest = line.subrange(10, line.len() as int);
    assert(rest =~= seq![0x20u8] + f);
    assert(rest.subrange(1, rest.len() as int) =~= f);
    assert(space_len_at(rest, 0) == 1);
    assert(trim_start(rest) == trim_start(f));
    assert(trim_start(f) == f);
    assert(trim_end(f) == f);
    encode_utf8_valid_utf8(frame_id);
    encode_utf8_decode_utf8(frame_id);
}

proof fn lemma_delimiter_found(map: Seq<u8>, rest: Seq<u8>)
    requires
        find_from(map, delimiter(), 0) is None,
    ensures
        find_from(map + seq![0x0au8] + delimiter() + rest, delimiter(), 0) == Some(
            (map.len() + 1) as int,
        ),
{
    let content = map + seq![0x0au8] + delimiter() + rest;
    let d = (map.len() + 1) as int;
    let dl = DELIMITER_LEN as int;
    assert(content.subrange(d, d + dl) =~= delimiter());
    assert forall|i: int| 0 <= i < d implies !occurs_at(content, delimiter(), i) by {
        if i + dl <= map.len() {
            lemma_find_from_none(map, delimiter(), 0, i);
            assert(content.subrange(i, i + dl) =~= map.subrange(i, i + dl));
        } else {
            assert(content.subrange(i, i + dl)[map.len() - i] == 0x0au8);
        }
    }
    lemma_find_from_first(content, delimiter(), 0, d);
}

/// The rows' texts read back, end in a non-space byte, and hold no line
/// feed.
proof fn lemma_texts(rows: Seq<Seq<Seq<char>>>)
    requires
        rows_ok(rows),
    ensures
        ({
            let texts = rows.map_values(|r: Seq<Seq<char>>| row_text(r));
            &&& forall|i: int|
                0 <= i < rows.len() ==> {
                    &&& spec_row(#[trigger] texts[i], i + 2) == Ok::<Seq<Seq<char>>, UvtError>(rows[i])
                    &&& texts[i].len() > 0
                    &&& !is_continuation(texts[i][0])
                    &&& trim_end(texts[i]) == texts[i]
                    &&& free_of(texts[i], 0x0a)
                }
        }),
{
    let texts = rows.map_values(|r: Seq<Seq<char>>| row_text(r));
    assert forall|i: int| 0 <= i < rows.len() implies {
        &&& spec_row(#[trigger] texts[i], i + 2) == Ok::<Seq<Seq<char>>, UvtError>(rows[i])
        &&& texts[i].len() > 0
        &&& !is_continuation(texts[i][0])
        &&& trim_end(texts[i]) == texts[i]
        &&& free_of(texts[i], 0x0a)
    } by {
        lemma_row_read(rows[i], i + 2);
    }
}

/// The trajectory block: trimming removes the line feed before the frame
/// line and nothing else.
proof fn lemma_block(f: Seq<u8>, rows: Seq<Seq<Seq<char>>>)
    requires
        rows_ok(rows),
    ensures
        ({
            let texts = rows.map_values(|r: Seq<Seq<char>>| row_text(r));
            let b = frame_prefix() + f + seq![0x0au8] + join(texts, 0x0a);
            trim(seq![0x0au8] + b) == b
        }),
{
    let texts = rows.map_values(|r: Seq<Seq<char>>| row_text(r));
    let j = join(texts, 0x0a);
    let b = frame_prefix() + f + seq![0x0au8] + j;
    let raw = seq![0x0au8] + b;
    lemma_texts(rows);
    assert(raw.subrange(1, raw.len() as int) =~= b);
    assert(space_len_at(raw, 0) == 1);
    assert(trim_start(raw) == trim_start(b));
    assert(b[0] == 0x66u8);
    assert(space_len_at(b, 0) == 0);
    assert(trim_start(b) == b);
    let last = texts.last();
    assert(last == texts[texts.len() - 1]);
    lemma_join_ends_with(texts, 0x0a);
    assert(b.subrange(b.len() - last.len(), b.len() as int) =~= j.subrange(
        j.len() - last.len(),
        j.len() as int,
    ));
    lemma_trimmed_suffix(b, last);
    assert(trim_end(b) == b);
}

/// The lines of the trajectory block: the frame line, then one per row.
proof fn lemma_block_lines(frame_id: Seq<char>, rows: Seq<Seq<Seq<char>>>)
    requires
        frame_ok(encode_utf8(frame_id)),
        rows_ok(rows),
    ensures
        ({
            let f = encode_utf8(frame_id);
            let texts = rows.map_values(|r: Seq<Seq<char>>| row_text(r));
            let b = frame_prefix() + f + seq![0x0au8] + join(texts, 0x0a);
            let ls = lines(b);
            &&& ls.len() == rows.len() + 1
            &&& ls[0] == frame_prefix() + f
            &&& forall|i: int| 1 <= i < ls.len() ==> #[trigger] ls[i] == row_text(rows[i - 1])
        }),
{
    let f = encode_utf8(frame_id);
    let p = frame_prefix();
    let texts = rows.map_values(|r: Seq<Seq<char>>| row_text(r));
    let j = join(texts, 0x0a);
    let b = p + f + seq![0x0au8] + j;
    lemma_texts(rows);
    assert(free_of(p + f, 0x0a));
    lemma_split_on_single(p + f, 0x0a);
    assert(b =~= (p + f) + seq![0x0au8] + j);
    lemma_split_on_concat(p + f, j, 0x0a);
    assert forall|i: int| 0 <= i < texts.len() implies free_of(#[trigger] texts[i], 0x0a) by {}
    lemma_split_join(texts, 0x0a);
    let ls = lines(b);
    assert(split_on(b, 0x0a) =~= seq![p + f] + texts);
    lemma_trimmed_end(f);
    assert((p + f).last() != 0x0du8);
    assert(ls[0] == p + f);
    assert forall|i: int| 1 <= i < ls.len() implies #[trigger] ls[i] == row_text(rows[i - 1]) by {
        assert(split_on(b, 0x0a)[i] == texts[i - 1]);
        lemma_trimmed_end(texts[i - 1]);
        assert(texts[i - 1].last() != 0x0du8);
    }
}

/// Round trip of the UVT text: reading what was written for a map section,
/// a frame and a trajectory gives back the trimmed map section, the frame
/// and every value, as long as the map section holds no delimiter, the frame
/// and the values are laid out as `frame_ok` and `rows_ok` say.
pub proof fn lemma_uvt_round_trip(map: Seq<u8>, frame_id: Seq<char>, rows: Seq<Seq<Seq<char>>>)
    requires
        find_from(map, delimiter(), 0) is None,
        frame_ok(encode_utf8(frame_id)),
        rows_ok(rows),
    ensures
        spec_read_uvt(spec_write_uvt(map, frame_id, rows)) == Ok::<UvtTextView, UvtError>(
            UvtTextView { map: trim(map), frame_id, rows },
        ),
{
    let nl = seq![0x0au8];
    let f = encode_utf8(frame_id);
    let texts = rows.map_values(|r: Seq<Seq<char>>| row_text(r));
    let b = frame_prefix() + f + nl + join(texts, 0x0a);
    let content = spec_write_uvt(map, frame_id, rows);
    let d = (map.len() + 1) as int;
    let dl = DELIMITER_LEN as int;
    assert(content =~= map + nl + delimiter() + (nl + b));
    lemma_delimiter_found(map, nl + b);
    assert(content.subrange(0, d) =~= map + nl);
    lemma_trim_nl_suffix(map);
    assert(content.subrange(d + dl, content.len() as int) =~= nl + b);
    lemma_block(f, rows);
    lemma_block_lines(frame_id, rows);
    let ls = lines(b);
    lemma_frame_read(frame_id);
    lemma_rows_read(ls, rows, ls.len() as int);
    assert(rows.take(rows.len() as int) =~= rows);
}

} // verus!

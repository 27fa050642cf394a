//! A canonical hex dump of a byte buffer: 16 bytes per row, an offset, the
//! bytes in hex, and a printable-ASCII gutter.
use vstd::prelude::*;

verus! {

/// Bytes per row.
pub const ROW_LEN: usize = 16;

/// The lower-case hex digit of `v < 16`.
pub open spec fn hex_digit(v: int) -> u8 {
    if v < 10 {
        (0x30 + v) as u8
    } else {
        (0x61 + v - 10) as u8
    }
}

/// `v` in lower-case hex, padded with zeros to at least `w` digits.
pub open spec fn hex_min(v: nat, w: nat) -> Seq<u8>
    decreases v + w,
{
    if v < 16 && w <= 1 {
        seq![hex_digit(v as int)]
    } else {
        hex_min(
            v / 16,
            if w > 0 {
                (w - 1) as nat
            } else {
                0
            },
        ).push(hex_digit((v % 16) as int))
    }
}

/// The byte shown in the gutter: itself when printable ASCII, else `.`.
pub open spec fn printable(b: u8) -> u8 {
    if 0x20 <= b && b <= 0x7e {
        b
    } else {
        0x2e
    }
}

/// ` hh` for each byte.
pub open spec fn hex_bytes(c: Seq<u8>) -> Seq<u8>
    decreases c.len(),
{
    if c.len() == 0 {
        Seq::empty()
    } else {
        hex_bytes(c.drop_last()) + seq![0x20u8] + hex_min(c.last() as nat, 2)
    }
}

/// Bytes `16 k ..` of `b`, at most 16.
pub open spec fn chunk(b: Seq<u8>, k: int) -> Seq<u8> {
    let end = if 16 * k + 16 <= b.len() {
        16 * k + 16
    } else {
        b.len() as int
    };
    b.subrange(16 * k, end)
}

/// One row: offset, `:`, the bytes in hex, padding to the width of a full
/// row, then the gutter between `|`.
pub open spec fn dump_row(k: int, c: Seq<u8>) -> Seq<u8> {
    hex_min((16 * k) as nat, 8) + seq![0x3au8] + hex_bytes(c) + Seq::new(
        (3 * (16 - c.len())) as nat,
        |i: int| 0x20u8,
    ) + seq![0x20u8, 0x20u8, 0x7cu8] + c.map_values(|x: u8| printable(x)) + seq![0x7cu8, 0x0au8]
}

/// The first `n` rows of the dump of `b`.
pub open spec fn dump_rows(b: Seq<u8>, n: int) -> Seq<u8>
    decreases n,
{
    if n <= 0 {
        Seq::empty()
    } else {
        dump_rows(b, n - 1) + dump_row(n - 1, chunk(b, n - 1))
    }
}

/// The dump of `b`: one row per started group of 16 bytes.
pub open spec fn hex_dump(b: Seq<u8>) -> Seq<u8> {
    dump_rows(b, ((b.len() + 15) / 16) as int)
}

fn hex_digit_exec(v: u8) -> (r: u8)
    requires
        v < 16,
    ensures
        r == hex_digit(v as int),
{
    if v < 10 {
        0x30 + v
    } else {
        0x61 + v - 10
    }
}

fn push_hex(out: &mut Vec<u8>, v: usize, w: usize)
    ensures
        final(out)@ == old(out)@ + hex_min(v as nat, w as nat),
{
    let mut digits: Vec<u8> = Vec::new();
    let mut x = v;
    let mut k = w;
    while !(x < 16 && k <= 1)
        invariant
            hex_min(v as nat, w as nat) == hex_min(x as nat, k as nat) + digits@,
        decreases x + k,
    {
        let d = hex_digit_exec((x % 16) as u8);
        digits.insert(0, d);
        x = x / 16;
        if k > 0 {
            k = k - 1;
        }
    }
    digits.insert(0, hex_digit_exec(x as u8));
    let mut i: usize = 0;
    while i < digits.len()
        invariant
            i <= digits@.len(),
            out@ == old(out)@ + digits@.take(i as int),
        decreases digits@.len() - i,
    {
        out.push(digits[i]);
        i = i + 1;
        assert(out@ =~= old(out)@ + digits@.take(i as int));
    }
    assert(digits@.take(digits@.len() as int) =~= digits@);
    assert(hex_min(x as nat, k as nat) == seq![hex_digit(x as int)]);
}

/// Appends one row of the dump of `b`.
fn push_row(out: &mut Vec<u8>, b: &Vec<u8>, k: usize)
    requires
        16 * k < b@.len(),
    ensures
        final(out)@ == old(out)@ + dump_row(k as int, chunk(b@, k as int)),
{
    let len = b.len();
    let start = 16 * k;
    let end = if len - start >= 16 {
        start + 16
    } else {
        len
    };
    let ghost c = chunk(b@, k as int);
    assert(c.len() == end - start);
    push_hex(out, start, 8);
    out.push(0x3a);
    let ghost head = out@;
    let mut i = start;
    while i < end
        invariant
            start <= i <= end,
            end <= b@.len(),
            c == b@.subrange(start as int, end as int),
            out@ == head + hex_bytes(c.take(i - start)),
        decreases end - i,
    {
        let ghost before = out@;
        out.push(0x20);
        push_hex(out, b[i] as usize, 2);
        assert(c.take(i + 1 - start).drop_last() =~= c.take(i - start));
        assert(c.take(i + 1 - start).last() == b@[i as int]);
        i = i + 1;
        assert(out@ =~= head + hex_bytes(c.take(i - start)));
    }
    assert(c.take(end - start) =~= c);
    let ghost after_hex = out@;
    let mut pad: usize = 0;
    let pad_len = 3 * (16 - (end - start));
    while pad < pad_len
        invariant
            pad <= pad_len,
            out@ == after_hex + Seq::new(pad as nat, |i: int| 0x20u8),
        decreases pad_len - pad,
    {
        out.push(0x20);
        pad = pad + 1;
        assert(out@ =~= after_hex + Seq::new(pad as nat, |i: int| 0x20u8));
    }
    out.push(0x20);
    out.push(0x20);
    out.push(0x7c);
    let ghost gutter_start = out@;
    let mut j = start;
    while j < end
        invariant
            start <= j <= end,
            end <= b@.len(),
            c == b@.subrange(start as int, end as int),
            out@ == gutter_start + c.take(j - start).map_values(|x: u8| printable(x)),
        decreases end - j,
    {
        let x = b[j];
        let p = if 0x20 <= x && x <= 0x7e {
            x
        } else {
            0x2e
        };
        out.push(p);
        j = j + 1;
        assert(out@ =~= gutter_start + c.take(j - start).map_values(|x: u8| printable(x)));
    }
    out.push(0x7c);
    out.push(0x0a);
    assert(out@ =~= old(out)@ + dump_row(k as int, c));
}

/// The hex dump of `b`.
pub fn dump_bytes(b: &Vec<u8>) -> (r: Vec<u8>)
    ensures
        r@ == hex_dump(b@),
{
    let len = b.len();
    let rows = len / 16 + if len % 16 == 0 {
        0
    } else {
        1
    };
    assert(rows == (b@.len() + 15) / 16);
    let mut out: Vec<u8> = Vec::new();
    let mut k: usize = 0;
    while k < rows
        invariant
            len == b@.len(),
            rows == (b@.len() + 15) / 16,
            k <= rows,
            out@ == dump_rows(b@, k as int),
        decreases rows - k,
    {
        assert(16 * k < len);
        push_row(&mut out, b, k);
        k = k + 1;
    }
    out
}

} // verus!

//! Byte-level text helpers: Unicode white-space trimming on UTF-8 bytes, splitting on a
//! separator byte, searching.
use vstd::prelude::*;
use vstd::slice::slice_subrange;

verus! {

/// ASCII white space: space, tab, line feed, vertical tab, form feed,
/// carriage return.
pub open spec fn is_space(b: u8) -> bool {
    b == 0x20 || (0x09 <= b && b <= 0x0d)
}

/// The UTF-8 encodings of the three-byte Unicode white-space characters:
/// U+1680, U+2000 to U+200A, U+2028, U+2029, U+202F, U+205F, U+3000.
pub open spec fn is_space3(a: u8, b: u8, c: u8) -> bool {
    (a == 0xe1 && b == 0x9a && c == 0x80) || (a == 0xe2 && b == 0x80 && ((0x80 <= c && c <= 0x8a)
        || c == 0xa8 || c == 0xa9 || c == 0xaf)) || (a == 0xe2 && b == 0x81 && c == 0x9f) || (a
        == 0xe3 && b == 0x80 && c == 0x80)
}

/// The two-byte Unicode white-space characters U+0085 and U+00A0, by their
/// second UTF-8 byte after `0xc2`.
pub open spec fn is_space2(b: u8) -> bool {
    b == 0x85 || b == 0xa0
}

/// Length in bytes of the Unicode white-space character that starts at `i`
/// (0 when none does).
pub open spec fn space_len_at(s: Seq<u8>, i: int) -> int {
    if 0 <= i < s.len() && is_space(s[i]) {
        1
    } else if 0 <= i && i + 2 <= s.len() && s[i] == 0xc2 && is_space2(s[i + 1]) {
        2
    } else if 0 <= i && i + 3 <= s.len() && is_space3(s[i], s[i + 1], s[i + 2]) {
        3
    } else {
        0
    }
}

/// Length in bytes of the Unicode white-space character that ends at `j`
/// (0 when none does).
pub open spec fn space_len_before(s: Seq<u8>, j: int) -> int {
    if 1 <= j <= s.len() && is_space(s[j - 1]) {
        1
    } else if 2 <= j <= s.len() && s[j - 2] == 0xc2 && is_space2(s[j - 1]) {
        2
    } else if 3 <= j <= s.len() && is_space3(s[j - 3], s[j - 2], s[j - 1]) {
        3
    } else {
        0
    }
}

/// `s` without its leading Unicode white space.
pub open spec fn trim_start(s: Seq<u8>) -> Seq<u8>
    decreases s.len(),
{
    let k = space_len_at(s, 0);
    if k > 0 {
        trim_start(s.subrange(k, s.len() as int))
    } else {
        s
    }
}

/// `s` without its trailing Unicode white space.
pub open spec fn trim_end(s: Seq<u8>) -> Seq<u8>
    decreases s.len(),
{
    let k = space_len_before(s, s.len() as int);
    if k > 0 {
        trim_end(s.subrange(0, s.len() - k))
    } else {
        s
    }
}

/// `s` without leading and trailing Unicode white space, as `str::trim`
/// has it.
pub open spec fn trim(s: Seq<u8>) -> Seq<u8> {
    trim_end(trim_start(s))
}

/// The pieces of `s` between occurrences of `sep`: one more piece than
/// there are separators.
pub open spec fn split_on(s: Seq<u8>, sep: u8) -> Seq<Seq<u8>>
    decreases s.len(),
{
    if s.len() == 0 {
        seq![Seq::empty()]
    } else {
        let parts = split_on(s.drop_last(), sep);
        if s.last() == sep {
            parts.push(Seq::empty())
        } else {
            parts.update(parts.len() - 1, parts.last().push(s.last()))
        }
    }
}

/// Index of the first `c` at or after `i`, if any.
pub open spec fn find_byte(s: Seq<u8>, c: u8, i: int) -> Option<int>
    decreases s.len() - i,
{
    if i < 0 || i >= s.len() {
        None
    } else if s[i] == c {
        Some(i)
    } else {
        find_byte(s, c, i + 1)
    }
}

/// Whether `pat` occurs in `s` at `i`.
pub open spec fn occurs_at(s: Seq<u8>, pat: Seq<u8>, i: int) -> bool {
    0 <= i && i + pat.len() <= s.len() && s.subrange(i, i + pat.len()) == pat
}

/// Index of the first occurrence of `pat` at or after `i`, if any.
pub open spec fn find_from(s: Seq<u8>, pat: Seq<u8>, i: int) -> Option<int>
    decreases s.len() + 1 - i,
{
    if i < 0 || i + pat.len() > s.len() {
        None
    } else if occurs_at(s, pat, i) {
        Some(i)
    } else {
        find_from(s, pat, i + 1)
    }
}

pub proof fn lemma_find_from_occurs(s: Seq<u8>, pat: Seq<u8>, i: int)
    ensures
        find_from(s, pat, i) matches Some(k) ==> i <= k && occurs_at(s, pat, k),
    decreases s.len() + 1 - i,
{
    if !(i < 0 || i + pat.len() > s.len()) && !occurs_at(s, pat, i) {
        lemma_find_from_occurs(s, pat, i + 1);
    }
}

pub proof fn lemma_find_byte_bounds(s: Seq<u8>, c: u8, i: int)
    ensures
        find_byte(s, c, i) matches Some(k) ==> i <= k < s.len() && s[k] == c,
    decreases s.len() - i,
{
    if 0 <= i < s.len() && s[i] != c {
        lemma_find_byte_bounds(s, c, i + 1);
    }
}

pub proof fn lemma_split_on_nonempty(s: Seq<u8>, sep: u8)
    ensures
        split_on(s, sep).len() >= 1,
    decreases s.len(),
{
    if s.len() > 0 {
        lemma_split_on_nonempty(s.drop_last(), sep);
    }
}

fn is_space_byte(b: u8) -> (r: bool)
    ensures
        r == is_space(b),
{
    b == 0x20 || (0x09 <= b && b <= 0x0d)
}

fn is_space3_bytes(a: u8, b: u8, c: u8) -> (r: bool)
    ensures
        r == is_space3(a, b, c),
{
    (a == 0xe1 && b == 0x9a && c == 0x80) || (a == 0xe2 && b == 0x80 && ((0x80 <= c && c <= 0x8a)
        || c == 0xa8 || c == 0xa9 || c == 0xaf)) || (a == 0xe2 && b == 0x81 && c == 0x9f) || (a
        == 0xe3 && b == 0x80 && c == 0x80)
}

/// `space_len_at` of the window `i..n` of `s`, at its start.
fn space_len_at_exec(s: &[u8], i: usize, n: usize) -> (r: usize)
    requires
        i <= n <= s@.len(),
    ensures
        r == space_len_at(s@.subrange(i as int, n as int), 0),
{
    let w = n - i;
    if w >= 1 && is_space_byte(s[i]) {
        1
    } else if w >= 2 && s[i] == 0xc2 && (s[i + 1] == 0x85 || s[i + 1] == 0xa0) {
        2
    } else if w >= 3 && is_space3_bytes(s[i], s[i + 1], s[i + 2]) {
        3
    } else {
        0
    }
}

/// `space_len_before` of the window `i..j` of `s`, at its end.
fn space_len_before_exec(s: &[u8], i: usize, j: usize) -> (r: usize)
    requires
        i <= j <= s@.len(),
    ensures
        r == space_len_before(s@.subrange(i as int, j as int), j - i),
{
    let w = j - i;
    if w >= 1 && is_space_byte(s[j - 1]) {
        1
    } else if w >= 2 && s[j - 2] == 0xc2 && (s[j - 1] == 0x85 || s[j - 1] == 0xa0) {
        2
    } else if w >= 3 && is_space3_bytes(s[j - 3], s[j - 2], s[j - 1]) {
        3
    } else {
        0
    }
}

/// `s` without leading and trailing Unicode white space.
pub fn trim_bytes(s: &[u8]) -> (r: &[u8])
    ensures
        r@ == trim(s@),
{
    let n = s.len();
    let mut i: usize = 0;
    assert(s@.subrange(0, n as int) =~= s@);
    loop
        invariant
            n == s@.len(),
            i <= n,
            trim_start(s@) == trim_start(s@.subrange(i as int, n as int)),
        ensures
            i <= n,
            trim_start(s@) == s@.subrange(i as int, n as int),
        decreases n - i,
    {
        let k = space_len_at_exec(s, i, n);
        if k == 0 {
            break;
        }
        assert(s@.subrange(i as int, n as int).subrange(k as int, (n - i) as int) =~= s@.subrange(
            i + k,
            n as int,
        ));
        i = i + k;
    }
    let mut j: usize = n;
    loop
        invariant
            n == s@.len(),
            i <= j <= n,
            trim(s@) == trim_end(s@.subrange(i as int, j as int)),
        ensures
            i <= j <= n,
            trim(s@) == s@.subrange(i as int, j as int),
        decreases j - i,
    {
        let k = space_len_before_exec(s, i, j);
        if k == 0 {
            break;
        }
        assert(s@.subrange(i as int, j as int).subrange(0, (j - i - k) as int) =~= s@.subrange(
            i as int,
            j - k,
        ));
        j = j - k;
    }
    slice_subrange(s, i, j)
}

/// The pieces of `s` between occurrences of `sep`.
pub fn split_bytes(s: &[u8], sep: u8) -> (r: Vec<Vec<u8>>)
    ensures
        r@.map_values(|p: Vec<u8>| p@) == split_on(s@, sep),
{
    let mut parts: Vec<Vec<u8>> = Vec::new();
    let mut cur: Vec<u8> = Vec::new();
    let mut i: usize = 0;
    assert(s@.take(0) =~= Seq::<u8>::empty());
    assert(parts@.map_values(|p: Vec<u8>| p@).push(cur@) =~= seq![Seq::<u8>::empty()]);
    while i < s.len()
        invariant
            i <= s@.len(),
            split_on(s@.take(i as int), sep) == parts@.map_values(|p: Vec<u8>| p@).push(cur@),
        decreases s@.len() - i,
    {
        let ghost before = parts@.map_values(|p: Vec<u8>| p@);
        let ghost cur_before = cur@;
        assert(s@.take(i + 1).drop_last() =~= s@.take(i as int));
        assert(s@.take(i + 1).last() == s@[i as int]);
        if s[i] == sep {
            let done = cur;
            parts.push(done);
            cur = Vec::new();
            assert(parts@.map_values(|p: Vec<u8>| p@) =~= before.push(cur_before));
            assert(parts@.map_values(|p: Vec<u8>| p@).push(cur@) =~= before.push(cur_before).push(
                Seq::empty(),
            ));
        } else {
            cur.push(s[i]);
            assert(parts@.map_values(|p: Vec<u8>| p@).push(cur@) =~= before.push(cur_before).update(
                before.len() as int,
                cur_before.push(s@[i as int]),
            ));
        }
        i = i + 1;
    }
    assert(s@.take(s@.len() as int) =~= s@);
    let ghost before = parts@.map_values(|p: Vec<u8>| p@);
    let ghost last = cur@;
    parts.push(cur);
    assert(parts@.map_values(|p: Vec<u8>| p@) =~= before.push(last));
    parts
}

/// Index of the first `c` in `s`.
pub fn find_byte_in(s: &[u8], c: u8) -> (r: Option<usize>)
    ensures
        match find_byte(s@, c, 0) {
            Some(k) => r == Some(k as usize),
            None => r is None,
        },
{
    let mut i: usize = 0;
    while i < s.len()
        invariant
            i <= s@.len(),
            find_byte(s@, c, 0) == find_byte(s@, c, i as int),
        decreases s@.len() - i,
    {
        if s[i] == c {
            return Some(i);
        }
        i = i + 1;
    }
    None
}

/// Whether `pat` occurs in `s` at `i`.
fn occurs_at_exec(s: &[u8], pat: &[u8], i: usize) -> (r: bool)
    ensures
        r == occurs_at(s@, pat@, i as int),
{
    if i > s.len() || pat.len() > s.len() - i {
        return false;
    }
    let mut k: usize = 0;
    while k < pat.len()
        invariant
            i + pat@.len() <= s@.len(),
            s@.len() == s.len(),
            k <= pat@.len(),
            forall|j: int| 0 <= j < k ==> s@[i + j] == pat@[j],
        decreases pat@.len() - k,
    {
        if s[i + k] != pat[k] {
            assert(s@.subrange(i as int, i + pat@.len())[k as int] != pat@[k as int]);
            return false;
        }
        k = k + 1;
    }
    assert(s@.subrange(i as int, i + pat@.len()) =~= pat@);
    true
}

/// Index of the first occurrence of `pat` in `s`.
pub fn find_pattern(s: &[u8], pat: &[u8]) -> (r: Option<usize>)
    ensures
        match find_from(s@, pat@, 0) {
            Some(k) => r == Some(k as usize),
            None => r is None,
        },
{
    if pat.len() > s.len() {
        return None;
    }
    let last = s.len() - pat.len();
    let mut i: usize = 0;
    loop
        invariant
            last + pat@.len() == s@.len(),
            i <= last,
            find_from(s@, pat@, 0) == find_from(s@, pat@, i as int),
        decreases last - i,
    {
        if occurs_at_exec(s, pat, i) {
            return Some(i);
        }
        if i == last {
            assert(find_from(s@, pat@, i + 1) is None);
            return None;
        }
        i = i + 1;
    }
}

} // verus!

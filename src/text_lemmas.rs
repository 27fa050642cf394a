//! Facts about the byte-level text helpers: splitting what was joined,
//! trimming, and searching in laid-out texts.
use vstd::prelude::*;
use crate::text::{
    find_byte, find_from, is_space, occurs_at, space_len_at, space_len_before, split_on, trim_end,
    trim_start,
};
use crate::uvt::join;
use vstd::utf8::{encode_utf8, encode_utf8_first_scalar};

verus! {

/// `s` holds no byte `c`.
pub open spec fn free_of(s: Seq<u8>, c: u8) -> bool {
    forall|i: int| 0 <= i < s.len() ==> s[i] != c
}

pub proof fn lemma_split_on_single(p: Seq<u8>, sep: u8)
    requires
        free_of(p, sep),
    ensures
        split_on(p, sep) == seq![p],
    decreases p.len(),
{
    if p.len() > 0 {
        assert(free_of(p.drop_last(), sep)) by {
            assert forall|i: int| 0 <= i < p.drop_last().len() implies p.drop_last()[i] != sep by {
                assert(p.drop_last()[i] == p[i]);
            }
        }
        lemma_split_on_single(p.drop_last(), sep);
        assert(p.last() != sep);
        assert(p.drop_last().push(p.last()) =~= p);
        assert(seq![p.drop_last()].update(0, p.drop_last().push(p.last())) =~= seq![p]);
    } else {
        assert(p =~= Seq::<u8>::empty());
    }
}

pub proof fn lemma_split_on_concat(x: Seq<u8>, y: Seq<u8>, sep: u8)
    ensures
        split_on(x + seq![sep] + y, sep) == split_on(x, sep) + split_on(y, sep),
    decreases y.len(),
{
    let s = x + seq![sep] + y;
    if y.len() == 0 {
        assert(s.drop_last() =~= x);
        assert(split_on(x, sep) + split_on(y, sep) =~= split_on(x, sep).push(Seq::empty()));
    } else {
        let y1 = y.drop_last();
        assert(s.drop_last() =~= x + seq![sep] + y1);
        lemma_split_on_concat(x, y1, sep);
        crate::text::lemma_split_on_nonempty(y1, sep);
        crate::text::lemma_split_on_nonempty(x, sep);
        let a = split_on(x, sep);
        let b = split_on(y1, sep);
        if y.last() == sep {
            assert((a + b).push(Seq::empty()) =~= a + b.push(Seq::empty()));
        } else {
            assert((a + b).update((a + b).len() - 1, (a + b).last().push(y.last())) =~= a + b.update(
                b.len() - 1,
                b.last().push(y.last()),
            ));
        }
    }
}

/// Splitting on `sep` undoes joining with `sep` parts that hold no `sep`.
pub proof fn lemma_split_join(parts: Seq<Seq<u8>>, sep: u8)
    requires
        parts.len() >= 1,
        forall|i: int| 0 <= i < parts.len() ==> free_of(#[trigger] parts[i], sep),
    ensures
        split_on(join(parts, sep), sep) == parts,
    decreases parts.len(),
{
    if parts.len() == 1 {
        assert(free_of(parts[0], sep));
        lemma_split_on_single(parts[0], sep);
        assert(seq![parts[0]] =~= parts);
    } else {
        let init = parts.drop_last();
        assert forall|i: int| 0 <= i < init.len() implies free_of(#[trigger] init[i], sep) by {
            assert(init[i] == parts[i]);
        }
        lemma_split_join(init, sep);
        lemma_split_on_concat(join(init, sep), parts.last(), sep);
        assert(free_of(parts[parts.len() - 1], sep));
        lemma_split_on_single(parts.last(), sep);
        assert(init + seq![parts.last()] =~= parts);
    }
}

/// A join of parts free of `c` is free of `c`, when `c` is not `sep`.
pub proof fn lemma_join_free_of(parts: Seq<Seq<u8>>, sep: u8, c: u8)
    requires
        sep != c,
        forall|i: int| 0 <= i < parts.len() ==> free_of(#[trigger] parts[i], c),
    ensures
        free_of(join(parts, sep), c),
    decreases parts.len(),
{
    if parts.len() == 1 {
        assert(free_of(parts[0], c));
    } else if parts.len() > 1 {
        let init = parts.drop_last();
        assert forall|i: int| 0 <= i < init.len() implies free_of(#[trigger] init[i], c) by {
            assert(init[i] == parts[i]);
        }
        lemma_join_free_of(init, sep, c);
        assert(free_of(parts[parts.len() - 1], c));
    }
}

/// The last byte of a join is the last byte of its last part.
pub proof fn lemma_join_last(parts: Seq<Seq<u8>>, sep: u8)
    requires
        parts.len() >= 1,
        parts.last().len() >= 1,
    ensures
        join(parts, sep).len() >= 1,
        join(parts, sep).last() == parts.last().last(),
{
}

pub proof fn lemma_find_from_none(s: Seq<u8>, pat: Seq<u8>, i: int, j: int)
    requires
        0 <= i <= j,
        find_from(s, pat, i) is None,
    ensures
        !occurs_at(s, pat, j),
    decreases j - i,
{
    if i < j && !(i + pat.len() > s.len()) {
        lemma_find_from_none(s, pat, i + 1, j);
    }
}

pub proof fn lemma_find_from_first(s: Seq<u8>, pat: Seq<u8>, i: int, d: int)
    requires
        0 <= i <= d,
        forall|j: int| i <= j < d ==> !occurs_at(s, pat, j),
        occurs_at(s, pat, d),
    ensures
        find_from(s, pat, i) == Some(d),
    decreases d - i,
{
    if i < d {
        assert(!occurs_at(s, pat, i));
        lemma_find_from_first(s, pat, i + 1, d);
    }
}

pub proof fn lemma_find_byte_first(s: Seq<u8>, c: u8, i: int, k: int)
    requires
        0 <= i <= k < s.len(),
        forall|j: int| i <= j < k ==> s[j] != c,
        s[k] == c,
    ensures
        find_byte(s, c, i) == Some(k),
    decreases k - i,
{
    if i < k {
        lemma_find_byte_first(s, c, i + 1, k);
    }
}

/// A line feed appended after `s` is not part of any white-space
/// character that starts in `s`.
proof fn lemma_trim_start_nl(s: Seq<u8>)
    ensures
        trim_start(s + seq![0x0au8]) == if trim_start(s).len() > 0 {
            trim_start(s) + seq![0x0au8]
        } else {
            Seq::<u8>::empty()
        },
    decreases s.len(),
{
    let t = s + seq![0x0au8];
    if s.len() == 0 {
        assert(t.subrange(1, 1) =~= Seq::<u8>::empty());
        assert(trim_start(Seq::<u8>::empty()) =~= Seq::<u8>::empty());
    } else {
        let k = space_len_at(s, 0);
        assert(space_len_at(t, 0) == k);
        if k > 0 {
            assert(t.subrange(k, t.len() as int) =~= s.subrange(k, s.len() as int) + seq![0x0au8]);
            lemma_trim_start_nl(s.subrange(k, s.len() as int));
        }
    }
}

/// Trailing white space appended as a line feed is trimmed away again.
pub proof fn lemma_trim_nl_suffix(s: Seq<u8>)
    ensures
        trim_end(trim_start(s + seq![0x0au8])) == trim_end(trim_start(s)),
{
    lemma_trim_start_nl(s);
    if trim_start(s).len() > 0 {
        let t = trim_start(s) + seq![0x0au8];
        assert(space_len_before(t, t.len() as int) == 1);
        assert(t.subrange(0, t.len() - 1) =~= trim_start(s));
    } else {
        assert(trim_start(s) =~= Seq::<u8>::empty());
    }
}

pub proof fn lemma_trim_end_len(s: Seq<u8>)
    ensures
        trim_end(s).len() <= s.len(),
    decreases s.len(),
{
    let k = space_len_before(s, s.len() as int);
    if k > 0 {
        lemma_trim_end_len(s.subrange(0, s.len() - k));
    }
}

/// A text that trimming leaves alone ends in no white-space character.
pub proof fn lemma_trimmed_end(s: Seq<u8>)
    requires
        trim_end(s) == s,
    ensures
        space_len_before(s, s.len() as int) == 0,
        s.len() > 0 ==> !is_space(s.last()),
{
    let k = space_len_before(s, s.len() as int);
    if k > 0 {
        lemma_trim_end_len(s.subrange(0, s.len() - k));
    }
}

/// A byte that can stand after a leading byte inside one UTF-8 character.
pub open spec fn is_continuation(b: u8) -> bool {
    0x80 <= b && b <= 0xbf
}

/// When `s` ends with `v`, and `v` starts a character and ends in no white
/// space, then `s` ends in no white space: a white-space character that
/// began before `v` would need `v`'s first byte as a continuation byte.
pub proof fn lemma_trimmed_suffix(s: Seq<u8>, v: Seq<u8>)
    requires
        v.len() > 0,
        s.len() >= v.len(),
        s.subrange(s.len() - v.len(), s.len() as int) == v,
        trim_end(v) == v,
        !is_continuation(v[0]),
    ensures
        trim_end(s) == s,
{
    lemma_trimmed_end(v);
    let n = s.len() as int;
    let m = v.len() as int;
    assert forall|i: int| 0 <= i < m implies s[n - m + i] == v[i] by {
        assert(s.subrange(n - m, n)[i] == s[n - m + i]);
    }
    assert(space_len_before(s, n) == 0);
}


/// A join ends with its last part.
pub proof fn lemma_join_ends_with(parts: Seq<Seq<u8>>, sep: u8)
    requires
        parts.len() >= 1,
    ensures
        join(parts, sep).len() >= parts.last().len(),
        join(parts, sep).subrange(
            join(parts, sep).len() - parts.last().len(),
            join(parts, sep).len() as int,
        ) == parts.last(),
{
    let j = join(parts, sep);
    let l = parts.last();
    if parts.len() == 1 {
        assert(j.subrange(0, j.len() as int) =~= j);
    } else {
        assert(j.subrange(j.len() - l.len(), j.len() as int) =~= l);
    }
}

/// A join starts with the first byte of its first part.
pub proof fn lemma_join_first(parts: Seq<Seq<u8>>, sep: u8)
    requires
        parts.len() >= 1,
        parts[0].len() > 0,
    ensures
        join(parts, sep).len() > 0,
        join(parts, sep)[0] == parts[0][0],
    decreases parts.len(),
{
    if parts.len() > 1 {
        let init = parts.drop_last();
        assert(init[0] == parts[0]);
        lemma_join_first(init, sep);
    }
}

/// The UTF-8 encoding of a non-empty text starts with a leading byte.
pub proof fn lemma_utf8_starts_a_char(chars: Seq<char>)
    requires
        chars.len() > 0,
    ensures
        encode_utf8(chars).len() > 0,
        !is_continuation(encode_utf8(chars)[0]),
{
    encode_utf8_first_scalar(chars);
}

} // verus!

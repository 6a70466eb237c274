//! Verified building blocks for the string handling the controller needs:
//! equality, prefix/suffix tests, line splitting, trimming and decimal parsing.

use vstd::prelude::*;

verus! {

/// `p` is a prefix of `s`.
pub open spec fn starts_with(s: Seq<char>, p: Seq<char>) -> bool {
    s.len() >= p.len() && s.take(p.len() as int) == p
}

/// `p` is a suffix of `s`.
pub open spec fn ends_with(s: Seq<char>, p: Seq<char>) -> bool {
    s.len() >= p.len() && s.skip(s.len() - p.len()) == p
}

/// Character-for-character equality of two string slices.
pub fn str_eq(a: &str, b: &str) -> (r: bool)
    ensures
        r == (a@ == b@),
{
    let a_len = a.unicode_len();
    let b_len = b.unicode_len();
    if a_len != b_len {
        proof {
            assert(a@ != b@) by {
                if a@ == b@ {
                    assert(a@.len() == b@.len());
                }
            }
        }
        return false;
    }
    let mut i: usize = 0;
    while i < a_len
        invariant
            i <= a_len,
            a_len == a@.len(),
            b_len == b@.len(),
            a_len == b_len,
            forall|j: int| 0 <= j < i ==> a@[j] == b@[j],
        decreases a_len - i,
    {
        if a.get_char(i) != b.get_char(i) {
            return false;
        }
        i = i + 1;
    }
    proof {
        assert(a@ =~= b@);
    }
    true
}

/// Whether `s` begins with the prefix `p`.
pub fn str_starts_with(s: &str, p: &str) -> (r: bool)
    ensures
        r == starts_with(s@, p@),
{
    let s_len = s.unicode_len();
    let p_len = p.unicode_len();
    if s_len < p_len {
        return false;
    }
    let mut i: usize = 0;
    while i < p_len
        invariant
            i <= p_len,
            s_len == s@.len(),
            p_len == p@.len(),
            p_len <= s_len,
            forall|j: int| 0 <= j < i ==> s@[j] == p@[j],
        decreases p_len - i,
    {
        if s.get_char(i) != p.get_char(i) {
            proof {
                assert(!starts_with(s@, p@)) by {
                    if s@.take(p@.len() as int) == p@ {
                        assert(s@.take(p@.len() as int)[i as int] == p@[i as int]);
                    }
                }
            }
            return false;
        }
        i = i + 1;
    }
    proof {
        assert(s@.take(p@.len() as int) =~= p@);
    }
    true
}

/// Whether `s` ends with the suffix `p`.
pub fn str_ends_with(s: &str, p: &str) -> (r: bool)
    ensures
        r == ends_with(s@, p@),
{
    let s_len = s.unicode_len();
    let p_len = p.unicode_len();
    if s_len < p_len {
        return false;
    }
    let off: usize = s_len - p_len;
    let mut i: usize = 0;
    while i < p_len
        invariant
            i <= p_len,
            s_len == s@.len(),
            p_len == p@.len(),
            p_len <= s_len,
            off == s_len - p_len,
            forall|j: int| 0 <= j < i ==> s@[off + j] == p@[j],
        decreases p_len - i,
    {
        if s.get_char(off + i) != p.get_char(i) {
            proof {
                assert(!ends_with(s@, p@)) by {
                    if s@.skip(s@.len() - p@.len()) == p@ {
                        assert(s@.skip(s@.len() - p@.len())[i as int] == p@[i as int]);
                    }
                }
            }
            return false;
        }
        i = i + 1;
    }
    proof {
        assert(s@.skip(s@.len() - p@.len()) =~= p@);
    }
    true
}

/// Some position of `s` holds the character `c`.
pub open spec fn has_char(s: Seq<char>, c: char) -> bool {
    exists|i: int| 0 <= i < s.len() && s[i] == c
}

/// The segments of `s` between occurrences of the separator `c`,
/// in order; one segment more than there are separators.
pub open spec fn split_char(s: Seq<char>, c: char) -> Seq<Seq<char>>
    decreases s.len(),
{
    if s.len() == 0 {
        seq![Seq::<char>::empty()]
    } else {
        let rest = split_char(s.drop_first(), c);
        if s[0] == c {
            seq![Seq::<char>::empty()] + rest
        } else {
            seq![seq![s[0]] + rest[0]] + rest.drop_first()
        }
    }
}

pub proof fn lemma_split_char_len(s: Seq<char>, c: char)
    ensures
        split_char(s, c).len() >= 1,
    decreases s.len(),
{
    if s.len() > 0 {
        lemma_split_char_len(s.drop_first(), c);
    }
}

/// Splitting a separator-free sequence yields that sequence alone.
pub proof fn lemma_split_char_none(s: Seq<char>, c: char)
    requires
        !has_char(s, c),
    ensures
        split_char(s, c) =~~= seq![s],
    decreases s.len(),
{
    if s.len() > 0 {
        assert(s[0] != c);
        assert(!has_char(s.drop_first(), c)) by {
            if has_char(s.drop_first(), c) {
                let i = choose|i: int|
                    0 <= i < s.drop_first().len() && s.drop_first()[i] == c;
                assert(s[i + 1] == c);
            }
        }
        lemma_split_char_none(s.drop_first(), c);
        assert(seq![s[0]] + s.drop_first() =~= s);
    }
}

/// Splitting at the first separator: the head segment is what precedes it,
/// and the rest is the split of what follows it.
pub proof fn lemma_split_char_first(s: Seq<char>, c: char, k: int)
    requires
        0 <= k < s.len(),
        s[k] == c,
        forall|j: int| 0 <= j < k ==> s[j] != c,
    ensures
        split_char(s, c) =~~= seq![s.take(k)] + split_char(s.skip(k + 1), c),
    decreases k,
{
    if k == 0 {
        assert(s.take(0) =~= Seq::<char>::empty());
        assert(s.drop_first() =~= s.skip(1));
    } else {
        let t = s.drop_first();
        assert(t[k - 1] == c);
        assert(forall|j: int| 0 <= j < k - 1 ==> t[j] != c);
        lemma_split_char_first(t, c, k - 1);
        lemma_split_char_len(t.skip(k), c);
        assert(seq![s[0]] + t.take(k - 1) =~= s.take(k));
        assert(t.skip(k) =~= s.skip(k + 1));
        assert(split_char(t, c)[0] == t.take(k - 1));
        assert(split_char(t, c).drop_first() =~~= split_char(t.skip(k), c));
    }
}

/// `t` with a single trailing carriage return removed, if one is there.
pub open spec fn strip_cr(t: Seq<char>) -> Seq<char> {
    if t.len() > 0 && t.last() == '\r' {
        t.drop_last()
    } else {
        t
    }
}

/// The lines of `s`: segments before each newline, a carriage return
/// directly before the newline dropped, and a final unterminated segment
/// kept as it stands.
pub open spec fn lines_of(s: Seq<char>) -> Seq<Seq<char>> {
    if s.len() == 0 {
        Seq::<Seq<char>>::empty()
    } else {
        let segs = split_char(s, '\n');
        if s.last() == '\n' {
            segs.drop_last().map_values(|t: Seq<char>| strip_cr(t))
        } else {
            segs.drop_last().map_values(|t: Seq<char>| strip_cr(t)).push(segs.last())
        }
    }
}

/// Splits `s` at every occurrence of `c`.
pub fn split_on(s: &str, c: char) -> (r: Vec<String>)
    ensures
        r.deep_view() == split_char(s@, c),
{
    let len = s.unicode_len();
    let mut out: Vec<String> = Vec::new();
    let mut start: usize = 0;
    let mut i: usize = 0;
    proof {
        assert(s@.skip(0) =~= s@);
        assert(out.deep_view() =~= Seq::<Seq<char>>::empty());
    }
    while i < len
        invariant
            start <= i <= len,
            len == s@.len(),
            forall|j: int| start <= j < i ==> s@[j] != c,
            split_char(s@, c) =~~= out.deep_view() + split_char(s@.skip(start as int), c),
        decreases len - i,
    {
        if s.get_char(i) == c {
            let seg = s.substring_char(start, i).to_owned();
            let ghost pre = out.deep_view();
            proof {
                let rem = s@.skip(start as int);
                assert(rem[i - start] == c);
                assert(forall|j: int| 0 <= j < i - start ==> rem[j] != c);
                lemma_split_char_first(rem, c, i - start);
                assert(rem.take(i - start) =~= s@.subrange(start as int, i as int));
                assert(rem.skip(i - start + 1) =~= s@.skip(i + 1));
                assert((pre + seq![seg@]) + split_char(s@.skip(i + 1), c)
                    =~~= pre + split_char(s@.skip(start as int), c));
            }
            out.push(seg);
            proof {
                assert(out.deep_view() =~= pre + seq![seg@]);
            }
            start = i + 1;
        }
        i = i + 1;
    }
    let last = s.substring_char(start, len).to_owned();
    proof {
        let rem = s@.skip(start as int);
        assert(!has_char(rem, c)) by {
            if has_char(rem, c) {
                let j = choose|j: int| 0 <= j < rem.len() && rem[j] == c;
                assert(s@[start + j] == c);
            }
        }
        lemma_split_char_none(rem, c);
        assert(rem =~= s@.subrange(start as int, len as int));
    }
    out.push(last);
    proof {
        assert(out.deep_view() =~~= split_char(s@, c));
    }
    out
}


/// `t` with one trailing carriage return removed, if it ends in one.
pub fn strip_cr_exec(t: &String) -> (r: String)
    ensures
        r@ == strip_cr(t@),
{
    let tl = t.as_str().unicode_len();
    if tl > 0 && t.as_str().get_char(tl - 1) == '\r' {
        let r = t.as_str().substring_char(0, tl - 1).to_owned();
        proof {
            assert(t@.subrange(0, tl - 1) =~= t@.drop_last());
        }
        r
    } else {
        t.clone()
    }
}

/// Splits `s` into its lines, as a directory listing arrives over a channel:
/// one entry per newline-terminated segment, a trailing carriage return
/// dropped, and a final unterminated segment kept.
pub fn split_lines(s: &str) -> (r: Vec<String>)
    ensures
        r.deep_view() == lines_of(s@),
{
    let len = s.unicode_len();
    if len == 0 {
        let empty: Vec<String> = Vec::new();
        proof {
            assert(empty.deep_view() =~= lines_of(s@));
        }
        return empty;
    }
    let segs = split_on(s, '\n');
    proof {
        lemma_split_char_len(s@, '\n');
    }
    let n = segs.len();
    let mut out: Vec<String> = Vec::new();
    let mut i: usize = 0;
    while i < n - 1
        invariant
            0 < n == split_char(s@, '\n').len(),
            segs.deep_view() == split_char(s@, '\n'),
            segs.len() == n,
            i <= n - 1,
            out.deep_view().len() == i,
            forall|j: int| 0 <= j < i ==> out.deep_view()[j] == strip_cr(split_char(s@, '\n')[j]),
        decreases n - 1 - i,
    {
        let piece = strip_cr_exec(&segs[i]);
        let ghost pre = out.deep_view();
        let ghost pview = piece@;
        proof {
            assert(segs.deep_view()[i as int] == segs@[i as int]@);
            assert(pview == strip_cr(split_char(s@, '\n')[i as int]));
        }
        out.push(piece);
        proof {
            assert(out.deep_view() =~= pre.push(pview));
        }
        i = i + 1;
    }
    if s.get_char(len - 1) == '\n' {
        proof {
            let target = split_char(s@, '\n').drop_last().map_values(
                |t: Seq<char>| strip_cr(t),
            );
            assert(out.deep_view() =~~= target);
            assert(lines_of(s@) == target);
        }
        out
    } else {
        let lastseg = segs[n - 1].clone();
        let ghost pre = out.deep_view();
        let ghost lview = lastseg@;
        proof {
            assert(segs.deep_view()[n - 1] == segs@[n - 1]@);
            assert(lview == split_char(s@, '\n').last());
        }
        out.push(lastseg);
        proof {
            assert(out.deep_view() =~= pre.push(lview));
        }
        proof {
            let target = split_char(s@, '\n').drop_last().map_values(
                |t: Seq<char>| strip_cr(t),
            ).push(split_char(s@, '\n').last());
            assert(out.deep_view() =~~= target);
            assert(lines_of(s@) == target);
        }
        out
    }
}


/// The characters `str::trim` removes: the Unicode white-space set.
pub open spec fn is_space(c: char) -> bool {
    c == ' ' || c == '\t' || c == '\n' || c == '\r' || c == '\u{b}' || c == '\u{c}'
        || c == '\u{85}' || c == '\u{a0}' || c == '\u{1680}' || ('\u{2000}' <= c
        && c <= '\u{200a}') || c == '\u{2028}' || c == '\u{2029}' || c == '\u{202f}'
        || c == '\u{205f}' || c == '\u{3000}'
}

pub open spec fn ltrim(s: Seq<char>) -> Seq<char>
    decreases s.len(),
{
    if s.len() > 0 && is_space(s[0]) {
        ltrim(s.drop_first())
    } else {
        s
    }
}

pub open spec fn rtrim(s: Seq<char>) -> Seq<char>
    decreases s.len(),
{
    if s.len() > 0 && is_space(s.last()) {
        rtrim(s.drop_last())
    } else {
        s
    }
}

/// `s` without leading and trailing white space.
pub open spec fn trim_of(s: Seq<char>) -> Seq<char> {
    rtrim(ltrim(s))
}

proof fn lemma_ltrim_at(s: Seq<char>, k: int)
    requires
        0 <= k <= s.len(),
        forall|j: int| 0 <= j < k ==> is_space(s[j]),
        k < s.len() ==> !is_space(s[k]),
    ensures
        ltrim(s) == s.skip(k),
    decreases k,
{
    if k == 0 {
        assert(s.skip(0) =~= s);
    } else {
        let t = s.drop_first();
        assert(forall|j: int| 0 <= j < k - 1 ==> is_space(t[j]));
        lemma_ltrim_at(t, k - 1);
        assert(t.skip(k - 1) =~= s.skip(k));
    }
}

proof fn lemma_rtrim_at(s: Seq<char>, m: int)
    requires
        0 <= m <= s.len(),
        forall|j: int| m <= j < s.len() ==> is_space(s[j]),
        m > 0 ==> !is_space(s[m - 1]),
    ensures
        rtrim(s) == s.take(m),
    decreases s.len() - m,
{
    if m == s.len() as int {
        if s.len() > 0 && is_space(s.last()) {
            let t = s.drop_last();
            assert(forall|j: int| t.len() <= j < t.len() ==> is_space(t[j]));
            lemma_rtrim_at(t, m - 1);
            assert(t.take(m - 1) =~= s.take(m - 1));
            assert(false);
        }
        assert(s.take(m) =~= s);
    } else {
        if m == s.len() - 1 {
            let t = s.drop_last();
            lemma_rtrim_at(t, m);
            assert(t.take(m) =~= s.take(m));
        } else {
            let t = s.drop_last();
            assert(forall|j: int| m <= j < t.len() ==> is_space(t[j]));
            lemma_rtrim_at(t, m);
            assert(t.take(m) =~= s.take(m));
        }
    }
}

/// Whether `c` is white space.
pub fn is_space_char(c: char) -> (r: bool)
    ensures
        r == is_space(c),
{
    c == ' ' || c == '\t' || c == '\n' || c == '\r' || c == '\u{b}' || c == '\u{c}'
        || c == '\u{85}' || c == '\u{a0}' || c == '\u{1680}' || ('\u{2000}' <= c
        && c <= '\u{200a}') || c == '\u{2028}' || c == '\u{2029}' || c == '\u{202f}'
        || c == '\u{205f}' || c == '\u{3000}'
}

/// `s` without leading and trailing white space.
pub fn str_trim(s: &str) -> (r: String)
    ensures
        r@ == trim_of(s@),
{
    let len = s.unicode_len();
    let mut a: usize = 0;
    while a < len && is_space_char(s.get_char(a))
        invariant
            a <= len,
            len == s@.len(),
            forall|j: int| 0 <= j < a ==> is_space(s@[j]),
        decreases len - a,
    {
        a = a + 1;
    }
    proof {
        lemma_ltrim_at(s@, a as int);
    }
    let mut b: usize = len;
    while b > a && is_space_char(s.get_char(b - 1))
        invariant
            a <= b <= len,
            len == s@.len(),
            a < len ==> !is_space(s@[a as int]),
            forall|j: int| b <= j < len ==> is_space(s@[j]),
        decreases b,
    {
        b = b - 1;
    }
    let r = s.substring_char(a, b).to_owned();
    proof {
        let t = s@.skip(a as int);
        assert(forall|j: int| b - a <= j < t.len() ==> is_space(t[j]));
        if b > a {
            assert(!is_space(t[b - a - 1]));
        }
        if b == a && a < len {
            assert(!is_space(s@[a as int]));
            assert(!is_space(t[0]));
            assert(b - a == 0);
        }
        lemma_rtrim_at(t, b - a);
        assert(t.take(b - a) =~= s@.subrange(a as int, b as int));
    }
    r
}

/// `s` with every copy of the prefix `p` removed from its front.
pub open spec fn strip_prefix_all(s: Seq<char>, p: Seq<char>) -> Seq<char>
    decreases s.len(),
{
    if p.len() > 0 && starts_with(s, p) {
        strip_prefix_all(s.skip(p.len() as int), p)
    } else {
        s
    }
}

/// `s` with every copy of the suffix `p` removed from its end.
pub open spec fn strip_suffix_all(s: Seq<char>, p: Seq<char>) -> Seq<char>
    decreases s.len(),
{
    if p.len() > 0 && ends_with(s, p) {
        strip_suffix_all(s.take(s.len() - p.len()), p)
    } else {
        s
    }
}

/// Whether `p` occurs in `s` at offset `off`.
fn matches_at(s: &str, off: usize, p: &str) -> (r: bool)
    requires
        off <= s@.len(),
    ensures
        r == starts_with(s@.skip(off as int), p@),
{
    let s_len = s.unicode_len();
    let p_len = p.unicode_len();
    if s_len - off < p_len {
        return false;
    }
    let mut i: usize = 0;
    while i < p_len
        invariant
            i <= p_len,
            s_len == s@.len(),
            p_len == p@.len(),
            off + p_len <= s_len,
            forall|j: int| 0 <= j < i ==> s@[off + j] == p@[j],
        decreases p_len - i,
    {
        if s.get_char(off + i) != p.get_char(i) {
            proof {
                let rem = s@.skip(off as int);
                assert(!starts_with(rem, p@)) by {
                    if rem.take(p@.len() as int) == p@ {
                        assert(rem.take(p@.len() as int)[i as int] == p@[i as int]);
                        assert(rem[i as int] == s@[off + i]);
                    }
                }
            }
            return false;
        }
        i = i + 1;
    }
    proof {
        assert(s@.skip(off as int).take(p@.len() as int) =~= p@);
    }
    true
}

/// `s` with every leading copy of `p` removed, as `str::trim_start_matches`
/// strips a repeated prefix.
pub fn trim_start_matches_str(s: &str, p: &str) -> (r: String)
    requires
        p@.len() > 0,
    ensures
        r@ == strip_prefix_all(s@, p@),
{
    let len = s.unicode_len();
    let p_len = p.unicode_len();
    let mut start: usize = 0;
    proof {
        assert(s@.skip(0) =~= s@);
    }
    while matches_at(s, start, p)
        invariant
            start <= len,
            len == s@.len(),
            p_len == p@.len(),
            p@.len() > 0,
            strip_prefix_all(s@, p@) == strip_prefix_all(s@.skip(start as int), p@),
        decreases len - start,
    {
        proof {
            assert(s@.skip(start as int).skip(p@.len() as int) =~= s@.skip(
                start + p@.len(),
            ));
        }
        start = start + p_len;
    }
    let r = s.substring_char(start, len).to_owned();
    proof {
        assert(s@.subrange(start as int, len as int) =~= s@.skip(start as int));
    }
    r
}

/// Whether `p` occurs in `s` ending at offset `end`.
fn matches_end(s: &str, end: usize, p: &str) -> (r: bool)
    requires
        end <= s@.len(),
    ensures
        r == ends_with(s@.take(end as int), p@),
{
    let p_len = p.unicode_len();
    if end < p_len {
        return false;
    }
    let off: usize = end - p_len;
    let mut i: usize = 0;
    while i < p_len
        invariant
            i <= p_len,
            p_len == p@.len(),
            p_len <= end <= s@.len(),
            off == end - p_len,
            forall|j: int| 0 <= j < i ==> s@[off + j] == p@[j],
        decreases p_len - i,
    {
        if s.get_char(off + i) != p.get_char(i) {
            proof {
                let t = s@.take(end as int);
                assert(!ends_with(t, p@)) by {
                    if t.skip(t.len() - p@.len()) == p@ {
                        assert(t.skip(t.len() - p@.len())[i as int] == p@[i as int]);
                        assert(t[off + i] == s@[off + i]);
                    }
                }
            }
            return false;
        }
        i = i + 1;
    }
    proof {
        let t = s@.take(end as int);
        assert(t.skip(t.len() - p@.len()) =~= p@);
    }
    true
}

/// `s` with every trailing copy of `p` removed, as `str::trim_end_matches`
/// strips a repeated suffix.
pub fn trim_end_matches_str(s: &str, p: &str) -> (r: String)
    requires
        p@.len() > 0,
    ensures
        r@ == strip_suffix_all(s@, p@),
{
    let len = s.unicode_len();
    let p_len = p.unicode_len();
    let mut end: usize = len;
    proof {
        assert(s@.take(len as int) =~= s@);
    }
    while matches_end(s, end, p)
        invariant
            end <= len,
            len == s@.len(),
            p_len == p@.len(),
            p@.len() > 0,
            strip_suffix_all(s@, p@) == strip_suffix_all(s@.take(end as int), p@),
        decreases end,
    {
        proof {
            let t = s@.take(end as int);
            assert(t.take(t.len() - p@.len()) =~= s@.take(end - p@.len()));
        }
        end = end - p_len;
    }
    let r = s.substring_char(0, end).to_owned();
    proof {
        assert(s@.subrange(0, end as int) =~= s@.take(end as int));
    }
    r
}


/// A decimal digit.
pub open spec fn is_digit(c: char) -> bool {
    '0' <= c && c <= '9'
}

/// The numeric value of a decimal digit.
pub open spec fn digit_val(c: char) -> int {
    c as int - '0' as int
}

/// The decimal digit with value `d`.
pub open spec fn digit_char(d: int) -> char {
    if d == 0 {
        '0'
    } else if d == 1 {
        '1'
    } else if d == 2 {
        '2'
    } else if d == 3 {
        '3'
    } else if d == 4 {
        '4'
    } else if d == 5 {
        '5'
    } else if d == 6 {
        '6'
    } else if d == 7 {
        '7'
    } else if d == 8 {
        '8'
    } else {
        '9'
    }
}

pub open spec fn all_digits(s: Seq<char>) -> bool {
    forall|i: int| 0 <= i < s.len() ==> is_digit(s[i])
}

/// The value of a string of decimal digits, most significant first.
pub open spec fn digits_val(s: Seq<char>) -> int
    decreases s.len(),
{
    if s.len() == 0 {
        0
    } else {
        digits_val(s.drop_last()) * 10 + digit_val(s.last())
    }
}

pub proof fn lemma_digit_char_val(d: int)
    requires
        0 <= d < 10,
    ensures
        is_digit(digit_char(d)),
        digit_val(digit_char(d)) == d,
{
}

pub proof fn lemma_digit_val_char(c: char)
    requires
        is_digit(c),
    ensures
        digit_char(digit_val(c)) == c,
        0 <= digit_val(c) < 10,
{
}

pub proof fn lemma_digits_val_nonneg(s: Seq<char>)
    requires
        all_digits(s),
    ensures
        digits_val(s) >= 0,
    decreases s.len(),
{
    if s.len() > 0 {
        assert(all_digits(s.drop_last()));
        lemma_digits_val_nonneg(s.drop_last());
        assert(is_digit(s.last()));
    }
}

/// Extending a digit string on the right never shrinks its value.
pub proof fn lemma_digits_val_prefix_le(s: Seq<char>, i: int)
    requires
        all_digits(s),
        0 <= i <= s.len(),
    ensures
        digits_val(s.take(i)) <= digits_val(s),
    decreases s.len() - i,
{
    if i < s.len() {
        lemma_digits_val_prefix_le(s, i + 1);
        assert(s.take(i + 1).drop_last() =~= s.take(i));
        assert(digits_val(s.take(i + 1)) == digits_val(s.take(i)) * 10 + digit_val(
            s.take(i + 1).last(),
        ));
        assert(all_digits(s.take(i)));
        lemma_digits_val_nonneg(s.take(i));
        assert(is_digit(s[i]));
        assert(s.take(i + 1).last() == s[i]);
        let x = digits_val(s.take(i));
        assert(x * 10 >= x) by (nonlinear_arith)
            requires
                x >= 0,
        ;
        assert(digit_val(s.take(i + 1).last()) >= 0);
    } else {
        assert(s.take(i) =~= s);
    }
}

/// The digit part of a decimal integer string: an optional leading plus
/// sign is dropped.
pub open spec fn usize_digits(s: Seq<char>) -> Seq<char> {
    if s.len() > 0 && s[0] == '+' {
        s.drop_first()
    } else {
        s
    }
}

/// The strings `str::parse::<usize>` accepts: an optional plus sign, then
/// one or more digits, with a value that fits in `usize`.
pub open spec fn is_usize_string(s: Seq<char>) -> bool {
    let d = usize_digits(s);
    d.len() > 0 && all_digits(d) && digits_val(d) <= usize::MAX
}

/// Parses a decimal `usize`, accepting exactly what `str::parse::<usize>`
/// accepts.
pub fn parse_usize(s: &str) -> (r: Option<usize>)
    ensures
        r matches Some(v) ==> is_usize_string(s@) && v == digits_val(usize_digits(s@)),
        r is None ==> !is_usize_string(s@),
{
    let len = s.unicode_len();
    let start: usize = if len > 0 && s.get_char(0) == '+' {
        1
    } else {
        0
    };
    let ghost d = usize_digits(s@);
    proof {
        assert(d =~= s@.skip(start as int));
    }
    if len == start {
        return None;
    }
    let mut v: usize = 0;
    let mut i: usize = start;
    proof {
        assert(d.take(0) =~= Seq::<char>::empty());
    }
    while i < len
        invariant
            start <= i <= len,
            len == s@.len(),
            d == s@.skip(start as int),
            d == usize_digits(s@),
            d.len() == len - start,
            all_digits(d.take(i - start)),
            v == digits_val(d.take(i - start)),
        decreases len - i,
    {
        let c = s.get_char(i);
        if !('0' <= c && c <= '9') {
            proof {
                assert(d[i - start] == c);
                assert(!is_usize_string(s@)) by {
                    if all_digits(d) {
                        assert(is_digit(d[i - start]));
                    }
                }
            }
            return None;
        }
        let dv: usize = (c as u32 - '0' as u32) as usize;
        proof {
            assert(dv == digit_val(c));
        }
        if v > (usize::MAX - dv) / 10 {
            proof {
                let pre = d.take(i - start + 1);
                assert(pre.drop_last() =~= d.take(i - start));
                assert(pre.last() == c);
                assert(digits_val(pre) == v * 10 + dv);
                assert(v * 10 + dv > usize::MAX) by (nonlinear_arith)
                    requires
                        v > (usize::MAX - dv) / 10,
                        0 <= dv < 10,
                ;
                assert(!is_usize_string(s@)) by {
                    if all_digits(d) {
                        lemma_digits_val_prefix_le(d, i - start + 1);
                        assert(digits_val(d) > usize::MAX);
                    }
                }
            }
            return None;
        }
        proof {
            assert(v * 10 + dv <= usize::MAX) by (nonlinear_arith)
                requires
                    v <= (usize::MAX - dv) / 10,
                    0 <= dv < 10,
            ;
            let pre = d.take(i - start + 1);
            assert(pre.drop_last() =~= d.take(i - start));
            assert(pre.last() == c);
            assert(all_digits(pre)) by {
                assert(forall|j: int|
                    0 <= j < pre.len() ==> is_digit(#[trigger] pre[j])) by {
                    assert(forall|j: int|
                        0 <= j < pre.len() - 1 ==> pre[j] == d.take(i - start)[j]);
                }
            }
        }
        v = v * 10 + dv;
        i = i + 1;
    }
    proof {
        assert(d.take(i - start) =~= d);
    }
    Some(v)
}

/// The decimal digit with value `d`, as a one-character string.
pub fn digit_str(d: u8) -> (r: &'static str)
    requires
        d < 10,
    ensures
        r@ =~= seq![digit_char(d as int)],
{
    proof {
        reveal_strlit("0");
        reveal_strlit("1");
        reveal_strlit("2");
        reveal_strlit("3");
        reveal_strlit("4");
        reveal_strlit("5");
        reveal_strlit("6");
        reveal_strlit("7");
        reveal_strlit("8");
        reveal_strlit("9");
    }
    match d {
        0 => "0",
        1 => "1",
        2 => "2",
        3 => "3",
        4 => "4",
        5 => "5",
        6 => "6",
        7 => "7",
        8 => "8",
        _ => "9",
    }
}

/// `v` written with exactly two decimal digits.
pub open spec fn two_digit_chars(v: int) -> Seq<char> {
    seq![digit_char(v / 10 % 10), digit_char(v % 10)]
}

/// `v` written with exactly four decimal digits.
pub open spec fn four_digit_chars(v: int) -> Seq<char> {
    seq![
        digit_char(v / 1000 % 10),
        digit_char(v / 100 % 10),
        digit_char(v / 10 % 10),
        digit_char(v % 10),
    ]
}

/// Appends `v` as two decimal digits.
pub fn push_two_digits(s: &mut String, v: u8)
    requires
        v < 100,
    ensures
        final(s)@ == old(s)@ + two_digit_chars(v as int),
{
    let ghost pre = s@;
    s.append(digit_str(v / 10));
    s.append(digit_str(v % 10));
    proof {
        assert(s@ =~= pre + two_digit_chars(v as int));
    }
}

/// Appends `v` as four decimal digits.
pub fn push_four_digits(s: &mut String, v: u16)
    requires
        v < 10000,
    ensures
        final(s)@ == old(s)@ + four_digit_chars(v as int),
{
    let ghost pre = s@;
    s.append(digit_str((v / 1000) as u8));
    s.append(digit_str((v / 100 % 10) as u8));
    s.append(digit_str((v / 10 % 10) as u8));
    s.append(digit_str((v % 10) as u8));
    proof {
        assert((v / 1000) as int == v as int / 1000 % 10);
        assert(s@ =~= pre + four_digit_chars(v as int));
    }
}


pub proof fn lemma_two_digit_chars_val(v: int)
    requires
        0 <= v < 100,
    ensures
        two_digit_chars(v).len() == 2,
        all_digits(two_digit_chars(v)),
        digits_val(two_digit_chars(v)) == v,
{
    let p = two_digit_chars(v);
    lemma_digit_char_val(v / 10 % 10);
    lemma_digit_char_val(v % 10);
    assert(p.drop_last() =~= seq![digit_char(v / 10 % 10)]);
    assert(seq![digit_char(v / 10 % 10)].drop_last() =~= Seq::<char>::empty());
    assert(digits_val(Seq::<char>::empty()) == 0);
    assert(digits_val(seq![digit_char(v / 10 % 10)]) == v / 10 % 10);
    assert(digits_val(p) == (v / 10 % 10) * 10 + v % 10);
    assert(v / 10 % 10 == v / 10);
    assert((v / 10) * 10 + v % 10 == v);
}

pub proof fn lemma_four_digit_chars_val(v: int)
    requires
        0 <= v < 10000,
    ensures
        four_digit_chars(v).len() == 4,
        all_digits(four_digit_chars(v)),
        digits_val(four_digit_chars(v)) == v,
{
    let a = digit_char(v / 1000 % 10);
    let b = digit_char(v / 100 % 10);
    let c = digit_char(v / 10 % 10);
    let d = digit_char(v % 10);
    let p = four_digit_chars(v);
    lemma_digit_char_val(v / 1000 % 10);
    lemma_digit_char_val(v / 100 % 10);
    lemma_digit_char_val(v / 10 % 10);
    lemma_digit_char_val(v % 10);
    assert(p.drop_last() =~= seq![a, b, c]);
    assert(seq![a, b, c].drop_last() =~= seq![a, b]);
    assert(seq![a, b].drop_last() =~= seq![a]);
    assert(seq![a].drop_last() =~= Seq::<char>::empty());
    assert(digits_val(Seq::<char>::empty()) == 0);
    assert(digits_val(seq![a]) == v / 1000 % 10);
    assert(digits_val(seq![a, b]) == (v / 1000 % 10) * 10 + v / 100 % 10);
    assert(digits_val(seq![a, b, c]) == ((v / 1000 % 10) * 10 + v / 100 % 10) * 10 + v / 10
        % 10);
    assert(digits_val(p) == (((v / 1000 % 10) * 10 + v / 100 % 10) * 10 + v / 10 % 10) * 10 + v
        % 10);
    assert(v / 1000 % 10 == v / 1000);
    assert(v / 100 == (v / 1000) * 10 + v / 100 % 10) by (nonlinear_arith)
        requires
            0 <= v < 10000,
    ;
    assert(v / 10 == (v / 100) * 10 + v / 10 % 10) by (nonlinear_arith)
        requires
            0 <= v < 10000,
    ;
    assert(v == (v / 10) * 10 + v % 10);
}

pub proof fn lemma_two_digit_chars_inv(p: Seq<char>)
    requires
        p.len() == 2,
        all_digits(p),
    ensures
        0 <= digits_val(p) < 100,
        two_digit_chars(digits_val(p)) =~= p,
{
    assert(is_digit(p[0]) && is_digit(p[1]));
    lemma_digit_val_char(p[0]);
    lemma_digit_val_char(p[1]);
    assert(p.drop_last() =~= seq![p[0]]);
    assert(seq![p[0]].drop_last() =~= Seq::<char>::empty());
    assert(digits_val(Seq::<char>::empty()) == 0);
    assert(digits_val(seq![p[0]]) == digit_val(p[0]));
    let v = digits_val(p);
    assert(v == digit_val(p[0]) * 10 + digit_val(p[1]));
    assert(v / 10 == digit_val(p[0])) by (nonlinear_arith)
        requires
            v == digit_val(p[0]) * 10 + digit_val(p[1]),
            0 <= digit_val(p[0]) < 10,
            0 <= digit_val(p[1]) < 10,
    ;
    assert(v % 10 == digit_val(p[1])) by (nonlinear_arith)
        requires
            v == digit_val(p[0]) * 10 + digit_val(p[1]),
            0 <= digit_val(p[0]) < 10,
            0 <= digit_val(p[1]) < 10,
    ;
    assert(v / 10 % 10 == v / 10);
}

pub proof fn lemma_four_digit_chars_inv(p: Seq<char>)
    requires
        p.len() == 4,
        all_digits(p),
    ensures
        0 <= digits_val(p) < 10000,
        four_digit_chars(digits_val(p)) =~= p,
{
    assert(is_digit(p[0]) && is_digit(p[1]) && is_digit(p[2]) && is_digit(p[3]));
    lemma_digit_val_char(p[0]);
    lemma_digit_val_char(p[1]);
    lemma_digit_val_char(p[2]);
    lemma_digit_val_char(p[3]);
    let a = digit_val(p[0]);
    let b = digit_val(p[1]);
    let c = digit_val(p[2]);
    let d = digit_val(p[3]);
    assert(p.drop_last() =~= seq![p[0], p[1], p[2]]);
    assert(seq![p[0], p[1], p[2]].drop_last() =~= seq![p[0], p[1]]);
    assert(seq![p[0], p[1]].drop_last() =~= seq![p[0]]);
    assert(seq![p[0]].drop_last() =~= Seq::<char>::empty());
    assert(digits_val(Seq::<char>::empty()) == 0);
    assert(digits_val(seq![p[0]]) == a);
    assert(digits_val(seq![p[0], p[1]]) == a * 10 + b);
    assert(digits_val(seq![p[0], p[1], p[2]]) == (a * 10 + b) * 10 + c);
    let v = digits_val(p);
    assert(v == ((a * 10 + b) * 10 + c) * 10 + d);
    assert(v == a * 1000 + b * 100 + c * 10 + d) by (nonlinear_arith)
        requires
            v == ((a * 10 + b) * 10 + c) * 10 + d,
    ;
    assert(v / 1000 == a && v / 100 % 10 == b && v / 10 % 10 == c && v % 10 == d)
        by (nonlinear_arith)
        requires
            v == a * 1000 + b * 100 + c * 10 + d,
            0 <= a < 10,
            0 <= b < 10,
            0 <= c < 10,
            0 <= d < 10,
    ;
    assert(v / 1000 % 10 == v / 1000);
}

} // verus!

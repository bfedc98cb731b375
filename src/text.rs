//! Character-sequence helpers: conversion between strings and character
//! vectors, prefix and substring search, trimming and replacement.
use vstd::prelude::*;
use vstd::std_specs::iter::IteratorSpec;

verus! {

broadcast use vstd::string::group_string_axioms;

/// Relies on `String::push`: the character is appended at the end.
pub assume_specification[ String::push ](s: &mut String, ch: char)
    ensures
        final(s)@ == old(s)@.push(ch),
;

/// The Unicode `White_Space` property, as `char::is_whitespace` decides it.
pub open spec fn white_space(c: char) -> bool {
    ('\u{9}' <= c && c <= '\u{D}') || c == ' ' || c == '\u{85}' || c == '\u{A0}' || c == '\u{1680}'
        || ('\u{2000}' <= c && c <= '\u{200A}') || c == '\u{2028}' || c == '\u{2029}' || c
        == '\u{202F}' || c == '\u{205F}' || c == '\u{3000}'
}

/// Relies on `char::is_whitespace`: the Unicode `White_Space` property, as
/// its documentation states; the property holds of the 25 code points that
/// `white_space` lists.
pub assume_specification[ char::is_whitespace ](c: char) -> (r: bool)
    ensures
        r == white_space(c),
;

/// `p` occurs in `s` starting at index `i`.
pub open spec fn occurs_at(s: Seq<char>, p: Seq<char>, i: int) -> bool {
    0 <= i && i + p.len() <= s.len() && s.subrange(i, i + p.len()) == p
}

pub open spec fn starts_with(s: Seq<char>, p: Seq<char>) -> bool {
    occurs_at(s, p, 0)
}

pub open spec fn contains(s: Seq<char>, p: Seq<char>) -> bool {
    exists|i: int| occurs_at(s, p, i)
}

/// The first index at or after `i` where `p` occurs in `s`.
pub open spec fn find_from(s: Seq<char>, p: Seq<char>, i: int) -> Option<int>
    decreases s.len() + 1 - i,
{
    if i < 0 || i + p.len() > s.len() {
        None
    } else if occurs_at(s, p, i) {
        Some(i)
    } else {
        find_from(s, p, i + 1)
    }
}

/// `s` with leading white space removed.
pub open spec fn trim_start(s: Seq<char>) -> Seq<char>
    decreases s.len(),
{
    if s.len() > 0 && white_space(s[0]) {
        trim_start(s.drop_first())
    } else {
        s
    }
}

/// `s` with trailing white space removed.
pub open spec fn trim_end(s: Seq<char>) -> Seq<char>
    decreases s.len(),
{
    if s.len() > 0 && white_space(s.last()) {
        trim_end(s.drop_last())
    } else {
        s
    }
}

pub open spec fn trim(s: Seq<char>) -> Seq<char> {
    trim_end(trim_start(s))
}

/// Every non-overlapping occurrence of the non-empty `pat`, from left to
/// right, replaced by `rep`.
pub open spec fn replace_all(s: Seq<char>, pat: Seq<char>, rep: Seq<char>) -> Seq<char>
    decreases s.len(),
{
    if pat.len() == 0 || s.len() < pat.len() {
        s
    } else if starts_with(s, pat) {
        rep + replace_all(s.skip(pat.len() as int), pat, rep)
    } else {
        seq![s[0]] + replace_all(s.drop_first(), pat, rep)
    }
}

/// Whether `p` occurs in `s` at index `i`.
pub fn occurs_at_exec(s: &Vec<char>, p: &Vec<char>, i: usize) -> (r: bool)
    ensures
        r == occurs_at(s@, p@, i as int),
{
    if i > s.len() || p.len() > s.len() - i {
        return false;
    }
    let mut k: usize = 0;
    while k < p.len()
        invariant
            i + p.len() <= s.len(),
            k <= p@.len(),
            forall|j: int| 0 <= j < k ==> s@[i + j] == p@[j],
        decreases p@.len() - k,
    {
        if s[i + k] != p[k] {
            assert(s@.subrange(i as int, i + p@.len())[k as int] != p@[k as int]);
            return false;
        }
        k = k + 1;
    }
    assert(s@.subrange(i as int, i + p@.len()) =~= p@);
    true
}

/// The first index at or after `from` where `p` occurs in `s`.
pub fn find_chars(s: &Vec<char>, p: &Vec<char>, from: usize) -> (r: Option<usize>)
    ensures
        match r {
            Some(k) => find_from(s@, p@, from as int) == Some(k as int),
            None => find_from(s@, p@, from as int) is None,
        },
{
    let mut i: usize = from;
    while i <= s.len() && p.len() <= s.len() - i
        invariant
            from <= i,
            find_from(s@, p@, from as int) == find_from(s@, p@, i as int),
        decreases s@.len() + 1 - i,
    {
        if occurs_at_exec(s, p, i) {
            return Some(i);
        }
        if i == s.len() {
            assert(find_from(s@, p@, i + 1) is None);
            return None;
        }
        i = i + 1;
    }
    None
}

/// The bounds of `s` with leading and trailing white space removed.
pub fn trim_bounds(s: &Vec<char>) -> (r: (usize, usize))
    ensures
        r.0 <= r.1 <= s@.len(),
        s@.subrange(r.0 as int, r.1 as int) == trim(s@),
{
    let mut a: usize = 0;
    assert(s@.skip(0) =~= s@);
    while a < s.len() && s[a].is_whitespace()
        invariant
            a <= s@.len(),
            trim_start(s@) == trim_start(s@.skip(a as int)),
        decreases s@.len() - a,
    {
        assert(s@.skip(a as int).drop_first() =~= s@.skip(a + 1 as int));
        a = a + 1;
    }
    let ghost rest = s@.skip(a as int);
    assert(trim_start(s@) == rest);
    let mut b: usize = s.len();
    while b > a && s[b - 1].is_whitespace()
        invariant
            a <= b <= s@.len(),
            trim_end(rest) == trim_end(s@.subrange(a as int, b as int)),
        decreases b,
    {
        assert(s@.subrange(a as int, b as int).drop_last() =~= s@.subrange(a as int, b - 1));
        b = b - 1;
    }
    assert(rest =~= s@.subrange(a as int, s@.len() as int));
    (a, b)
}

/// Appends the characters of `v` to `out`.
pub fn append_chars(out: &mut Vec<char>, v: &Vec<char>)
    ensures
        final(out)@ == old(out)@ + v@,
{
    let ghost start = out@;
    let mut k: usize = 0;
    while k < v.len()
        invariant
            k <= v@.len(),
            out@ == start + v@.take(k as int),
        decreases v@.len() - k,
    {
        out.push(v[k]);
        assert(v@.take(k as int).push(v@[k as int]) =~= v@.take(k + 1 as int));
        k = k + 1;
    }
    assert(v@.take(v@.len() as int) =~= v@);
}

/// `s` with every occurrence of the non-empty `pat` replaced by `rep`.
pub fn replace_chars(s: &Vec<char>, pat: &Vec<char>, rep: &Vec<char>) -> (r: Vec<char>)
    requires
        pat@.len() > 0,
    ensures
        r@ == replace_all(s@, pat@, rep@),
{
    let mut out: Vec<char> = Vec::new();
    let mut i: usize = 0;
    assert(s@.skip(0) =~= s@);
    assert(out@ + replace_all(s@, pat@, rep@) =~= replace_all(s@, pat@, rep@));
    while i < s.len()
        invariant
            pat@.len() > 0,
            i <= s@.len(),
            replace_all(s@, pat@, rep@) == out@ + replace_all(s@.skip(i as int), pat@, rep@),
        decreases s@.len() - i,
    {
        let ghost tail = s@.skip(i as int);
        let ghost old_out = out@;
        if occurs_at_exec(s, pat, i) {
            assert(tail.subrange(0, pat@.len() as int) =~= s@.subrange(i as int, i + pat@.len()));
            assert(tail.skip(pat@.len() as int) =~= s@.skip(i + pat@.len()));
            append_chars(&mut out, rep);
            assert(out@ + replace_all(s@.skip(i + pat@.len()), pat@, rep@) =~= old_out + (rep@ + replace_all(tail.skip(pat@.len() as int), pat@, rep@)));
            i = i + pat.len();
        } else {
            proof {
                if tail.len() >= pat@.len() {
                    assert(tail.subrange(0, pat@.len() as int) =~= s@.subrange(
                        i as int,
                        i + pat@.len(),
                    ));
                } else {
                    assert(tail =~= seq![tail[0]] + tail.drop_first());
                }
                assert(tail.drop_first() =~= s@.skip(i + 1 as int));
            }
            out.push(s[i]);
            assert(out@ + replace_all(s@.skip(i + 1 as int), pat@, rep@) =~= old_out + (seq![tail[0]] + replace_all(tail.drop_first(), pat@, rep@)));
            i = i + 1;
        }
    }
    out
}

/// The lines of `s`, split at line feeds: the lines completed so far and
/// the line still open at the end. A carriage return before a line feed
/// stays in its line, where trimming removes it.
pub open spec fn line_split(s: Seq<char>) -> (Seq<Seq<char>>, Seq<char>)
    decreases s.len(),
{
    if s.len() == 0 {
        (seq![], seq![])
    } else {
        let (d, c) = line_split(s.drop_last());
        if s.last() == '\n' {
            (d.push(c), seq![])
        } else {
            (d, c.push(s.last()))
        }
    }
}

/// All lines of `s`. A final line feed leaves an empty last line.
pub open spec fn lines(s: Seq<char>) -> Seq<Seq<char>> {
    let (d, c) = line_split(s);
    d.push(c)
}

/// The non-empty pieces of `s` between separators, as far as completed,
/// and the piece still open at the end.
pub open spec fn field_split(s: Seq<char>, sep: char) -> (Seq<Seq<char>>, Seq<char>)
    decreases s.len(),
{
    if s.len() == 0 {
        (seq![], seq![])
    } else {
        let (d, c) = field_split(s.drop_last(), sep);
        if s.last() == sep {
            (if c.len() > 0 { d.push(c) } else { d }, seq![])
        } else {
            (d, c.push(s.last()))
        }
    }
}

/// The non-empty pieces of `s` between separators `sep`, in order.
pub open spec fn fields(s: Seq<char>, sep: char) -> Seq<Seq<char>> {
    let (d, c) = field_split(s, sep);
    if c.len() > 0 {
        d.push(c)
    } else {
        d
    }
}

/// A line that starts at `start` and runs without a line feed to `e`
/// extends the open line of `line_split`.
pub proof fn lemma_line_split_extend(s: Seq<char>, start: int, e: int)
    requires
        0 <= start <= e <= s.len(),
        line_split(s.take(start)).1 == Seq::<char>::empty(),
        forall|k: int| start <= k < e ==> s[k] != '\n',
    ensures
        line_split(s.take(e)) == (line_split(s.take(start)).0, s.subrange(start, e)),
    decreases e - start,
{
    if e == start {
        assert(s.subrange(start, e) =~= Seq::<char>::empty());
    } else {
        lemma_line_split_extend(s, start, e - 1);
        assert(s.take(e).drop_last() =~= s.take(e - 1));
        assert(s.subrange(start, e - 1).push(s[e - 1]) =~= s.subrange(start, e));
    }
}

/// The index of the first line feed at or after `start`, or the length.
pub fn line_end(s: &Vec<char>, start: usize) -> (e: usize)
    requires
        start <= s@.len(),
    ensures
        start <= e <= s@.len(),
        e < s@.len() ==> s@[e as int] == '\n',
        forall|k: int| start <= k < e ==> s@[k] != '\n',
{
    let mut e: usize = start;
    while e < s.len() && s[e] != '\n'
        invariant
            start <= e <= s@.len(),
            forall|k: int| start <= k < e ==> s@[k] != '\n',
        decreases s@.len() - e,
    {
        e = e + 1;
    }
    e
}

/// The characters `s[from..to]`.
pub fn sub_chars(s: &Vec<char>, from: usize, to: usize) -> (r: Vec<char>)
    requires
        from <= to <= s@.len(),
    ensures
        r@ == s@.subrange(from as int, to as int),
{
    let mut out: Vec<char> = Vec::new();
    let mut i: usize = from;
    while i < to
        invariant
            from <= i <= to <= s@.len(),
            out@ == s@.subrange(from as int, i as int),
        decreases to - i,
    {
        out.push(s[i]);
        assert(s@.subrange(from as int, i as int).push(s@[i as int]) =~= s@.subrange(
            from as int,
            i + 1,
        ));
        i = i + 1;
    }
    out
}

/// The trimmed characters `s[from..to]`.
pub fn trimmed_line(s: &Vec<char>, from: usize, to: usize) -> (r: Vec<char>)
    requires
        from <= to <= s@.len(),
    ensures
        r@ == trim(s@.subrange(from as int, to as int)),
{
    let line = sub_chars(s, from, to);
    let (a, b) = trim_bounds(&line);
    sub_chars(&line, a, b)
}

/// The non-empty pieces of `s` between separators `sep`, as strings.
pub fn split_fields(s: &Vec<char>, sep: char) -> (r: Vec<String>)
    ensures
        r.deep_view() == fields(s@, sep),
{
    let mut out: Vec<String> = Vec::new();
    let mut cur: Vec<char> = Vec::new();
    let mut i: usize = 0;
    while i < s.len()
        invariant
            i <= s@.len(),
            (out.deep_view(), cur@) == field_split(s@.take(i as int), sep),
        decreases s@.len() - i,
    {
        assert(s@.take(i + 1 as int).drop_last() =~= s@.take(i as int));
        if s[i] == sep {
            if cur.len() > 0 {
                let piece = string_of(&cur);
                out.push(piece);
                assert(out.deep_view() =~= field_split(s@.take(i as int), sep).0.push(cur@));
            }
            cur = Vec::new();
        } else {
            cur.push(s[i]);
        }
        i = i + 1;
    }
    assert(s@.take(s@.len() as int) =~= s@);
    if cur.len() > 0 {
        let piece = string_of(&cur);
        out.push(piece);
        assert(out.deep_view() =~= field_split(s@, sep).0.push(cur@));
    }
    out
}

/// Whether the characters of `line` start with those of `lit`.
pub fn starts_with_lit(line: &Vec<char>, lit: &str) -> (r: bool)
    ensures
        r == starts_with(line@, lit@),
{
    let p = chars_of(lit);
    occurs_at_exec(line, &p, 0)
}

/// Whether the characters of `v` are those of `lit`.
pub fn equals_lit(v: &Vec<char>, lit: &str) -> (r: bool)
    ensures
        r == (v@ == lit@),
{
    let p = chars_of(lit);
    if p.len() != v.len() {
        return false;
    }
    let r = occurs_at_exec(v, &p, 0);
    assert(v@.subrange(0, p@.len() as int) =~= v@);
    r
}

/// What `str::to_lowercase` makes of a string.
pub uninterp spec fn lower_of(s: Seq<char>) -> Seq<char>;

/// Relies on `str::to_lowercase`: the result depends on the characters
/// alone, and the empty string stays empty.
#[verifier::external_body]
pub(crate) fn lowercase(s: &str) -> (r: String)
    ensures
        r@ == lower_of(s@),
        s@.len() == 0 ==> r@.len() == 0,
{
    s.to_lowercase()
}

/// Whether `needle` occurs in `hay`.
pub fn contains_chars(hay: &Vec<char>, needle: &Vec<char>) -> (r: bool)
    ensures
        r == contains(hay@, needle@),
{
    let r = find_chars(hay, needle, 0);
    proof {
        lemma_find_from_contains(hay@, needle@, 0);
    }
    r.is_some()
}

/// `find_from` finds an occurrence exactly when there is one at or after `i`.
pub proof fn lemma_find_from_contains(s: Seq<char>, p: Seq<char>, i: int)
    requires
        0 <= i,
    ensures
        find_from(s, p, i) is Some <==> exists|k: int| i <= k && occurs_at(s, p, k),
        find_from(s, p, i) matches Some(k) ==> i <= k && occurs_at(s, p, k),
    decreases s.len() + 1 - i,
{
    if i + p.len() > s.len() {
    } else if occurs_at(s, p, i) {
    } else {
        lemma_find_from_contains(s, p, i + 1);
        assert forall|k: int| i <= k && occurs_at(s, p, k) implies i + 1 <= k by {
            if k == i {
            }
        }
    }
}

/// Whether `needle` occurs in `hay`.
pub fn contains_text(hay: &str, needle: &str) -> (r: bool)
    ensures
        r == contains(hay@, needle@),
{
    let h = chars_of(hay);
    let n = chars_of(needle);
    contains_chars(&h, &n)
}

/// The characters of a string.
pub fn chars_of(s: &str) -> (r: Vec<char>)
    ensures
        r@ == s@,
{
    let mut it = s.chars();
    let mut out: Vec<char> = Vec::new();
    loop
        invariant
            it.remaining() == s@.skip(out@.len() as int),
            out@ == s@.take(out@.len() as int),
            out@.len() <= s@.len(),
        decreases s@.len() - out@.len(),
    {
        match it.next() {
            Some(c) => {
                proof {
                    assert(s@.take(out@.len() as int).push(c) =~= s@.take(out@.len() + 1 as int));
                }
                out.push(c);
            },
            None => {
                assert(out@ =~= s@);
                return out;
            },
        }
    }
}

/// A string holding the characters `v[from..to]`.
pub fn string_of_range(v: &Vec<char>, from: usize, to: usize) -> (r: String)
    requires
        from <= to <= v@.len(),
    ensures
        r@ == v@.subrange(from as int, to as int),
{
    let mut out = String::new();
    let mut i: usize = from;
    while i < to
        invariant
            from <= i <= to <= v@.len(),
            out@ == v@.subrange(from as int, i as int),
        decreases to - i,
    {
        out.push(v[i]);
        proof {
            assert(v@.subrange(from as int, i as int).push(v@[i as int]) =~= v@.subrange(
                from as int,
                i + 1,
            ));
        }
        i = i + 1;
    }
    out
}

/// A string holding the characters of `v`.
pub fn string_of(v: &Vec<char>) -> (r: String)
    ensures
        r@ == v@,
{
    let r = string_of_range(v, 0, v.len());
    assert(v@.subrange(0, v@.len() as int) =~= v@);
    r
}

} // verus!

//! Character-level text primitives.
//!
//! Every text in this crate is modelled as a `Seq<char>`, the view of a
//! `str` or `String`. This module defines what searching, trimming and
//! splitting mean on such sequences, and provides executable counterparts
//! that work on `Vec<char>` buffers.
use vstd::prelude::*;

verus! {

/// `String::push` appends the given character to the end of the string and
/// changes nothing else.
pub assume_specification[ String::push ](s: &mut String, c: char)
    ensures
        final(s)@ == old(s)@.push(c),
;

/// The characters with the Unicode `White_Space` property.
pub open spec fn is_whitespace(c: char) -> bool {
    let n = c as u32;
    ||| 0x09 <= n <= 0x0D
    ||| n == 0x20
    ||| n == 0x85
    ||| n == 0xA0
    ||| n == 0x1680
    ||| 0x2000 <= n <= 0x200A
    ||| n == 0x2028
    ||| n == 0x2029
    ||| n == 0x202F
    ||| n == 0x205F
    ||| n == 0x3000
}

/// Position of the first occurrence of `c` in `s`, or `s.len()` if there is
/// none.
pub open spec fn first_index(s: Seq<char>, c: char) -> int
    decreases s.len(),
{
    if s.len() == 0 || s[0] == c {
        0
    } else {
        1 + first_index(s.skip(1), c)
    }
}

/// `s` without its leading whitespace.
pub open spec fn trim_start(s: Seq<char>) -> Seq<char>
    decreases s.len(),
{
    if s.len() > 0 && is_whitespace(s[0]) {
        trim_start(s.skip(1))
    } else {
        s
    }
}

/// `s` without its trailing whitespace.
pub open spec fn trim_end(s: Seq<char>) -> Seq<char>
    decreases s.len(),
{
    if s.len() > 0 && is_whitespace(s.last()) {
        trim_end(s.drop_last())
    } else {
        s
    }
}

/// `s` without leading and trailing whitespace.
pub open spec fn trim(s: Seq<char>) -> Seq<char> {
    trim_end(trim_start(s))
}

/// `s` without any trailing run of the character `c`.
pub open spec fn strip_trailing(s: Seq<char>, c: char) -> Seq<char>
    decreases s.len(),
{
    if s.len() > 0 && s.last() == c {
        strip_trailing(s.drop_last(), c)
    } else {
        s
    }
}

/// The pieces of `s` between occurrences of `sep`. There is always at least
/// one piece; `k` separators give `k + 1` pieces, some of which may be empty.
pub open spec fn split(s: Seq<char>, sep: char) -> Seq<Seq<char>>
    decreases s.len(),
{
    let i = first_index(s, sep);
    if 0 <= i < s.len() {
        seq![s.take(i)] + split(s.skip(i + 1), sep)
    } else {
        seq![s]
    }
}

/// `line` without one trailing carriage return.
pub open spec fn strip_carriage_return(line: Seq<char>) -> Seq<char> {
    if line.len() > 0 && line.last() == '\r' {
        line.drop_last()
    } else {
        line
    }
}

/// The first line of a non-empty text: everything before the first line
/// feed, without the carriage return that may precede it. A text without a
/// line feed is a single line, kept as it is.
pub open spec fn first_line(s: Seq<char>) -> Seq<char> {
    let i = first_index(s, '\n');
    if 0 <= i < s.len() {
        strip_carriage_return(s.take(i))
    } else {
        s
    }
}

/// The lines of a text. Lines end at a line feed or at a carriage return
/// followed by a line feed; a last line without terminator counts if it is
/// not empty.
pub open spec fn lines(s: Seq<char>) -> Seq<Seq<char>>
    decreases s.len(),
{
    let i = first_index(s, '\n');
    if s.len() == 0 {
        seq![]
    } else if 0 <= i < s.len() {
        seq![first_line(s)] + lines(s.skip(i + 1))
    } else {
        seq![s]
    }
}

/// The texts `parts`, each followed by `tail`, one after the other.
pub open spec fn concat_each(parts: Seq<Seq<char>>, tail: Seq<char>) -> Seq<char>
    decreases parts.len(),
{
    if parts.len() == 0 {
        seq![]
    } else {
        concat_each(parts.drop_last(), tail) + parts.last() + tail
    }
}

/// Whether `s` holds no line feed.
pub open spec fn single_line(s: Seq<char>) -> bool {
    forall|i: int| 0 <= i < s.len() ==> s[i] != '\n'
}

/// The texts `parts` with `sep` between each two of them.
pub open spec fn join(parts: Seq<Seq<char>>, sep: char) -> Seq<char>
    decreases parts.len(),
{
    if parts.len() == 0 {
        seq![]
    } else if parts.len() == 1 {
        parts[0]
    } else {
        parts[0] + seq![sep] + join(parts.skip(1), sep)
    }
}

/// `first_index` stays within the sequence, nothing before it is `c`, and
/// what stands at it is `c`.
pub proof fn lemma_first_index(s: Seq<char>, c: char)
    ensures
        0 <= first_index(s, c) <= s.len(),
        forall|j: int| 0 <= j < first_index(s, c) ==> s[j] != c,
        first_index(s, c) < s.len() ==> s[first_index(s, c)] == c,
    decreases s.len(),
{
    if s.len() == 0 || s[0] == c {
    } else {
        let rest = s.skip(1);
        lemma_first_index(rest, c);
        assert forall|j: int| 0 <= j < first_index(s, c) implies s[j] != c by {
            if j > 0 {
                assert(rest[j - 1] == s[j]);
            }
        }
        if first_index(s, c) < s.len() {
            assert(rest[first_index(rest, c)] == s[first_index(s, c)]);
        }
    }
}

/// An index before which nothing is `c`, and which holds `c` or is the
/// length, is the `first_index`.
pub proof fn lemma_first_index_is(s: Seq<char>, c: char, k: int)
    requires
        0 <= k <= s.len(),
        forall|j: int| 0 <= j < k ==> s[j] != c,
        k < s.len() ==> s[k] == c,
    ensures
        first_index(s, c) == k,
    decreases s.len(),
{
    if s.len() == 0 || s[0] == c {
    } else {
        let rest = s.skip(1);
        assert forall|j: int| 0 <= j < k - 1 implies rest[j] != c by {
            assert(rest[j] == s[j + 1]);
        }
        lemma_first_index_is(rest, c, k - 1);
    }
}

/// Skipping `a` whitespace characters that are followed by something else,
/// or by nothing, is `trim_start`.
pub proof fn lemma_trim_start_is(s: Seq<char>, a: int)
    requires
        0 <= a <= s.len(),
        forall|j: int| 0 <= j < a ==> is_whitespace(s[j]),
        a < s.len() ==> !is_whitespace(s[a]),
    ensures
        trim_start(s) == s.skip(a),
    decreases s.len(),
{
    if a == 0 {
        assert(s.skip(0) =~= s);
    } else {
        let rest = s.skip(1);
        assert forall|j: int| 0 <= j < a - 1 implies is_whitespace(rest[j]) by {
            assert(rest[j] == s[j + 1]);
        }
        lemma_trim_start_is(rest, a - 1);
        assert(rest.skip(a - 1) =~= s.skip(a));
    }
}

/// Keeping the first `b` characters, where only whitespace follows them and
/// the last of them is none, is `trim_end`.
pub proof fn lemma_trim_end_is(s: Seq<char>, b: int)
    requires
        0 <= b <= s.len(),
        forall|j: int| b <= j < s.len() ==> is_whitespace(s[j]),
        b > 0 ==> !is_whitespace(s[b - 1]),
    ensures
        trim_end(s) == s.take(b),
    decreases s.len(),
{
    if b == s.len() {
        assert(s.take(b) =~= s);
    } else {
        let rest = s.drop_last();
        lemma_trim_end_is(rest, b);
        assert(rest.take(b) =~= s.take(b));
    }
}

/// Keeping the first `b` characters, where only `c` follows them and the
/// last of them is not `c`, is `strip_trailing`.
pub proof fn lemma_strip_trailing_is(s: Seq<char>, c: char, b: int)
    requires
        0 <= b <= s.len(),
        forall|j: int| b <= j < s.len() ==> s[j] == c,
        b > 0 ==> s[b - 1] != c,
    ensures
        strip_trailing(s, c) == s.take(b),
    decreases s.len(),
{
    if b == s.len() {
        assert(s.take(b) =~= s);
    } else {
        let rest = s.drop_last();
        lemma_strip_trailing_is(rest, c, b);
        assert(rest.take(b) =~= s.take(b));
    }
}

/// Texts that are joined by `concat_each` can be taken apart at the front.
pub proof fn lemma_concat_each_front(parts: Seq<Seq<char>>, tail: Seq<char>)
    requires
        parts.len() > 0,
    ensures
        concat_each(parts, tail) == parts[0] + tail + concat_each(parts.skip(1), tail),
    decreases parts.len(),
{
    if parts.len() == 1 {
        assert(parts.drop_last() =~= seq![]);
        assert(parts.skip(1) =~= seq![]);
        assert(concat_each(parts, tail) =~= parts[0] + tail + concat_each(parts.skip(1), tail));
    } else {
        lemma_concat_each_front(parts.drop_last(), tail);
        assert(parts.drop_last().skip(1) =~= parts.skip(1).drop_last());
        assert(parts.skip(1).last() == parts.last());
        assert(concat_each(parts, tail) =~= parts[0] + tail + concat_each(parts.skip(1), tail));
    }
}

/// The first occurrence of `c` in `a + b` is the one in `a` if there is
/// one, and else the one in `b`.
pub proof fn lemma_first_index_concat(a: Seq<char>, b: Seq<char>, c: char)
    ensures
        first_index(a + b, c) == if first_index(a, c) < a.len() {
            first_index(a, c)
        } else {
            a.len() + first_index(b, c)
        },
{
    lemma_first_index(a, c);
    lemma_first_index(b, c);
    let k = if first_index(a, c) < a.len() {
        first_index(a, c)
    } else {
        a.len() + first_index(b, c)
    };
    assert forall|j: int| 0 <= j < k implies (a + b)[j] != c by {
        if j >= a.len() {
            assert((a + b)[j] == b[j - a.len()]);
        }
    }
    lemma_first_index_is(a + b, c, k);
}

/// Splitting undoes joining: texts that do not hold the separator come
/// back as they were.
pub proof fn lemma_split_join(parts: Seq<Seq<char>>, sep: char)
    requires
        parts.len() > 0,
        forall|i: int, j: int|
            0 <= i < parts.len() && 0 <= j < parts[i].len() ==> #[trigger] parts[i][j] != sep,
    ensures
        split(join(parts, sep), sep) == parts,
    decreases parts.len(),
{
    let first = parts[0];
    assert forall|j: int| 0 <= j < first.len() implies first[j] != sep by {
        assert(parts[0][j] != sep);
    }
    if parts.len() == 1 {
        lemma_first_index_is(first, sep, first.len() as int);
        assert(split(first, sep) =~= parts);
    } else {
        let rest = parts.skip(1);
        let tail = seq![sep] + join(rest, sep);
        let whole = join(parts, sep);
        assert(whole =~= first + tail);
        lemma_first_index_is(first, sep, first.len() as int);
        lemma_first_index_is(tail, sep, 0);
        lemma_first_index_concat(first, tail, sep);
        assert(whole.take(first.len() as int) =~= first);
        assert(whole.skip(first.len() as int + 1) =~= join(rest, sep));
        assert forall|i: int, j: int|
            0 <= i < rest.len() && 0 <= j < rest[i].len() implies #[trigger] rest[i][j]
            != sep by {
            assert(parts[i + 1][j] != sep);
        }
        lemma_split_join(rest, sep);
        assert(split(whole, sep) =~= parts);
    }
}

/// A line that is followed by a line feed is the first of the lines of a
/// text, and the lines of what follows the line feed are the others.
pub proof fn lemma_lines_after_line(line: Seq<char>, rest: Seq<char>)
    requires
        single_line(line),
        line.len() > 0 ==> line.last() != '\r',
    ensures
        lines(line + seq!['\n'] + rest) == seq![line] + lines(rest),
{
    let tail = seq!['\n'] + rest;
    let text = line + seq!['\n'] + rest;
    assert(text =~= line + tail);
    lemma_first_index_is(line, '\n', line.len() as int);
    lemma_first_index_is(tail, '\n', 0);
    lemma_first_index_concat(line, tail, '\n');
    assert(text.take(line.len() as int) =~= line);
    assert(text.skip(line.len() as int + 1) =~= rest);
}

/// Whether `c` has the Unicode `White_Space` property.
pub fn is_whitespace_char(c: char) -> (b: bool)
    ensures
        b == is_whitespace(c),
{
    let n: u32 = c as u32;
    (0x09 <= n && n <= 0x0D) || n == 0x20 || n == 0x85 || n == 0xA0 || n == 0x1680 || (0x2000
        <= n && n <= 0x200A) || n == 0x2028 || n == 0x2029 || n == 0x202F || n == 0x205F || n
        == 0x3000
}

/// The characters of `s`, in order.
pub(crate) fn to_chars(s: &str) -> (v: Vec<char>)
    ensures
        v@ == s@,
{
    let mut v: Vec<char> = Vec::new();
    for c in it: s.chars()
        invariant
            v@ == s@.take(it.index() as int),
            it.seq() == s@,
    {
        v.push(c);
    }
    v
}

/// The string made of the characters `v[lo..hi]`.
pub(crate) fn from_chars(v: &Vec<char>, lo: usize, hi: usize) -> (s: String)
    requires
        lo <= hi <= v.len(),
    ensures
        s@ == v@.subrange(lo as int, hi as int),
{
    let mut s = String::new();
    let mut i: usize = lo;
    while i < hi
        invariant
            lo <= i <= hi <= v.len(),
            s@ == v@.subrange(lo as int, i as int),
        decreases hi - i,
    {
        s.push(v[i]);
        i += 1;
    }
    s
}

/// Appends the characters of `s` to `out`.
pub(crate) fn push_str(out: &mut Vec<char>, s: &str)
    ensures
        final(out)@ == old(out)@ + s@,
{
    for c in it: s.chars()
        invariant
            out@ == old(out)@ + s@.take(it.index() as int),
            it.seq() == s@,
    {
        out.push(c);
    }
}

/// Appends the characters `v[lo..hi]` to `out`.
pub(crate) fn push_range(out: &mut Vec<char>, v: &Vec<char>, lo: usize, hi: usize)
    requires
        lo <= hi <= v.len(),
    ensures
        final(out)@ == old(out)@ + v@.subrange(lo as int, hi as int),
{
    let mut i: usize = lo;
    while i < hi
        invariant
            lo <= i <= hi <= v.len(),
            out@ == old(out)@ + v@.subrange(lo as int, i as int),
        decreases hi - i,
    {
        out.push(v[i]);
        i += 1;
    }
}

/// The first position at or after `lo` and before `hi` that holds `c`, or
/// `hi` if there is none.
pub(crate) fn find_char(v: &Vec<char>, lo: usize, hi: usize, c: char) -> (i: usize)
    requires
        lo <= hi <= v.len(),
    ensures
        lo <= i <= hi,
        i == lo + first_index(v@.subrange(lo as int, hi as int), c),
{
    let mut i: usize = lo;
    while i < hi && v[i] != c
        invariant
            lo <= i <= hi <= v.len(),
            forall|j: int| lo <= j < i ==> v@[j] != c,
        decreases hi - i,
    {
        i += 1;
    }
    proof {
        lemma_first_index_is(v@.subrange(lo as int, hi as int), c, i - lo);
    }
    i
}

/// The bounds of `v[lo..hi]` without its leading and trailing whitespace.
pub(crate) fn trim_range(v: &Vec<char>, lo: usize, hi: usize) -> (r: (usize, usize))
    requires
        lo <= hi <= v.len(),
    ensures
        lo <= r.0 <= r.1 <= hi,
        v@.subrange(r.0 as int, r.1 as int) == trim(v@.subrange(lo as int, hi as int)),
{
    let mut a: usize = lo;
    while a < hi && is_whitespace_char(v[a])
        invariant
            lo <= a <= hi <= v.len(),
            forall|j: int| lo <= j < a ==> is_whitespace(v@[j]),
        decreases hi - a,
    {
        a += 1;
    }
    let mut b: usize = hi;
    while a < b && is_whitespace_char(v[b - 1])
        invariant
            a <= b <= hi <= v.len(),
            forall|j: int| b <= j < hi ==> is_whitespace(v@[j]),
        decreases b,
    {
        b -= 1;
    }
    proof {
        let whole = v@.subrange(lo as int, hi as int);
        lemma_trim_start_is(whole, a - lo);
        let tail = whole.skip(a - lo);
        assert(tail =~= v@.subrange(a as int, hi as int));
        lemma_trim_end_is(tail, b - a);
        assert(tail.take(b - a) =~= v@.subrange(a as int, b as int));
    }
    (a, b)
}

/// The end of `v[lo..hi]` without any trailing run of `c`.
pub(crate) fn strip_trailing_range(v: &Vec<char>, lo: usize, hi: usize, c: char) -> (b: usize)
    requires
        lo <= hi <= v.len(),
    ensures
        lo <= b <= hi,
        v@.subrange(lo as int, b as int) == strip_trailing(v@.subrange(lo as int, hi as int), c),
{
    let mut b: usize = hi;
    while lo < b && v[b - 1] == c
        invariant
            lo <= b <= hi <= v.len(),
            forall|j: int| b <= j < hi ==> v@[j] == c,
        decreases b,
    {
        b -= 1;
    }
    proof {
        let whole = v@.subrange(lo as int, hi as int);
        lemma_strip_trailing_is(whole, c, b - lo);
        assert(whole.take(b - lo) =~= v@.subrange(lo as int, b as int));
    }
    b
}

/// Whether `v[lo..hi]` begins with `prefix`.
pub(crate) fn range_starts_with(v: &Vec<char>, lo: usize, hi: usize, prefix: &Vec<char>) -> (b: bool)
    requires
        lo <= hi <= v.len(),
    ensures
        b == prefix@.is_prefix_of(v@.subrange(lo as int, hi as int)),
{
    if prefix.len() > hi - lo {
        return false;
    }
    let mut k: usize = 0;
    while k < prefix.len()
        invariant
            lo <= hi <= v.len(),
            k <= prefix.len() <= hi - lo,
            forall|j: int| 0 <= j < k ==> v@[lo + j] == prefix@[j],
        decreases prefix.len() - k,
    {
        if v[lo + k] != prefix[k] {
            proof {
                let whole = v@.subrange(lo as int, hi as int);
                assert(whole.subrange(0, prefix@.len() as int)[k as int] != prefix@[k as int]);
            }
            return false;
        }
        k += 1;
    }
    true
}

/// Whether `v[lo..hi]` and `other` hold the same characters.
pub(crate) fn range_equals(v: &Vec<char>, lo: usize, hi: usize, other: &Vec<char>) -> (b: bool)
    requires
        lo <= hi <= v.len(),
    ensures
        b == (v@.subrange(lo as int, hi as int) == other@),
{
    if other.len() != hi - lo {
        return false;
    }
    let starts = range_starts_with(v, lo, hi, other);
    proof {
        let whole = v@.subrange(lo as int, hi as int);
        assert(whole.subrange(0, other@.len() as int) =~= whole);
    }
    starts
}

/// The end of the content of the line that begins at `lo` and is cut off by
/// the line feed at `brk`, or by the end of the text when `brk` is its
/// length.
pub(crate) fn line_content_end(v: &Vec<char>, lo: usize, brk: usize) -> (e: usize)
    requires
        lo <= brk <= v.len(),
        brk == lo + first_index(v@.skip(lo as int), '\n'),
        lo < v.len(),
    ensures
        lo <= e <= brk,
        v@.subrange(lo as int, e as int) == first_line(v@.skip(lo as int)),
{
    proof {
        let rest = v@.skip(lo as int);
        assert(rest.take(brk - lo) =~= v@.subrange(lo as int, brk as int));
        assert(lo < brk ==> v@.subrange(lo as int, brk as int).drop_last() =~= v@.subrange(
            lo as int,
            brk as int - 1,
        ));
        assert(brk == v.len() ==> v@.subrange(lo as int, brk as int) =~= rest);
    }
    if brk < v.len() && lo < brk && v[brk - 1] == '\r' {
        brk - 1
    } else {
        brk
    }
}

/// The pieces of `v[lo..hi]` between occurrences of `sep`.
pub(crate) fn split_range(v: &Vec<char>, lo: usize, hi: usize, sep: char) -> (parts: Vec<String>)
    requires
        lo <= hi <= v.len(),
    ensures
        parts.deep_view() == split(v@.subrange(lo as int, hi as int), sep),
{
    let mut parts: Vec<String> = Vec::new();
    let mut pos: usize = lo;
    loop
        invariant
            lo <= pos <= hi <= v.len(),
            split(v@.subrange(lo as int, hi as int), sep) == parts.deep_view() + split(
                v@.subrange(pos as int, hi as int),
                sep,
            ),
        decreases hi - pos,
    {
        let i = find_char(v, pos, hi, sep);
        let ghost rest = v@.subrange(pos as int, hi as int);
        let ghost before = parts.deep_view();
        if i < hi {
            parts.push(from_chars(v, pos, i));
            proof {
                assert(rest.take(i - pos) =~= v@.subrange(pos as int, i as int));
                assert(rest.skip(i - pos + 1) =~= v@.subrange(i + 1, hi as int));
                assert(parts.deep_view() =~= before + seq![rest.take(i - pos)]);
            }
            pos = i + 1;
        } else {
            parts.push(from_chars(v, pos, hi));
            proof {
                assert(parts.deep_view() =~= before + seq![rest]);
            }
            return parts;
        }
    }
}

/// The lines of the text `v`.
pub(crate) fn split_lines(v: &Vec<char>) -> (found: Vec<String>)
    ensures
        found.deep_view() == lines(v@),
{
    let mut found: Vec<String> = Vec::new();
    let n = v.len();
    let mut pos: usize = 0;
    assert(v@.skip(0) =~= v@);
    while pos < n
        invariant
            pos <= n == v.len(),
            lines(v@) == found.deep_view() + lines(v@.skip(pos as int)),
        decreases n - pos,
    {
        let brk = find_char(v, pos, n, '\n');
        let end = line_content_end(v, pos, brk);
        let ghost rest = v@.skip(pos as int);
        let ghost before = found.deep_view();
        found.push(from_chars(v, pos, end));
        proof {
            assert(found.deep_view() =~= before + seq![first_line(rest)]);
            if brk < n {
                assert(rest.skip(brk - pos + 1) =~= v@.skip(brk + 1));
            } else {
                assert(lines(rest) =~= seq![rest]);
                assert(lines(v@.skip(n as int)) =~= seq![]);
            }
        }
        pos = if brk < n { brk + 1 } else { n };
    }
    found
}

/// `head` followed by `tail`.
pub(crate) fn joined(head: &str, tail: &str) -> (text: String)
    ensures
        text@ == head@ + tail@,
{
    let mut out: Vec<char> = Vec::new();
    push_str(&mut out, head);
    push_str(&mut out, tail);
    from_chars(&out, 0, out.len())
}

/// `text` between `before` and `after`.
pub(crate) fn framed(before: &str, text: &str, after: &str) -> (whole: String)
    ensures
        whole@ == before@ + text@ + after@,
{
    let mut out: Vec<char> = Vec::new();
    push_str(&mut out, before);
    push_str(&mut out, text);
    push_str(&mut out, after);
    from_chars(&out, 0, out.len())
}

} // verus!

//! Text primitives over `Seq<char>` models: the splitting, prefix, suffix,
//! trimming and byte-offset rules that the command outputs are read with.
//! Each exec function works on a `Vec<char>` copy of a text and on spans
//! `(start, end)` of char indices into it.
use vstd::prelude::*;

verus! {

/// The chars of `t` between char indices `lo` and `hi`.
pub open spec fn span_text(t: Seq<char>, lo: int, hi: int) -> Seq<char> {
    t.subrange(lo, hi)
}

/// Pieces of `s` between the occurrences of `sep`, as `str::split` with a
/// char pattern yields them: always at least one piece.
pub open spec fn split_char(s: Seq<char>, sep: char) -> Seq<Seq<char>>
    decreases s.len(),
{
    if s.len() == 0 {
        seq![Seq::<char>::empty()]
    } else {
        let rest = split_char(s.drop_last(), sep);
        if s.last() == sep {
            rest.push(Seq::<char>::empty())
        } else {
            rest.update(rest.len() - 1, rest.last().push(s.last()))
        }
    }
}

pub proof fn lemma_split_char_nonempty(s: Seq<char>, sep: char)
    ensures
        split_char(s, sep).len() >= 1,
    decreases s.len(),
{
    if s.len() > 0 {
        lemma_split_char_nonempty(s.drop_last(), sep);
    }
}

/// A line with the carriage return of a `\r\n` ending removed.
pub open spec fn strip_cr(l: Seq<char>) -> Seq<char> {
    if l.len() > 0 && l.last() == '\r' {
        l.drop_last()
    } else {
        l
    }
}

/// The lines of `s` as `str::lines` yields them: split at `\n`, a `\r`
/// just before a `\n` dropped, and no empty line after a final `\n`.
pub open spec fn lines(s: Seq<char>) -> Seq<Seq<char>> {
    let ps = split_char(s, '\n');
    let ended = Seq::new((ps.len() - 1) as nat, |i: int| strip_cr(ps[i]));
    if ps.last().len() == 0 {
        ended
    } else {
        ended.push(ps.last())
    }
}

/// `s` begins with `p`.
pub open spec fn has_prefix(s: Seq<char>, p: Seq<char>) -> bool {
    p.len() <= s.len() && s.subrange(0, p.len() as int) == p
}

/// `s` ends with `p`.
pub open spec fn has_suffix(s: Seq<char>, p: Seq<char>) -> bool {
    p.len() <= s.len() && s.subrange(s.len() - p.len(), s.len() as int) == p
}

/// The chars with the Unicode `White_Space` property, which `char::is_whitespace`
/// and `str::trim` go by.
pub open spec fn is_space(c: char) -> bool {
    let v = c as u32;
    v == 0x20 || (0x09 <= v && v <= 0x0d) || v == 0x85 || v == 0xa0 || v == 0x1680 || (0x2000 <= v
        && v <= 0x200a) || v == 0x2028 || v == 0x2029 || v == 0x202f || v == 0x205f || v == 0x3000
}

pub open spec fn trim_start(s: Seq<char>) -> Seq<char>
    decreases s.len(),
{
    if s.len() > 0 && is_space(s[0]) {
        trim_start(s.drop_first())
    } else {
        s
    }
}

pub open spec fn trim_end(s: Seq<char>) -> Seq<char>
    decreases s.len(),
{
    if s.len() > 0 && is_space(s.last()) {
        trim_end(s.drop_last())
    } else {
        s
    }
}

/// `str::trim`: white space removed at both ends.
pub open spec fn trim(s: Seq<char>) -> Seq<char> {
    trim_end(trim_start(s))
}

/// The number of bytes that UTF-8 takes for `c` (`char::len_utf8`).
pub open spec fn utf8_width(c: char) -> int {
    let v = c as u32;
    if v < 0x80 {
        1
    } else if v < 0x800 {
        2
    } else if v < 0x10000 {
        3
    } else {
        4
    }
}

/// The chars of `s` after its first `n` bytes of UTF-8, or `None` where
/// `s` is shorter than that or byte `n` falls inside a char: the cases in
/// which slicing a `str` with `[n..]` panics.
pub open spec fn skip_bytes(s: Seq<char>, n: int) -> Option<Seq<char>>
    decreases s.len(),
{
    if n == 0 {
        Some(s)
    } else if n < 0 || s.len() == 0 {
        None
    } else {
        skip_bytes(s.drop_first(), n - utf8_width(s[0]))
    }
}

/// `c` is a char whose lowercase (`char::to_lowercase`) is the single ASCII
/// char `t`, for `t` a lowercase letter or a char that has no case: `t`
/// itself, its uppercase ASCII letter, and for `k` also the KELVIN SIGN.
/// (The only char whose lowercase has more than one char, U+0130, lowers
/// to `i` followed by U+0307, which no ASCII text holds.)
pub open spec fn lowers_to(c: char, t: char) -> bool {
    c == t || (('A' as u32) <= (c as u32) <= ('Z' as u32) && (c as u32) + 32 == (t as u32)) || (
    c == '\u{212A}' && t == 'k')
}

/// The lowercase of `s` begins with the ASCII lowercase text `p`.
pub open spec fn lower_has_prefix(s: Seq<char>, p: Seq<char>) -> bool {
    p.len() <= s.len() && forall|i: int| 0 <= i < p.len() ==> lowers_to(#[trigger] s[i], p[i])
}

/// The lowercase of `s` is the ASCII lowercase text `p`.
pub open spec fn lower_equals(s: Seq<char>, p: Seq<char>) -> bool {
    s.len() == p.len() && lower_has_prefix(s, p)
}

/// `str::trim_end_matches` with a text pattern: `p` removed from the end
/// of `s` as long as `s` ends with it.
pub open spec fn strip_suffixes(s: Seq<char>, p: Seq<char>) -> Seq<char>
    decreases s.len(),
{
    if p.len() > 0 && has_suffix(s, p) {
        strip_suffixes(s.subrange(0, s.len() - p.len()), p)
    } else {
        s
    }
}

/// The last of `ls` that begins with `key`.
pub open spec fn last_with_prefix(ls: Seq<Seq<char>>, key: Seq<char>) -> Option<Seq<char>>
    decreases ls.len(),
{
    if ls.len() == 0 {
        None
    } else if has_prefix(ls.last(), key) {
        Some(ls.last())
    } else {
        last_with_prefix(ls.drop_last(), key)
    }
}

/// The last of `ls` whose lowercase begins with `key`.
pub open spec fn last_with_lower_prefix(ls: Seq<Seq<char>>, key: Seq<char>) -> Option<Seq<char>>
    decreases ls.len(),
{
    if ls.len() == 0 {
        None
    } else if lower_has_prefix(ls.last(), key) {
        Some(ls.last())
    } else {
        last_with_lower_prefix(ls.drop_last(), key)
    }
}

/// The views of a sequence of strings.
pub open spec fn views(v: Seq<String>) -> Seq<Seq<char>> {
    v.map_values(|s: String| s@)
}

/// A span lies inside a text of length `n`.
pub open spec fn span_ok(sp: (usize, usize), n: int) -> bool {
    sp.0 <= sp.1 <= n
}

/// Splitting at a separator that stands between two texts splits each.
pub proof fn lemma_split_char_concat(x: Seq<char>, y: Seq<char>, sep: char)
    ensures
        split_char(x + seq![sep] + y, sep) == split_char(x, sep) + split_char(y, sep),
    decreases y.len(),
{
    lemma_split_char_nonempty(x, sep);
    lemma_split_char_nonempty(y, sep);
    let z = x + seq![sep] + y;
    if y.len() == 0 {
        assert(z.drop_last() =~= x);
        assert(split_char(z, sep) =~= split_char(x, sep) + split_char(y, sep));
    } else {
        let y0 = y.drop_last();
        assert(z.drop_last() =~= x + seq![sep] + y0);
        lemma_split_char_concat(x, y0, sep);
        lemma_split_char_nonempty(y0, sep);
        let a = split_char(x, sep);
        let b0 = split_char(y0, sep);
        if y.last() == sep {
            assert(split_char(z, sep) =~= a + split_char(y, sep));
        } else {
            assert((a + b0).update((a + b0).len() - 1, (a + b0).last().push(y.last())) =~= a
                + b0.update(b0.len() - 1, b0.last().push(y.last())));
            assert(split_char(z, sep) =~= a + split_char(y, sep));
        }
    }
}

/// A text without the separator is one piece.
pub proof fn lemma_split_char_none(x: Seq<char>, sep: char)
    requires
        !x.contains(sep),
    ensures
        split_char(x, sep) == seq![x],
    decreases x.len(),
{
    if x.len() > 0 {
        let x0 = x.drop_last();
        assert(!x0.contains(sep)) by {
            if x0.contains(sep) {
                let i = choose|i: int| 0 <= i < x0.len() && x0[i] == sep;
                assert(x[i] == sep);
            }
        }
        lemma_split_char_none(x0, sep);
        assert(x.last() != sep) by {
            assert(x[x.len() - 1] == x.last());
        }
        assert(x0.push(x.last()) =~= x);
        assert(split_char(x, sep) =~= seq![x]);
    } else {
        assert(x =~= Seq::<char>::empty());
        assert(split_char(x, sep) =~= seq![x]);
    }
}

/// The lines of a text whose lines each end with a newline and hold no
/// carriage return at their end.
pub proof fn lemma_lines_of_terminated(ls: Seq<Seq<char>>, text: Seq<char>)
    requires
        forall|i: int|
            0 <= i < ls.len() ==> !(#[trigger] ls[i]).contains('\n') && !(ls[i].len() > 0
                && ls[i].last() == '\r'),
        text == joined_lines(ls),
    ensures
        lines(text) == ls,
{
    lemma_split_terminated(ls);
    lemma_split_char_nonempty(text, '\n');
    let ps = split_char(text, '\n');
    assert(ps =~= ls.push(Seq::<char>::empty()));
    let ended = Seq::new((ps.len() - 1) as nat, |i: int| strip_cr(ps[i]));
    assert(ended =~= ls);
}

/// Each of `ls` followed by a newline.
pub open spec fn joined_lines(ls: Seq<Seq<char>>) -> Seq<char>
    decreases ls.len(),
{
    if ls.len() == 0 {
        Seq::<char>::empty()
    } else {
        joined_lines(ls.drop_last()) + ls.last() + seq!['\n']
    }
}

proof fn lemma_split_terminated(ls: Seq<Seq<char>>)
    requires
        forall|i: int| 0 <= i < ls.len() ==> !(#[trigger] ls[i]).contains('\n'),
    ensures
        split_char(joined_lines(ls), '\n') == ls.push(Seq::<char>::empty()),
    decreases ls.len(),
{
    if ls.len() == 0 {
        assert(split_char(Seq::<char>::empty(), '\n') =~= seq![Seq::<char>::empty()]);
    } else {
        let l0 = ls.drop_last();
        assert forall|i: int| 0 <= i < l0.len() implies !(#[trigger] l0[i]).contains('\n') by {
            assert(l0[i] == ls[i]);
        }
        lemma_split_terminated(l0);
        let j = joined_lines(l0);
        let last = ls.last();
        assert(!last.contains('\n')) by {
            assert(ls[ls.len() - 1] == last);
        }
        // joined_lines(ls) == (j + last) + "\n"; split the prefix at its last newline
        lemma_split_char_none(last, '\n');
        lemma_split_char_nonempty(j, '\n');
        if j.len() == 0 {
            assert(j + last =~= last);
            assert(joined_lines(ls) =~= last + seq!['\n']);
            assert((last + seq!['\n']).drop_last() =~= last);
            assert(split_char(joined_lines(ls), '\n') =~= ls.push(Seq::<char>::empty()));
        } else {
            // j ends with a newline: j == j0 + "\n"
            let j0 = j.drop_last();
            assert(j.last() == '\n') by {
                assert(j == joined_lines(l0.drop_last()) + l0.last() + seq!['\n']);
            }
            assert(j =~= j0 + seq!['\n']);
            assert(j0 + seq!['\n'] + last =~= j + last);
            lemma_split_char_concat(j0, last, '\n');
            lemma_split_char_concat(j0, Seq::<char>::empty(), '\n');
            assert(j0 + seq!['\n'] + Seq::<char>::empty() =~= j);
            assert(split_char(Seq::<char>::empty(), '\n') =~= seq![Seq::<char>::empty()]);
            let z = j + last + seq!['\n'];
            assert(z =~= joined_lines(ls));
            assert(z.drop_last() =~= j + last);
            let a = split_char(j0, '\n');
            assert(split_char(j + last, '\n') =~= a + seq![last]);
            assert(split_char(j, '\n') =~= a + seq![Seq::<char>::empty()]);
            assert(a + seq![Seq::<char>::empty()] =~= l0.push(Seq::<char>::empty()));
            assert(a =~= l0) by {
                assert(a.len() == l0.len());
                assert forall|i: int| 0 <= i < a.len() implies a[i] == l0[i] by {
                    assert((a + seq![Seq::<char>::empty()])[i] == a[i]);
                    assert(l0.push(Seq::<char>::empty())[i] == l0[i]);
                }
            }
            assert(split_char(z, '\n') =~= ls.push(Seq::<char>::empty()));
        }
    }
}

/// After `strip_suffixes`, the text no longer ends with the pattern.
pub proof fn lemma_strip_suffixes_done(s: Seq<char>, p: Seq<char>)
    requires
        p.len() > 0,
    ensures
        !has_suffix(strip_suffixes(s, p), p),
    decreases s.len(),
{
    if has_suffix(s, p) {
        lemma_strip_suffixes_done(s.subrange(0, s.len() - p.len()), p);
    }
}

/// Where the first `n` chars of `s` are ASCII, its first `n` bytes are
/// those chars.
pub proof fn lemma_ascii_prefix_bytes(s: Seq<char>, n: int)
    requires
        0 <= n <= s.len(),
        forall|i: int| 0 <= i < n ==> (#[trigger] s[i] as u32) < 0x80,
    ensures
        skip_bytes(s, n) == Some(s.subrange(n, s.len() as int)),
    decreases n,
{
    if n == 0 {
        assert(s.subrange(0, s.len() as int) =~= s);
    } else {
        assert(utf8_width(s[0]) == 1);
        let s1 = s.drop_first();
        assert forall|i: int| 0 <= i < n - 1 implies (#[trigger] s1[i] as u32) < 0x80 by {
            assert(s1[i] == s[i + 1]);
        }
        lemma_ascii_prefix_bytes(s1, n - 1);
        assert(s1.subrange(n - 1, s1.len() as int) =~= s.subrange(n, s.len() as int));
    }
}

/// The lines of `ls` that `keep` holds of, in order.
pub open spec fn keep_lines(ls: Seq<Seq<char>>, keep: spec_fn(Seq<char>) -> bool) -> Seq<Seq<char>>
    decreases ls.len(),
{
    if ls.len() == 0 {
        Seq::<Seq<char>>::empty()
    } else {
        let rest = keep_lines(ls.drop_last(), keep);
        if keep(ls.last()) {
            rest.push(ls.last())
        } else {
            rest
        }
    }
}

/// Dropping lines that do not begin with `key` leaves the last one that does.
pub proof fn lemma_keep_last_with_prefix(
    ls: Seq<Seq<char>>,
    keep: spec_fn(Seq<char>) -> bool,
    key: Seq<char>,
)
    requires
        forall|l: Seq<char>| has_prefix(l, key) ==> #[trigger] keep(l),
    ensures
        last_with_prefix(keep_lines(ls, keep), key) == last_with_prefix(ls, key),
    decreases ls.len(),
{
    if ls.len() > 0 {
        lemma_keep_last_with_prefix(ls.drop_last(), keep, key);
        let rest = keep_lines(ls.drop_last(), keep);
        if keep(ls.last()) {
            assert(rest.push(ls.last()).drop_last() =~= rest);
        }
    }
}

/// Dropping lines whose lowercase does not begin with `key` leaves the last
/// one whose lowercase does.
pub proof fn lemma_keep_last_with_lower_prefix(
    ls: Seq<Seq<char>>,
    keep: spec_fn(Seq<char>) -> bool,
    key: Seq<char>,
)
    requires
        forall|l: Seq<char>| lower_has_prefix(l, key) ==> #[trigger] keep(l),
    ensures
        last_with_lower_prefix(keep_lines(ls, keep), key) == last_with_lower_prefix(ls, key),
    decreases ls.len(),
{
    if ls.len() > 0 {
        lemma_keep_last_with_lower_prefix(ls.drop_last(), keep, key);
        let rest = keep_lines(ls.drop_last(), keep);
        if keep(ls.last()) {
            assert(rest.push(ls.last()).drop_last() =~= rest);
        }
    }
}

/// The lines kept of `ls` are lines of `ls`, and every line of `ls` that
/// `keep` holds of is kept.
pub proof fn lemma_keep_lines_members(ls: Seq<Seq<char>>, keep: spec_fn(Seq<char>) -> bool)
    ensures
        forall|i: int|
            0 <= i < keep_lines(ls, keep).len() ==> ls.contains(#[trigger] keep_lines(ls, keep)[i])
                && keep(keep_lines(ls, keep)[i]),
        forall|i: int| 0 <= i < ls.len() && keep(#[trigger] ls[i]) ==> keep_lines(ls, keep).contains(ls[i]),
    decreases ls.len(),
{
    if ls.len() > 0 {
        let l0 = ls.drop_last();
        lemma_keep_lines_members(l0, keep);
        let r0 = keep_lines(l0, keep);
        let r = keep_lines(ls, keep);
        assert forall|i: int| 0 <= i < r.len() implies ls.contains(#[trigger] r[i]) && keep(r[i]) by {
            if i < r0.len() {
                assert(r[i] == r0[i]);
                let j = choose|j: int| 0 <= j < l0.len() && l0[j] == r0[i];
                assert(ls[j] == l0[j]);
            } else {
                assert(ls[ls.len() - 1] == ls.last());
            }
        }
        assert forall|i: int| 0 <= i < ls.len() && keep(#[trigger] ls[i]) implies r.contains(ls[i]) by {
            if i < l0.len() {
                assert(l0[i] == ls[i]);
                let j = choose|j: int| 0 <= j < r0.len() && r0[j] == l0[i];
                assert(r[j] == r0[j]);
            } else {
                assert(ls[i] == ls.last());
                assert(r[r.len() - 1] == ls.last());
            }
        }
    }
}

/// The lines of a text, a newline and a second text: the pieces of the
/// first text (each with a `\r` before its newline dropped), then the
/// lines of the second.
pub proof fn lemma_lines_concat(a: Seq<char>, b: Seq<char>)
    ensures
        lines(a + seq!['\n'] + b) == Seq::new(
            split_char(a, '\n').len(),
            |i: int| strip_cr(split_char(a, '\n')[i]),
        ) + lines(b),
{
    lemma_split_char_concat(a, b, '\n');
    lemma_split_char_nonempty(a, '\n');
    lemma_split_char_nonempty(b, '\n');
    let pa = split_char(a, '\n');
    let pb = split_char(b, '\n');
    let ps = pa + pb;
    let e1 = Seq::new(pa.len(), |i: int| strip_cr(pa[i]));
    let eb = Seq::new((pb.len() - 1) as nat, |i: int| strip_cr(pb[i]));
    let ez = Seq::new((ps.len() - 1) as nat, |i: int| strip_cr(ps[i]));
    assert(ez =~= e1 + eb);
    assert(ps.last() == pb.last());
    if pb.last().len() == 0 {
        assert(lines(a + seq!['\n'] + b) =~= e1 + lines(b));
    } else {
        assert(lines(a + seq!['\n'] + b) =~= e1 + lines(b));
    }
}

/// The last piece of a text split at `sep` ends as the text does, unless the
/// text ends with `sep` (then the last piece is empty).
pub proof fn lemma_split_char_last(a: Seq<char>, sep: char)
    ensures
        split_char(a, sep).len() >= 1,
        split_char(a, sep).last().len() > 0 ==> a.len() > 0 && split_char(a, sep).last().last()
            == a.last(),
{
    lemma_split_char_nonempty(a, sep);
    if a.len() > 0 {
        lemma_split_char_nonempty(a.drop_last(), sep);
    }
}

/// The lines of a text with one more line after a newline: the lines of the
/// text (with an empty line where the text ended with a newline or was
/// empty), then the new line.
pub proof fn lemma_append_line(t: Seq<char>, l: Seq<char>)
    requires
        !(t.len() > 0 && t.last() == '\r'),
        !l.contains('\n'),
        l.len() > 0,
    ensures
        lines(t + seq!['\n'] + l).len() >= 1,
        lines(t + seq!['\n'] + l).last() == l,
        lines(t + seq!['\n'] + l).drop_last() == lines(t) || lines(t + seq!['\n'] + l).drop_last()
            == lines(t).push(Seq::<char>::empty()),
{
    lemma_lines_concat(t, l);
    lemma_split_char_last(t, '\n');
    lemma_split_char_none(l, '\n');
    let pt = split_char(t, '\n');
    let e1 = Seq::new(pt.len(), |i: int| strip_cr(pt[i]));
    let et = Seq::new((pt.len() - 1) as nat, |i: int| strip_cr(pt[i]));
    assert(Seq::new((seq![l].len() - 1) as nat, |i: int| strip_cr(seq![l][i])) =~= Seq::<
        Seq<char>,
    >::empty());
    assert(lines(l) =~= seq![l]);
    let z = lines(t + seq!['\n'] + l);
    assert(z =~= e1 + seq![l]);
    assert(z.drop_last() =~= e1);
    assert(strip_cr(pt.last()) == pt.last());
    assert(e1 =~= et.push(pt.last()));
    if pt.last().len() == 0 {
        assert(lines(t) == et);
        assert(pt.last() =~= Seq::<char>::empty());
    } else {
        assert(lines(t) == e1);
    }
}

/// The chars of `s`, one by one.
pub fn chars_of(s: &str) -> (v: Vec<char>)
    ensures
        v@ == s@,
{
    let mut v: Vec<char> = Vec::new();
    for c in it: s.chars()
        invariant
            v@ == it.seq().take(it.index() as int),
    {
        v.push(c);
    }
    v
}

/// A new `String` that holds the chars of `s` between `lo` and `hi`.
pub fn substring(s: &str, lo: usize, hi: usize) -> (r: String)
    requires
        lo <= hi <= s@.len(),
    ensures
        r@ == s@.subrange(lo as int, hi as int),
{
    String::from_str(s.substring_char(lo, hi))
}

/// A new `String` with the text of `s`.
pub fn owned(s: &str) -> (r: String)
    ensures
        r@ == s@,
{
    String::from_str(s)
}

/// The two texts hold the same chars.
pub fn same_text(a: &str, b: &str) -> (r: bool)
    ensures
        r == (a@ == b@),
{
    let x = chars_of(a);
    let y = chars_of(b);
    if x.len() != y.len() {
        return false;
    }
    let mut i: usize = 0;
    while i < x.len()
        invariant
            x@ == a@,
            y@ == b@,
            x.len() == y.len(),
            i <= x.len(),
            forall|j: int| 0 <= j < i ==> x@[j] == y@[j],
        decreases x.len() - i,
    {
        if x[i] != y[i] {
            return false;
        }
        i += 1;
    }
    assert(x@ =~= y@);
    true
}

/// The spans of the pieces of `text[lo..hi]` between occurrences of `sep`.
#[verifier::rlimit(40)]
pub fn split_spans(text: &Vec<char>, lo: usize, hi: usize, sep: char) -> (spans: Vec<(usize, usize)>)
    requires
        lo <= hi <= text.len(),
    ensures
        spans.len() == split_char(text@.subrange(lo as int, hi as int), sep).len(),
        forall|k: int|
            0 <= k < spans.len() ==> lo <= (#[trigger] spans[k]).0 <= spans[k].1 <= hi
                && span_text(text@, spans[k].0 as int, spans[k].1 as int) == split_char(
                text@.subrange(lo as int, hi as int),
                sep,
            )[k],
        forall|k: int|
            0 <= k < spans.len() - 1 ==> (#[trigger] spans[k]).1 < hi && text@[spans[k].1 as int]
                == sep && spans[k + 1].0 == spans[k].1 + 1,
        spans[0].0 == lo,
{
    let mut spans: Vec<(usize, usize)> = Vec::new();
    let mut start = lo;
    let mut i = lo;
    assert(text@.subrange(lo as int, lo as int) =~= Seq::<char>::empty());
    while i < hi
        invariant
            lo <= start <= i <= hi <= text.len(),
            split_char(text@.subrange(lo as int, i as int), sep).len() == spans.len() + 1,
            forall|k: int|
                0 <= k < spans.len() ==> lo <= (#[trigger] spans[k]).0 <= spans[k].1 <= i
                    && span_text(text@, spans[k].0 as int, spans[k].1 as int) == split_char(
                    text@.subrange(lo as int, i as int),
                    sep,
                )[k],
            split_char(text@.subrange(lo as int, i as int), sep).last() == text@.subrange(
                start as int,
                i as int,
            ),
            forall|k: int|
                0 <= k < spans.len() ==> (#[trigger] spans[k]).1 < i && text@[spans[k].1 as int]
                    == sep && (if k + 1 < spans.len() {
                    spans[k + 1].0 == spans[k].1 + 1
                } else {
                    start == spans[k].1 + 1
                }),
            spans.len() > 0 ==> spans[0].0 == lo,
            spans.len() == 0 ==> start == lo,
        decreases hi - i,
    {
        let ghost before = text@.subrange(lo as int, i as int);
        let ghost after = text@.subrange(lo as int, i + 1);
        proof {
            assert(after.drop_last() =~= before);
            assert(after.last() == text@[i as int]);
            lemma_split_char_nonempty(before, sep);
        }
        if text[i] == sep {
            spans.push((start, i));
            start = i + 1;
            proof {
                assert(text@.subrange(start as int, i + 1) =~= Seq::<char>::empty());
            }
        } else {
            proof {
                assert(text@.subrange(start as int, i as int).push(text@[i as int]) =~= text@.subrange(
                    start as int,
                    i + 1,
                ));
            }
        }
        i += 1;
    }
    spans.push((start, hi));
    spans
}

/// The two spans of `text` hold the same chars.
pub fn spans_equal(text: &Vec<char>, a: (usize, usize), b: (usize, usize)) -> (r: bool)
    requires
        span_ok(a, text@.len() as int),
        span_ok(b, text@.len() as int),
    ensures
        r == (span_text(text@, a.0 as int, a.1 as int) == span_text(text@, b.0 as int, b.1 as int)),
{
    let ghost x = span_text(text@, a.0 as int, a.1 as int);
    let ghost y = span_text(text@, b.0 as int, b.1 as int);
    if a.1 - a.0 != b.1 - b.0 {
        assert(x.len() != y.len());
        return false;
    }
    let mut i: usize = 0;
    while i < a.1 - a.0
        invariant
            span_ok(a, text@.len() as int),
            span_ok(b, text@.len() as int),
            a.1 - a.0 == b.1 - b.0,
            x == span_text(text@, a.0 as int, a.1 as int),
            y == span_text(text@, b.0 as int, b.1 as int),
            i <= a.1 - a.0,
            forall|j: int| 0 <= j < i ==> x[j] == y[j],
        decreases a.1 - a.0 - i,
    {
        if text[a.0 + i] != text[b.0 + i] {
            assert(x[i as int] != y[i as int]);
            return false;
        }
        i += 1;
    }
    assert(x =~= y);
    true
}

/// The spans of the lines of `text`.
pub fn line_spans(text: &Vec<char>) -> (spans: Vec<(usize, usize)>)
    ensures
        spans.len() == lines(text@).len(),
        forall|k: int|
            0 <= k < spans.len() ==> span_ok(#[trigger] spans[k], text@.len() as int) && span_text(
                text@,
                spans[k].0 as int,
                spans[k].1 as int,
            ) == lines(text@)[k],
{
    let pieces = split_spans(text, 0, text.len(), '\n');
    let ghost ps = split_char(text@, '\n');
    proof {
        assert(text@.subrange(0, text@.len() as int) =~= text@);
        lemma_split_char_nonempty(text@, '\n');
    }
    let ghost ended = Seq::new((ps.len() - 1) as nat, |i: int| strip_cr(ps[i]));
    let n = pieces.len();
    let mut spans: Vec<(usize, usize)> = Vec::new();
    let mut k: usize = 0;
    while k + 1 < n
        invariant
            n == pieces.len(),
            n == ps.len(),
            n >= 1,
            k + 1 <= n,
            spans.len() == k,
            ended == Seq::new((ps.len() - 1) as nat, |i: int| strip_cr(ps[i])),
            forall|j: int|
                0 <= j < pieces.len() ==> 0 <= (#[trigger] pieces[j]).0 <= pieces[j].1
                    <= text.len() && span_text(text@, pieces[j].0 as int, pieces[j].1 as int)
                    == ps[j],
            forall|j: int|
                0 <= j < k ==> span_ok(#[trigger] spans[j], text@.len() as int) && span_text(
                    text@,
                    spans[j].0 as int,
                    spans[j].1 as int,
                ) == ended[j],
        decreases n - k,
    {
        let (a, b) = pieces[k];
        proof {
            assert(ended[k as int] == strip_cr(ps[k as int]));
        }
        if b > a && text[b - 1] == '\r' {
            proof {
                assert(text@.subrange(a as int, b - 1) =~= text@.subrange(
                    a as int,
                    b as int,
                ).drop_last());
            }
            spans.push((a, b - 1));
        } else {
            spans.push((a, b));
        }
        k += 1;
    }
    let (a, b) = pieces[n - 1];
    if b > a {
        spans.push((a, b));
    }
    proof {
        let ls = lines(text@);
        if ps.last().len() == 0 {
            assert(ls == ended);
        } else {
            assert(ls == ended.push(ps.last()));
        }
    }
    spans
}

/// `text[lo..hi]` begins with `key`.
pub fn span_has_prefix(text: &Vec<char>, lo: usize, hi: usize, key: &Vec<char>) -> (r: bool)
    requires
        lo <= hi <= text.len(),
    ensures
        r == has_prefix(span_text(text@, lo as int, hi as int), key@),
{
    let ghost s = span_text(text@, lo as int, hi as int);
    if key.len() > hi - lo {
        return false;
    }
    let mut i: usize = 0;
    while i < key.len()
        invariant
            lo <= hi <= text.len(),
            key.len() <= hi - lo,
            s == span_text(text@, lo as int, hi as int),
            i <= key.len(),
            forall|j: int| 0 <= j < i ==> s[j] == key@[j],
        decreases key.len() - i,
    {
        if text[lo + i] != key[i] {
            assert(s.subrange(0, key@.len() as int)[i as int] != key@[i as int]);
            return false;
        }
        i += 1;
    }
    assert(s.subrange(0, key@.len() as int) =~= key@);
    true
}

/// `text[lo..hi]` ends with `key`.
pub fn span_has_suffix(text: &Vec<char>, lo: usize, hi: usize, key: &Vec<char>) -> (r: bool)
    requires
        lo <= hi <= text.len(),
    ensures
        r == has_suffix(span_text(text@, lo as int, hi as int), key@),
{
    let ghost s = span_text(text@, lo as int, hi as int);
    if key.len() > hi - lo {
        return false;
    }
    let base = hi - key.len();
    let mut i: usize = 0;
    while i < key.len()
        invariant
            lo <= base <= hi <= text.len(),
            base + key.len() == hi,
            s == span_text(text@, lo as int, hi as int),
            i <= key.len(),
            forall|j: int| 0 <= j < i ==> text@[base + j] == key@[j],
        decreases key.len() - i,
    {
        if text[base + i] != key[i] {
            assert(s.subrange(s.len() - key@.len(), s.len() as int)[i as int] != key@[i as int]);
            return false;
        }
        i += 1;
    }
    assert(s.subrange(s.len() - key@.len(), s.len() as int) =~= key@);
    true
}

/// The lowercase of `text[lo..hi]` begins with `key`, an ASCII lowercase text.
pub fn span_has_lower_prefix(text: &Vec<char>, lo: usize, hi: usize, key: &Vec<char>) -> (r: bool)
    requires
        lo <= hi <= text.len(),
    ensures
        r == lower_has_prefix(span_text(text@, lo as int, hi as int), key@),
{
    let ghost s = span_text(text@, lo as int, hi as int);
    if key.len() > hi - lo {
        return false;
    }
    let mut i: usize = 0;
    while i < key.len()
        invariant
            lo <= hi <= text.len(),
            key.len() <= hi - lo,
            s == span_text(text@, lo as int, hi as int),
            i <= key.len(),
            forall|j: int| 0 <= j < i ==> lowers_to(#[trigger] s[j], key@[j]),
        decreases key.len() - i,
    {
        if !char_lowers_to(text[lo + i], key[i]) {
            assert(!lowers_to(s[i as int], key@[i as int]));
            return false;
        }
        i += 1;
    }
    true
}

/// `lowers_to`, computed.
pub fn char_lowers_to(c: char, t: char) -> (r: bool)
    ensures
        r == lowers_to(c, t),
{
    let v = c as u32;
    c == t || (('A' as u32) <= v && v <= ('Z' as u32) && v + 32 == (t as u32)) || (c == '\u{212A}'
        && t == 'k')
}

/// `is_space`, computed.
pub fn char_is_space(c: char) -> (r: bool)
    ensures
        r == is_space(c),
{
    let v = c as u32;
    v == 0x20 || (0x09 <= v && v <= 0x0d) || v == 0x85 || v == 0xa0 || v == 0x1680 || (0x2000 <= v
        && v <= 0x200a) || v == 0x2028 || v == 0x2029 || v == 0x202f || v == 0x205f || v == 0x3000
}

/// `utf8_width`, computed.
pub fn char_utf8_width(c: char) -> (r: usize)
    ensures
        r as int == utf8_width(c),
        1 <= r <= 4,
{
    let v = c as u32;
    if v < 0x80 {
        1
    } else if v < 0x800 {
        2
    } else if v < 0x10000 {
        3
    } else {
        4
    }
}

/// The span of `trim(text[lo..hi])`.
pub fn trim_span(text: &Vec<char>, lo: usize, hi: usize) -> (r: (usize, usize))
    requires
        lo <= hi <= text.len(),
    ensures
        lo <= r.0 <= r.1 <= hi,
        span_text(text@, r.0 as int, r.1 as int) == trim(span_text(text@, lo as int, hi as int)),
{
    let mut a = lo;
    while a < hi && char_is_space(text[a])
        invariant
            lo <= a <= hi <= text.len(),
            trim_start(text@.subrange(lo as int, hi as int)) == trim_start(
                text@.subrange(a as int, hi as int),
            ),
        decreases hi - a,
    {
        proof {
            assert(text@.subrange(a as int, hi as int).drop_first() =~= text@.subrange(
                a + 1,
                hi as int,
            ));
        }
        a += 1;
    }
    assert(trim_start(text@.subrange(a as int, hi as int)) == text@.subrange(a as int, hi as int));
    let mut b = hi;
    while b > a && char_is_space(text[b - 1])
        invariant
            lo <= a <= b <= hi <= text.len(),
            trim_end(text@.subrange(a as int, hi as int)) == trim_end(
                text@.subrange(a as int, b as int),
            ),
        decreases b - a,
    {
        proof {
            assert(text@.subrange(a as int, b as int).drop_last() =~= text@.subrange(
                a as int,
                b - 1,
            ));
        }
        b -= 1;
    }
    assert(trim_end(text@.subrange(a as int, b as int)) == text@.subrange(a as int, b as int));
    (a, b)
}

/// Where `text[lo..hi]` goes on after its first `n` bytes of UTF-8, or
/// `None` where `skip_bytes` is `None`.
pub fn skip_bytes_span(text: &Vec<char>, lo: usize, hi: usize, n: usize) -> (r: Option<usize>)
    requires
        lo <= hi <= text.len(),
    ensures
        match r {
            Some(k) => lo <= k <= hi && skip_bytes(span_text(text@, lo as int, hi as int), n as int)
                == Some(span_text(text@, k as int, hi as int)),
            None => skip_bytes(span_text(text@, lo as int, hi as int), n as int) is None,
        },
{
    let mut i = lo;
    let mut rem = n;
    while rem > 0 && i < hi
        invariant
            lo <= i <= hi <= text.len(),
            skip_bytes(span_text(text@, lo as int, hi as int), n as int) == skip_bytes(
                span_text(text@, i as int, hi as int),
                rem as int,
            ),
        decreases hi - i,
    {
        let w = char_utf8_width(text[i]);
        proof {
            assert(span_text(text@, i as int, hi as int).drop_first() =~= span_text(
                text@,
                i + 1,
                hi as int,
            ));
        }
        if w > rem {
            proof {
                let t = span_text(text@, i as int + 1, hi as int);
                assert(skip_bytes(t, rem - w) is None) by {
                    if t.len() == 0 {
                    } else {
                    }
                }
            }
            return None;
        }
        rem = rem - w;
        i += 1;
    }
    if rem == 0 {
        Some(i)
    } else {
        None
    }
}

/// The index at which `strip_suffixes(text[lo..hi], key)` ends.
pub fn strip_suffixes_end(text: &Vec<char>, lo: usize, hi: usize, key: &Vec<char>) -> (r: usize)
    requires
        lo <= hi <= text.len(),
    ensures
        lo <= r <= hi,
        span_text(text@, lo as int, r as int) == strip_suffixes(
            span_text(text@, lo as int, hi as int),
            key@,
        ),
{
    if key.len() == 0 {
        return hi;
    }
    let mut end = hi;
    while span_has_suffix(text, lo, end, key)
        invariant
            lo <= end <= hi <= text.len(),
            key.len() > 0,
            strip_suffixes(span_text(text@, lo as int, hi as int), key@) == strip_suffixes(
                span_text(text@, lo as int, end as int),
                key@,
            ),
        decreases end - lo,
    {
        proof {
            let s = span_text(text@, lo as int, end as int);
            assert(s.subrange(0, s.len() - key@.len()) =~= span_text(
                text@,
                lo as int,
                end - key@.len(),
            ));
        }
        end = end - key.len();
    }
    end
}


/// Names the text that `String::from_utf8_lossy` makes of `bytes`.
pub uninterp spec fn utf8_lossy(bytes: Seq<u8>) -> Seq<char>;

/// Calls `String::from_utf8_lossy`. Claimed of it: the result is the named
/// decoding of the bytes, and bytes that are valid UTF-8 come back as the
/// chars they encode (its documentation: invalid sequences alone are
/// replaced by U+FFFD). What it makes of invalid bytes is left unsaid.
#[verifier::external_body]
pub(crate) fn decode_lossy(bytes: &[u8]) -> (text: String)
    ensures
        text@ == utf8_lossy(bytes@),
        vstd::utf8::valid_utf8(bytes@) ==> text@ == vstd::utf8::decode_utf8(bytes@),
{
    String::from_utf8_lossy(bytes).into_owned()
}

} // verus!

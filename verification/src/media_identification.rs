//! Finding the FLAC files of a folder, and reading what `sox --i` and
//! `metaflac --export-tags-to=-` print about one of them.
use vstd::prelude::*;
use crate::text::{
    lemma_append_line,
    owned,
    keep_lines, lemma_keep_last_with_lower_prefix, lemma_keep_last_with_prefix,
    lemma_keep_lines_members,
    chars_of, decode_lossy, has_prefix, has_suffix, is_space, joined_lines,
    last_with_lower_prefix, last_with_prefix, lemma_ascii_prefix_bytes, lemma_lines_of_terminated,
    lemma_split_char_concat, lemma_split_char_none, line_spans, lines, lower_has_prefix,
    lowers_to, skip_bytes, span_has_lower_prefix, span_has_prefix, span_has_suffix, span_ok,
    span_text, split_char, split_spans, substring, trim, trim_span, trim_start, utf8_lossy, views,
};

verus! {

// ---------------------------------------------------------------- FLAC files

/// The paths of `ps` that end with `.flac`, in their order.
pub open spec fn flac_paths(ps: Seq<Seq<char>>) -> Seq<Seq<char>>
    decreases ps.len(),
{
    if ps.len() == 0 {
        Seq::<Seq<char>>::empty()
    } else {
        let rest = flac_paths(ps.drop_last());
        if has_suffix(ps.last(), ".flac"@) {
            rest.push(ps.last())
        } else {
            rest
        }
    }
}

/// The entries of a folder listing (full paths, in the order the listing
/// gave them) that are FLAC files, i.e. end with `.flac`.
pub fn identify_flac_files(entries: &Vec<String>) -> (flac_files: Vec<String>)
    ensures
        views(flac_files@) == flac_paths(views(entries@)),
{
    let key = chars_of(".flac");
    let mut flac_files: Vec<String> = Vec::new();
    let mut i: usize = 0;
    while i < entries.len()
        invariant
            key@ == ".flac"@,
            i <= entries.len(),
            views(flac_files@) == flac_paths(views(entries@).take(i as int)),
        decreases entries.len() - i,
    {
        let path = chars_of(entries[i].as_str());
        proof {
            assert(views(entries@).take(i + 1).drop_last() =~= views(entries@).take(i as int));
            assert(path@.subrange(0, path@.len() as int) =~= path@);
        }
        if span_has_suffix(&path, 0, path.len(), &key) {
            let ghost before = flac_files@;
            flac_files.push(entries[i].clone());
            proof {
                assert(views(flac_files@) =~= views(before).push(entries@[i as int]@));
            }
        }
        i += 1;
    }
    proof {
        assert(views(entries@).take(entries.len() as int) =~= views(entries@));
    }
    flac_files
}

/// Law: the FLAC files found are exactly the entries that end with `.flac`:
/// each one found ends with it and is an entry, and each entry that ends
/// with it is found.
pub proof fn lemma_flac_paths_exact(ps: Seq<Seq<char>>)
    ensures
        forall|i: int|
            0 <= i < flac_paths(ps).len() ==> has_suffix(#[trigger] flac_paths(ps)[i], ".flac"@)
                && ps.contains(flac_paths(ps)[i]),
        forall|i: int|
            0 <= i < ps.len() && has_suffix(#[trigger] ps[i], ".flac"@) ==> flac_paths(
                ps,
            ).contains(ps[i]),
    decreases ps.len(),
{
    if ps.len() > 0 {
        let p0 = ps.drop_last();
        lemma_flac_paths_exact(p0);
        let r0 = flac_paths(p0);
        let r = flac_paths(ps);
        assert forall|i: int| 0 <= i < r.len() implies has_suffix(#[trigger] r[i], ".flac"@)
            && ps.contains(r[i]) by {
            if i < r0.len() {
                assert(r[i] == r0[i]);
                let j = choose|j: int| 0 <= j < p0.len() && p0[j] == r0[i];
                assert(ps[j] == p0[j]);
            } else {
                assert(r[i] == ps.last());
                assert(ps[ps.len() - 1] == ps.last());
            }
        }
        assert forall|i: int| 0 <= i < ps.len() && has_suffix(#[trigger] ps[i], ".flac"@) implies r.contains(
            ps[i],
        ) by {
            if i < p0.len() {
                assert(p0[i] == ps[i]);
                let j = choose|j: int| 0 <= j < r0.len() && r0[j] == p0[i];
                assert(r[j] == r0[j]);
            } else {
                assert(ps[i] == ps.last());
                assert(r[r.len() - 1] == ps.last());
            }
        }
    }
}

/// Law: the FLAC files found are the entries that end with `.flac`, each
/// once and in the order of the listing: the listing filtered by that
/// suffix.
pub proof fn lemma_flac_paths_filter(ps: Seq<Seq<char>>)
    ensures
        flac_paths(ps) == ps.filter(|p: Seq<char>| has_suffix(p, ".flac"@)),
        flac_paths(ps).len() <= ps.len(),
    decreases ps.len(),
{
    reveal(Seq::filter);
    let pred = |p: Seq<char>| has_suffix(p, ".flac"@);
    if ps.len() > 0 {
        lemma_flac_paths_filter(ps.drop_last());
        assert(ps.filter(pred) == {
            let sub = ps.drop_last().filter(pred);
            if pred(ps.last()) {
                sub.push(ps.last())
            } else {
                sub
            }
        });
    }
}

// ---------------------------------------------------------------- sox --i

/// The text between the first and the second `:` of `line`, trimmed;
/// `None` where `line` has no `:`.
pub open spec fn colon_value(line: Seq<char>) -> Option<Seq<char>> {
    let ps = split_char(line, ':');
    if ps.len() >= 2 {
        Some(trim(ps[1]))
    } else {
        None
    }
}

/// Every line of `ls` that begins with `key` holds a `:`.
pub open spec fn colon_ready(ls: Seq<Seq<char>>, key: Seq<char>) -> bool {
    forall|i: int| 0 <= i < ls.len() && has_prefix(#[trigger] ls[i], key) ==> split_char(ls[i], ':').len() >= 2
}

/// The value of the last line of `ls` that begins with `key`.
pub open spec fn colon_field(ls: Seq<Seq<char>>, key: Seq<char>) -> Option<Seq<char>> {
    match last_with_prefix(ls, key) {
        Some(l) => colon_value(l),
        None => None,
    }
}

/// What `sox --i` printed, read as (channels, sample rate, precision): the
/// value of the last line that begins with `Channels`, `Sample Rate` and
/// `Precision` each. `None` where one of them has no such line, or where
/// a line that begins with one of them holds no `:`.
pub open spec fn sox_info(text: Seq<char>) -> Option<(Seq<char>, Seq<char>, Seq<char>)> {
    let ls = lines(text);
    if colon_ready(ls, "Channels"@) && colon_ready(ls, "Sample Rate"@) && colon_ready(
        ls,
        "Precision"@,
    ) {
        match (
            colon_field(ls, "Channels"@),
            colon_field(ls, "Sample Rate"@),
            colon_field(ls, "Precision"@),
        ) {
            (Some(c), Some(s), Some(b)) => Some((c, s, b)),
            _ => None,
        }
    } else {
        None
    }
}

pub open spec fn triple_view(t: (String, String, String)) -> (Seq<char>, Seq<char>, Seq<char>) {
    (t.0@, t.1@, t.2@)
}

/// Walks the lines of `text` for `key`: `None` where a line that begins with
/// `key` holds no `:`, else the span of the value of the last such line.
fn scan_colon_field(text: &Vec<char>, spans: &Vec<(usize, usize)>, key: &Vec<char>) -> (r: Option<
    Option<(usize, usize)>,
>)
    requires
        spans.len() == lines(text@).len(),
        forall|k: int|
            0 <= k < spans.len() ==> span_ok(#[trigger] spans[k], text@.len() as int) && span_text(
                text@,
                spans[k].0 as int,
                spans[k].1 as int,
            ) == lines(text@)[k],
    ensures
        r is Some <==> colon_ready(lines(text@), key@),
        r matches Some(f) ==> match f {
            Some(sp) => span_ok(sp, text@.len() as int) && colon_field(lines(text@), key@) == Some(
                span_text(text@, sp.0 as int, sp.1 as int),
            ),
            None => colon_field(lines(text@), key@) is None,
        },
{
    let ghost ls = lines(text@);
    let mut found: Option<(usize, usize)> = None;
    let mut i: usize = 0;
    while i < spans.len()
        invariant
            ls == lines(text@),
            spans.len() == ls.len(),
            forall|k: int|
                0 <= k < spans.len() ==> span_ok(#[trigger] spans[k], text@.len() as int)
                    && span_text(text@, spans[k].0 as int, spans[k].1 as int) == ls[k],
            i <= spans.len(),
            colon_ready(ls.take(i as int), key@),
            match found {
                Some(sp) => span_ok(sp, text@.len() as int) && colon_field(
                    ls.take(i as int),
                    key@,
                ) == Some(span_text(text@, sp.0 as int, sp.1 as int)),
                None => colon_field(ls.take(i as int), key@) is None,
            },
        decreases spans.len() - i,
    {
        let (a, b) = spans[i];
        let ghost line = ls[i as int];
        proof {
            assert(ls.take(i + 1).drop_last() =~= ls.take(i as int));
            assert(ls.take(i + 1).last() == line);
        }
        if span_has_prefix(text, a, b, key) {
            let pieces = split_spans(text, a, b, ':');
            if pieces.len() < 2 {
                proof {
                    assert(ls.take(i + 1)[i as int] == line);
                }
                return None;
            }
            let (p, q) = pieces[1];
            let t = trim_span(text, p, q);
            found = Some(t);
        }
        proof {
            let tk = ls.take(i + 1);
            assert forall|j: int|
                0 <= j < tk.len() && has_prefix(#[trigger] tk[j], key@) implies split_char(
                tk[j],
                ':',
            ).len() >= 2 by {
                if j < i {
                    assert(tk[j] == ls.take(i as int)[j]);
                }
            }
        }
        i += 1;
    }
    proof {
        assert(ls.take(spans.len() as int) =~= ls);
    }
    Some(found)
}

/// Reads what `sox --i` printed about a FLAC file.
pub fn parse_sox_info(info: &str) -> (r: Option<(String, String, String)>)
    ensures
        match r {
            Some(t) => sox_info(info@) == Some(triple_view(t)),
            None => sox_info(info@) is None,
        },
{
    let text = chars_of(info);
    let spans = line_spans(&text);
    let channels_key = chars_of("Channels");
    let rate_key = chars_of("Sample Rate");
    let depth_key = chars_of("Precision");
    let c = scan_colon_field(&text, &spans, &channels_key);
    let s = scan_colon_field(&text, &spans, &rate_key);
    let b = scan_colon_field(&text, &spans, &depth_key);
    match (c, s, b) {
        (Some(Some(c)), Some(Some(s)), Some(Some(b))) => Some(
            (
                substring(info, c.0, c.1),
                substring(info, s.0, s.1),
                substring(info, b.0, b.1),
            ),
        ),
        _ => None,
    }
}

/// Reads the standard output of `sox --i` on a FLAC file (bytes, decoded
/// as `String::from_utf8_lossy` does) as (channels, sample rate, precision).
pub fn get_info_from_flac(sox_stdout: &[u8]) -> (r: Option<(String, String, String)>)
    ensures
        match r {
            Some(t) => sox_info(utf8_lossy(sox_stdout@)) == Some(triple_view(t)),
            None => sox_info(utf8_lossy(sox_stdout@)) is None,
        },
{
    let info = decode_lossy(sox_stdout);
    parse_sox_info(info.as_str())
}

// ---------------------------------------------------------------- metaflac tags

/// The text after `key` on the last line of `ls` whose lowercase begins with
/// `key`; empty where there is no such line. (`key` is ASCII, so the chars
/// it matched are ASCII and the byte slice `[key.len()..]` is this
/// char slice.)
pub open spec fn tag_value(ls: Seq<Seq<char>>, key: Seq<char>) -> Seq<char> {
    match last_with_lower_prefix(ls, key) {
        Some(l) => l.subrange(key.len() as int, l.len() as int),
        None => Seq::<char>::empty(),
    }
}

/// The tags that `metaflac --export-tags-to=-` printed, read as (artist,
/// album, year) from the last `ARTIST=`, `ALBUM=` and `DATE=` lines, with
/// the tag names in any case; `None` where one of them is missing or empty.
pub open spec fn flac_tags(text: Seq<char>) -> Option<(Seq<char>, Seq<char>, Seq<char>)> {
    let ls = lines(text);
    let artist = tag_value(ls, "artist="@);
    let album = tag_value(ls, "album="@);
    let year = tag_value(ls, "date="@);
    if artist.len() > 0 && album.len() > 0 && year.len() > 0 {
        Some((artist, album, year))
    } else {
        None
    }
}

/// Walks the lines of `text` for the last one whose lowercase begins with
/// `key`, and gives the span after `key` on it.
fn scan_tag(text: &Vec<char>, spans: &Vec<(usize, usize)>, key: &Vec<char>) -> (r: (usize, usize))
    requires
        spans.len() == lines(text@).len(),
        forall|k: int|
            0 <= k < spans.len() ==> span_ok(#[trigger] spans[k], text@.len() as int) && span_text(
                text@,
                spans[k].0 as int,
                spans[k].1 as int,
            ) == lines(text@)[k],
    ensures
        span_ok(r, text@.len() as int),
        span_text(text@, r.0 as int, r.1 as int) == tag_value(lines(text@), key@),
{
    let ghost ls = lines(text@);
    let mut found: (usize, usize) = (0, 0);
    let mut i: usize = 0;
    while i < spans.len()
        invariant
            ls == lines(text@),
            spans.len() == ls.len(),
            forall|k: int|
                0 <= k < spans.len() ==> span_ok(#[trigger] spans[k], text@.len() as int)
                    && span_text(text@, spans[k].0 as int, spans[k].1 as int) == ls[k],
            i <= spans.len(),
            span_ok(found, text@.len() as int),
            span_text(text@, found.0 as int, found.1 as int) == tag_value(ls.take(i as int), key@),
        decreases spans.len() - i,
    {
        let (a, b) = spans[i];
        proof {
            assert(ls.take(i + 1).drop_last() =~= ls.take(i as int));
            assert(ls.take(i + 1).last() == ls[i as int]);
        }
        if span_has_lower_prefix(text, a, b, key) {
            found = (a + key.len(), b);
            proof {
                assert(span_text(text@, (a + key.len()) as int, b as int) =~= ls[i as int].subrange(
                    key@.len() as int,
                    ls[i as int].len() as int,
                ));
            }
        }
        i += 1;
    }
    proof {
        assert(ls.take(spans.len() as int) =~= ls);
        assert(text@.subrange(0, 0) =~= Seq::<char>::empty());
    }
    found
}

/// Reads the tags that `metaflac --export-tags-to=-` printed as (artist,
/// album, year).
pub fn parse_flac_tags(tags: &str) -> (r: Option<(String, String, String)>)
    ensures
        match r {
            Some(t) => flac_tags(tags@) == Some(triple_view(t)),
            None => flac_tags(tags@) is None,
        },
{
    let text = chars_of(tags);
    let spans = line_spans(&text);
    let artist_key = chars_of("artist=");
    let album_key = chars_of("album=");
    let date_key = chars_of("date=");
    let a = scan_tag(&text, &spans, &artist_key);
    let b = scan_tag(&text, &spans, &album_key);
    let y = scan_tag(&text, &spans, &date_key);
    if a.0 < a.1 && b.0 < b.1 && y.0 < y.1 {
        Some((substring(tags, a.0, a.1), substring(tags, b.0, b.1), substring(tags, y.0, y.1)))
    } else {
        None
    }
}

/// Reads the standard output of `metaflac --export-tags-to=-` on a FLAC
/// file (bytes, decoded as `String::from_utf8_lossy` does) as (artist,
/// album, year).
pub fn get_metadata_from_flac(metaflac_stdout: &[u8]) -> (r: Option<(String, String, String)>)
    ensures
        match r {
            Some(t) => flac_tags(utf8_lossy(metaflac_stdout@)) == Some(triple_view(t)),
            None => flac_tags(utf8_lossy(metaflac_stdout@)) is None,
        },
{
    let tags = decode_lossy(metaflac_stdout);
    parse_flac_tags(tags.as_str())
}

/// The summary lines that `sox --i` prints for the channels, the sample rate
/// and the precision of a file (labels padded to 15 chars, then `: `).
pub open spec fn sox_summary(channels: Seq<char>, rate: Seq<char>, precision: Seq<char>) -> Seq<char> {
    "Channels       : "@ + channels + "\n"@ + "Sample Rate    : "@ + rate + "\n"@
        + "Precision      : "@ + precision + "\n"@
}

/// A value that `sox --i` prints on one line: no newline, no colon, no
/// carriage return at its end.
pub open spec fn sox_value_ok(v: Seq<char>) -> bool {
    !v.contains('\n') && !v.contains(':') && !(v.len() > 0 && v.last() == '\r')
}

/// What each reader makes of one summary line `label + v`.
pub(crate) proof fn lemma_sox_line(label: Seq<char>, v: Seq<char>)
    requires
        label.len() == 17,
        label[15] == ':',
        label[16] == ' ',
        forall|i: int|
            0 <= i < 15 ==> (#[trigger] label[i]) != ':' && label[i] != '\n' && (label[i] as u32)
                < 0x80,
        sox_value_ok(v),
    ensures
        !(label + v).contains('\n'),
        !((label + v).len() > 0 && (label + v).last() == '\r'),
        split_char(label + v, ':').len() >= 2,
        colon_value(label + v) == Some(trim(v)),
        skip_bytes(label + v, 16) == Some(seq![' '] + v),
{
    let l = label + v;
    let head = label.subrange(0, 15);
    let tail = seq![' '] + v;
    assert(l =~= head + seq![':'] + tail);
    assert(!head.contains(':')) by {
        if head.contains(':') {
            let i = choose|i: int| 0 <= i < head.len() && head[i] == ':';
            assert(label[i] == ':');
        }
    }
    assert(!tail.contains(':')) by {
        if tail.contains(':') {
            let i = choose|i: int| 0 <= i < tail.len() && tail[i] == ':';
            assert(v[i - 1] == ':');
            assert(v.contains(':'));
        }
    }
    lemma_split_char_concat(head, tail, ':');
    lemma_split_char_none(head, ':');
    lemma_split_char_none(tail, ':');
    assert(split_char(l, ':') =~= seq![head, tail]);
    assert(tail.drop_first() =~= v);
    assert(is_space(' '));
    assert(trim_start(tail) == trim_start(v));
    assert forall|i: int| 0 <= i < l.len() implies l[i] != '\n' by {
        if i < 17 {
            assert(l[i] == label[i]);
        } else {
            assert(l[i] == v[i - 17]);
            if v[i - 17] == '\n' {
                assert(v.contains('\n'));
            }
        }
    }
    if v.len() == 0 {
        assert(l.last() == label[16]);
    } else {
        assert(l.last() == v.last());
    }
    assert forall|i: int| 0 <= i < 16 implies (#[trigger] l[i] as u32) < 0x80 by {
        assert(l[i] == label[i]);
    }
    lemma_ascii_prefix_bytes(l, 16);
    assert(l.subrange(16, l.len() as int) =~= tail);
}

/// The lines of a summary: one per field.
pub(crate) proof fn lemma_sox_summary_lines(channels: Seq<char>, rate: Seq<char>, precision: Seq<char>)
    requires
        sox_value_ok(channels),
        sox_value_ok(rate),
        sox_value_ok(precision),
    ensures
        lines(sox_summary(channels, rate, precision)) == seq![
            "Channels       : "@ + channels,
            "Sample Rate    : "@ + rate,
            "Precision      : "@ + precision,
        ],
        colon_value("Channels       : "@ + channels) == Some(trim(channels)),
        colon_value("Sample Rate    : "@ + rate) == Some(trim(rate)),
        colon_value("Precision      : "@ + precision) == Some(trim(precision)),
        skip_bytes("Channels       : "@ + channels, 16) == Some(seq![' '] + channels),
        skip_bytes("Sample Rate    : "@ + rate, 16) == Some(seq![' '] + rate),
        skip_bytes("Precision      : "@ + precision, 16) == Some(seq![' '] + precision),
        split_char("Channels       : "@ + channels, ':').len() >= 2,
        split_char("Sample Rate    : "@ + rate, ':').len() >= 2,
        split_char("Precision      : "@ + precision, ':').len() >= 2,
        last_with_prefix(lines(sox_summary(channels, rate, precision)), "Channels"@) == Some(
            "Channels       : "@ + channels,
        ),
        last_with_prefix(lines(sox_summary(channels, rate, precision)), "Sample Rate"@) == Some(
            "Sample Rate    : "@ + rate,
        ),
        last_with_prefix(lines(sox_summary(channels, rate, precision)), "Precision"@) == Some(
            "Precision      : "@ + precision,
        ),
{
    reveal_strlit("Channels       : ");
    reveal_strlit("Sample Rate    : ");
    reveal_strlit("Precision      : ");
    reveal_strlit("\n");
    let l1 = "Channels       : "@ + channels;
    let l2 = "Sample Rate    : "@ + rate;
    let l3 = "Precision      : "@ + precision;
    lemma_sox_line("Channels       : "@, channels);
    lemma_sox_line("Sample Rate    : "@, rate);
    lemma_sox_line("Precision      : "@, precision);
    let ls = seq![l1, l2, l3];
    assert(ls.drop_last() =~= seq![l1, l2]);
    assert(seq![l1, l2].drop_last() =~= seq![l1]);
    assert(seq![l1].drop_last() =~= Seq::<Seq<char>>::empty());
    assert(joined_lines(Seq::<Seq<char>>::empty()) =~= Seq::<char>::empty());
    assert(joined_lines(seq![l1]) =~= l1 + seq!['\n']);
    assert(joined_lines(seq![l1, l2]) =~= l1 + seq!['\n'] + l2 + seq!['\n']);
    assert(joined_lines(ls) =~= sox_summary(channels, rate, precision));
    lemma_lines_of_terminated(ls, sox_summary(channels, rate, precision));
    reveal_strlit("Channels");
    reveal_strlit("Sample Rate");
    reveal_strlit("Precision");
    let ls = lines(sox_summary(channels, rate, precision));
    assert(ls.drop_last() =~= seq![l1, l2]);
    assert(ls.drop_last().drop_last() =~= seq![l1]);
    assert(!has_prefix(l3, "Channels"@)) by {
        assert(l3.subrange(0, 8)[0] != "Channels"@[0]);
    }
    assert(!has_prefix(l2, "Channels"@)) by {
        assert(l2.subrange(0, 8)[0] != "Channels"@[0]);
    }
    assert(has_prefix(l1, "Channels"@)) by {
        assert(l1.subrange(0, 8) =~= "Channels"@);
    }
    assert(!has_prefix(l3, "Sample Rate"@)) by {
        assert(l3.subrange(0, 11)[0] != "Sample Rate"@[0]);
    }
    assert(has_prefix(l2, "Sample Rate"@)) by {
        assert(l2.subrange(0, 11) =~= "Sample Rate"@);
    }
    assert(has_prefix(l3, "Precision"@)) by {
        assert(l3.subrange(0, 9) =~= "Precision"@);
    }
    assert(last_with_prefix(ls.drop_last().drop_last(), "Channels"@) == Some(l1));
    assert(last_with_prefix(ls.drop_last(), "Channels"@) == Some(l1));
    assert(last_with_prefix(ls, "Channels"@) == Some(l1));
    assert(last_with_prefix(ls.drop_last(), "Sample Rate"@) == Some(l2));
    assert(last_with_prefix(ls, "Sample Rate"@) == Some(l2));
    assert(last_with_prefix(ls, "Precision"@) == Some(l3));
}

/// Law: the channels, sample rate and precision that `sox --i` prints are
/// read back as they were printed, trimmed.
pub proof fn lemma_sox_info_read_back(channels: Seq<char>, rate: Seq<char>, precision: Seq<char>)
    requires
        sox_value_ok(channels),
        sox_value_ok(rate),
        sox_value_ok(precision),
    ensures
        sox_info(sox_summary(channels, rate, precision)) == Some(
            (trim(channels), trim(rate), trim(precision)),
        ),
{
    lemma_sox_summary_lines(channels, rate, precision);
    let l1 = "Channels       : "@ + channels;
    let l2 = "Sample Rate    : "@ + rate;
    let l3 = "Precision      : "@ + precision;
    let ls = lines(sox_summary(channels, rate, precision));
    assert forall|key: Seq<char>| #![trigger colon_ready(ls, key)] colon_ready(ls, key) by {
        assert forall|i: int| 0 <= i < ls.len() && has_prefix(#[trigger] ls[i], key) implies split_char(
            ls[i],
            ':',
        ).len() >= 2 by {
            if i == 0 {
                assert(ls[i] == l1);
            } else if i == 1 {
                assert(ls[i] == l2);
            } else {
                assert(ls[i] == l3);
            }
        }
    }
    assert(colon_ready(ls, "Channels"@));
    assert(colon_ready(ls, "Sample Rate"@));
    assert(colon_ready(ls, "Precision"@));
}

/// The tag lines `NAME=value` that `metaflac --export-tags-to=-` prints for
/// an artist, an album and a year.
pub open spec fn exported_tags(artist: Seq<char>, album: Seq<char>, year: Seq<char>) -> Seq<char> {
    "ARTIST="@ + artist + "\n"@ + "ALBUM="@ + album + "\n"@ + "DATE="@ + year + "\n"@
}

/// A tag value that stands on one line of the export: not empty, no
/// newline in it, no carriage return at its end.
pub open spec fn one_line_value(v: Seq<char>) -> bool {
    v.len() > 0 && !v.contains('\n') && v.last() != '\r'
}

proof fn lemma_tag_line(name: Seq<char>, v: Seq<char>)
    requires
        one_line_value(v),
        !name.contains('\n'),
    ensures
        !(name + v).contains('\n'),
        !((name + v).len() > 0 && (name + v).last() == '\r'),
{
    let l = name + v;
    assert((name + v).last() == v.last());
    assert forall|i: int| 0 <= i < l.len() implies l[i] != '\n' by {
        if i < name.len() {
            assert(l[i] == name[i]);
            assert(!name.contains('\n'));
            if name[i] == '\n' {
                assert(name.contains('\n'));
            }
        } else {
            assert(l[i] == v[i - name.len()]);
            if v[i - name.len()] == '\n' {
                assert(v.contains('\n'));
            }
        }
    }
}

/// Law: the tags of an album, exported as metaflac prints them, are read
/// back as they were.
pub proof fn lemma_tags_read_back(artist: Seq<char>, album: Seq<char>, year: Seq<char>)
    requires
        one_line_value(artist),
        one_line_value(album),
        one_line_value(year),
    ensures
        flac_tags(exported_tags(artist, album, year)) == Some((artist, album, year)),
{
    reveal_strlit("ARTIST=");
    reveal_strlit("ALBUM=");
    reveal_strlit("DATE=");
    reveal_strlit("\n");
    reveal_strlit("artist=");
    reveal_strlit("album=");
    reveal_strlit("date=");
    let l1 = "ARTIST="@ + artist;
    let l2 = "ALBUM="@ + album;
    let l3 = "DATE="@ + year;
    lemma_tag_line("ARTIST="@, artist);
    lemma_tag_line("ALBUM="@, album);
    lemma_tag_line("DATE="@, year);
    let ls = seq![l1, l2, l3];
    assert(ls.drop_last().drop_last().drop_last() =~= Seq::<Seq<char>>::empty());
    assert(ls.drop_last().drop_last() =~= seq![l1]);
    assert(ls.drop_last() =~= seq![l1, l2]);
    assert(seq![l1].drop_last() =~= Seq::<Seq<char>>::empty());
    assert(joined_lines(Seq::<Seq<char>>::empty()) =~= Seq::<char>::empty());
    assert(joined_lines(seq![l1]) =~= l1 + seq!['\n']);
    assert(seq![l1, l2].drop_last() =~= seq![l1]);
    assert(joined_lines(seq![l1, l2]) =~= l1 + seq!['\n'] + l2 + seq!['\n']);
    assert(joined_lines(ls) =~= exported_tags(artist, album, year));
    lemma_lines_of_terminated(ls, exported_tags(artist, album, year));
    let ls = lines(exported_tags(artist, album, year));
    assert(ls.drop_last() =~= seq![l1, l2]);
    assert(ls.drop_last().drop_last() =~= seq![l1]);
    // which lines carry which tag
    assert(!lower_has_prefix(l3, "artist="@)) by {
        assert(!lowers_to(l3[0], "artist="@[0]));
    }
    assert(!lower_has_prefix(l2, "artist="@)) by {
        assert(!lowers_to(l2[1], "artist="@[1]));
    }
    assert(lower_has_prefix(l1, "artist="@)) by {
        assert forall|i: int| 0 <= i < 7 implies lowers_to(#[trigger] l1[i], "artist="@[i]) by {
            assert(l1[i] == "ARTIST="@[i]);
        }
    }
    assert(!lower_has_prefix(l3, "album="@)) by {
        assert(!lowers_to(l3[0], "album="@[0]));
    }
    assert(lower_has_prefix(l2, "album="@)) by {
        assert forall|i: int| 0 <= i < 6 implies lowers_to(#[trigger] l2[i], "album="@[i]) by {
            assert(l2[i] == "ALBUM="@[i]);
        }
    }
    assert(lower_has_prefix(l3, "date="@)) by {
        assert forall|i: int| 0 <= i < 5 implies lowers_to(#[trigger] l3[i], "date="@[i]) by {
            assert(l3[i] == "DATE="@[i]);
        }
    }
    assert(last_with_lower_prefix(ls.drop_last().drop_last(), "artist="@) == Some(l1));
    assert(last_with_lower_prefix(ls.drop_last(), "artist="@) == Some(l1));
    assert(last_with_lower_prefix(ls, "artist="@) == Some(l1));
    assert(last_with_lower_prefix(ls.drop_last(), "album="@) == Some(l2));
    assert(last_with_lower_prefix(ls, "album="@) == Some(l2));
    assert(last_with_lower_prefix(ls, "date="@) == Some(l3));
    assert(l1.subrange(7, l1.len() as int) =~= artist);
    assert(l2.subrange(6, l2.len() as int) =~= album);
    assert(l3.subrange(5, l3.len() as int) =~= year);
}

/// The lines that the reading of `sox --i` looks at: those that begin with
/// `Channels`, `Sample Rate` or `Precision`.
pub open spec fn sox_key_line() -> spec_fn(Seq<char>) -> bool {
    |l: Seq<char>|
        has_prefix(l, "Channels"@) || has_prefix(l, "Sample Rate"@) || has_prefix(l, "Precision"@)
}

/// The lines that the reading of exported tags looks at: those whose
/// lowercase begins with `artist=`, `album=` or `date=`.
pub open spec fn tag_key_line() -> spec_fn(Seq<char>) -> bool {
    |l: Seq<char>|
        lower_has_prefix(l, "artist="@) || lower_has_prefix(l, "album="@) || lower_has_prefix(
            l,
            "date="@,
        )
}

proof fn lemma_keep_colon_ready(ls: Seq<Seq<char>>, keep: spec_fn(Seq<char>) -> bool, key: Seq<char>)
    requires
        forall|l: Seq<char>| has_prefix(l, key) ==> #[trigger] keep(l),
    ensures
        colon_ready(keep_lines(ls, keep), key) == colon_ready(ls, key),
{
    lemma_keep_lines_members(ls, keep);
    let k = keep_lines(ls, keep);
    if colon_ready(ls, key) {
        assert forall|i: int| 0 <= i < k.len() && has_prefix(#[trigger] k[i], key) implies split_char(
            k[i],
            ':',
        ).len() >= 2 by {
            assert(ls.contains(k[i]));
            let j = choose|j: int| 0 <= j < ls.len() && ls[j] == k[i];
            assert(has_prefix(ls[j], key));
        }
    }
    if colon_ready(k, key) {
        assert forall|i: int| 0 <= i < ls.len() && has_prefix(#[trigger] ls[i], key) implies split_char(
            ls[i],
            ':',
        ).len() >= 2 by {
            assert(keep(ls[i]));
            assert(k.contains(ls[i]));
            let j = choose|j: int| 0 <= j < k.len() && k[j] == ls[i];
            assert(has_prefix(k[j], key));
        }
    }
}

/// Law: lines that begin with none of `Channels`, `Sample Rate` and
/// `Precision` do not change what is read from `sox --i`: two outputs with
/// the same such lines, in the same order, read the same.
pub proof fn lemma_sox_info_ignores_other_lines(t1: Seq<char>, t2: Seq<char>)
    requires
        keep_lines(lines(t1), sox_key_line()) == keep_lines(lines(t2), sox_key_line()),
    ensures
        sox_info(t1) == sox_info(t2),
{
    let keep = sox_key_line();
    assert forall|l: Seq<char>| has_prefix(l, "Channels"@) implies #[trigger] keep(l) by {}
    assert forall|l: Seq<char>| has_prefix(l, "Sample Rate"@) implies #[trigger] keep(l) by {}
    assert forall|l: Seq<char>| has_prefix(l, "Precision"@) implies #[trigger] keep(l) by {}
    lemma_keep_last_with_prefix(lines(t1), keep, "Channels"@);
    lemma_keep_last_with_prefix(lines(t2), keep, "Channels"@);
    lemma_keep_last_with_prefix(lines(t1), keep, "Sample Rate"@);
    lemma_keep_last_with_prefix(lines(t2), keep, "Sample Rate"@);
    lemma_keep_last_with_prefix(lines(t1), keep, "Precision"@);
    lemma_keep_last_with_prefix(lines(t2), keep, "Precision"@);
    lemma_keep_colon_ready(lines(t1), keep, "Channels"@);
    lemma_keep_colon_ready(lines(t2), keep, "Channels"@);
    lemma_keep_colon_ready(lines(t1), keep, "Sample Rate"@);
    lemma_keep_colon_ready(lines(t2), keep, "Sample Rate"@);
    lemma_keep_colon_ready(lines(t1), keep, "Precision"@);
    lemma_keep_colon_ready(lines(t2), keep, "Precision"@);
}

/// Law: lines whose lowercase begins with none of `artist=`, `album=` and
/// `date=` do not change what is read from the exported tags: two exports
/// with the same such lines, in the same order, read the same.
pub proof fn lemma_flac_tags_ignore_other_lines(t1: Seq<char>, t2: Seq<char>)
    requires
        keep_lines(lines(t1), tag_key_line()) == keep_lines(lines(t2), tag_key_line()),
    ensures
        flac_tags(t1) == flac_tags(t2),
{
    let keep = tag_key_line();
    assert forall|l: Seq<char>| lower_has_prefix(l, "artist="@) implies #[trigger] keep(l) by {}
    assert forall|l: Seq<char>| lower_has_prefix(l, "album="@) implies #[trigger] keep(l) by {}
    assert forall|l: Seq<char>| lower_has_prefix(l, "date="@) implies #[trigger] keep(l) by {}
    lemma_keep_last_with_lower_prefix(lines(t1), keep, "artist="@);
    lemma_keep_last_with_lower_prefix(lines(t2), keep, "artist="@);
    lemma_keep_last_with_lower_prefix(lines(t1), keep, "album="@);
    lemma_keep_last_with_lower_prefix(lines(t2), keep, "album="@);
    lemma_keep_last_with_lower_prefix(lines(t1), keep, "date="@);
    lemma_keep_last_with_lower_prefix(lines(t2), keep, "date="@);
}

/// The arguments of the `metaflac` run that prints a file's tags.
pub fn metaflac_tags_args(flac_file: &str) -> (args: Vec<String>)
    ensures
        views(args@) == seq!["--export-tags-to=-"@, flac_file@],
{
    let args = vec![owned("--export-tags-to=-"), owned(flac_file)];
    assert(views(args@) =~= seq!["--export-tags-to=-"@, flac_file@]);
    args
}

/// The value of a tag after one more line: that line's, where it is a line
/// of the tag; the one before, where it is not.
proof fn lemma_tag_value_after_line(t: Seq<char>, l: Seq<char>, key: Seq<char>)
    requires
        !(t.len() > 0 && t.last() == '\r'),
        !l.contains('\n'),
        l.len() > 0,
        key.len() > 0,
    ensures
        tag_value(lines(t + seq!['\n'] + l), key) == if lower_has_prefix(l, key) {
            l.subrange(key.len() as int, l.len() as int)
        } else {
            tag_value(lines(t), key)
        },
{
    lemma_append_line(t, l);
    let z = lines(t + seq!['\n'] + l);
    if lower_has_prefix(l, key) {
        assert(last_with_lower_prefix(z, key) == Some(l));
    } else {
        assert(last_with_lower_prefix(z, key) == last_with_lower_prefix(z.drop_last(), key));
        if z.drop_last() != lines(t) {
            let e = lines(t).push(Seq::<char>::empty());
            assert(z.drop_last() == e);
            assert(e.drop_last() =~= lines(t));
            assert(e.last() == Seq::<char>::empty());
            assert(!lower_has_prefix(e.last(), key));
            assert(last_with_lower_prefix(e, key) == last_with_lower_prefix(lines(t), key));
        }
    }
}

proof fn lemma_tag_line_no_newline(name: Seq<char>, v: Seq<char>)
    requires
        one_line_value(v),
        !name.contains('\n'),
    ensures
        !(name + v).contains('\n'),
        (name + v).len() > 0,
{
    lemma_tag_line(name, v);
}

/// Law: a later tag line replaces an earlier one. Adding an `ARTIST=`,
/// `ALBUM=` or `DATE=` line after the tags of an album changes that tag to
/// the new value and leaves the other two as they were.
pub proof fn lemma_later_tag_line_wins(t: Seq<char>, v: Seq<char>)
    requires
        flac_tags(t) is Some,
        !(t.len() > 0 && t.last() == '\r'),
        one_line_value(v),
    ensures
        flac_tags(t + seq!['\n'] + ("ARTIST="@ + v)) == Some(
            (v, (flac_tags(t)->0).1, (flac_tags(t)->0).2),
        ),
        flac_tags(t + seq!['\n'] + ("ALBUM="@ + v)) == Some(
            ((flac_tags(t)->0).0, v, (flac_tags(t)->0).2),
        ),
        flac_tags(t + seq!['\n'] + ("DATE="@ + v)) == Some(
            ((flac_tags(t)->0).0, (flac_tags(t)->0).1, v),
        ),
{
    reveal_strlit("ARTIST=");
    reveal_strlit("ALBUM=");
    reveal_strlit("DATE=");
    reveal_strlit("artist=");
    reveal_strlit("album=");
    reveal_strlit("date=");
    let la = "ARTIST="@ + v;
    let lb = "ALBUM="@ + v;
    let ld = "DATE="@ + v;
    lemma_tag_line_no_newline("ARTIST="@, v);
    lemma_tag_line_no_newline("ALBUM="@, v);
    lemma_tag_line_no_newline("DATE="@, v);
    assert(lower_has_prefix(la, "artist="@)) by {
        assert forall|i: int| 0 <= i < 7 implies lowers_to(#[trigger] la[i], "artist="@[i]) by {
            assert(la[i] == "ARTIST="@[i]);
        }
    }
    assert(!lower_has_prefix(la, "album="@)) by {
        assert(!lowers_to(la[1], "album="@[1]));
    }
    assert(!lower_has_prefix(la, "date="@)) by {
        assert(!lowers_to(la[0], "date="@[0]));
    }
    assert(lower_has_prefix(lb, "album="@)) by {
        assert forall|i: int| 0 <= i < 6 implies lowers_to(#[trigger] lb[i], "album="@[i]) by {
            assert(lb[i] == "ALBUM="@[i]);
        }
    }
    assert(!lower_has_prefix(lb, "artist="@)) by {
        assert(!lowers_to(lb[1], "artist="@[1]));
    }
    assert(!lower_has_prefix(lb, "date="@)) by {
        assert(!lowers_to(lb[0], "date="@[0]));
    }
    assert(lower_has_prefix(ld, "date="@)) by {
        assert forall|i: int| 0 <= i < 5 implies lowers_to(#[trigger] ld[i], "date="@[i]) by {
            assert(ld[i] == "DATE="@[i]);
        }
    }
    assert(!lower_has_prefix(ld, "artist="@)) by {
        assert(!lowers_to(ld[0], "artist="@[0]));
    }
    assert(!lower_has_prefix(ld, "album="@)) by {
        assert(!lowers_to(ld[0], "album="@[0]));
    }
    lemma_tag_value_after_line(t, la, "artist="@);
    lemma_tag_value_after_line(t, la, "album="@);
    lemma_tag_value_after_line(t, la, "date="@);
    lemma_tag_value_after_line(t, lb, "artist="@);
    lemma_tag_value_after_line(t, lb, "album="@);
    lemma_tag_value_after_line(t, lb, "date="@);
    lemma_tag_value_after_line(t, ld, "artist="@);
    lemma_tag_value_after_line(t, ld, "album="@);
    lemma_tag_value_after_line(t, ld, "date="@);
    assert(la.subrange(7, la.len() as int) =~= v);
    assert(lb.subrange(6, lb.len() as int) =~= v);
    assert(ld.subrange(5, ld.len() as int) =~= v);
}

/// The reading of one `sox --i` field after one more line.
proof fn lemma_sox_field_after_line(t: Seq<char>, l: Seq<char>, key: Seq<char>)
    requires
        !(t.len() > 0 && t.last() == '\r'),
        !l.contains('\n'),
        l.len() > 0,
        key.len() > 0,
    ensures
        last_with_prefix(lines(t + seq!['\n'] + l), key) == if has_prefix(l, key) {
            Some(l)
        } else {
            last_with_prefix(lines(t), key)
        },
        colon_ready(lines(t + seq!['\n'] + l), key) == (colon_ready(lines(t), key) && (has_prefix(
            l,
            key,
        ) ==> split_char(l, ':').len() >= 2)),
{
    lemma_append_line(t, l);
    let z = lines(t + seq!['\n'] + l);
    let lt = lines(t);
    let e = z.drop_last();
    assert(z == e.push(l)) by {
        assert(e.push(l) =~= z);
    }
    let empty_line = Seq::<char>::empty();
    assert(!has_prefix(empty_line, key));
    if has_prefix(l, key) {
        assert(last_with_prefix(z, key) == Some(l));
    } else {
        assert(last_with_prefix(z, key) == last_with_prefix(e, key));
        if e != lt {
            assert(e == lt.push(empty_line));
            assert(e.drop_last() =~= lt);
            assert(last_with_prefix(e, key) == last_with_prefix(lt, key));
        }
    }
    // which lines of `z` are lines of `t`
    assert forall|i: int| 0 <= i < e.len() implies (#[trigger] e[i] == empty_line && i == lt.len()) || (
    i < lt.len() && e[i] == lt[i]) by {
        if e != lt {
            assert(e == lt.push(empty_line));
        }
    }
    if colon_ready(z, key) {
        assert forall|i: int| 0 <= i < lt.len() && has_prefix(#[trigger] lt[i], key) implies split_char(
            lt[i],
            ':',
        ).len() >= 2 by {
            if e == lt {
                assert(z[i] == lt[i]);
            } else {
                assert(e == lt.push(empty_line));
                assert(z[i] == e[i]);
                assert(e[i] == lt[i]);
            }
        }
        assert(z[z.len() - 1] == l);
    }
    if colon_ready(lt, key) && (has_prefix(l, key) ==> split_char(l, ':').len() >= 2) {
        assert forall|i: int| 0 <= i < z.len() && has_prefix(#[trigger] z[i], key) implies split_char(
            z[i],
            ':',
        ).len() >= 2 by {
            if i == z.len() - 1 {
                assert(z[i] == l);
            } else {
                assert(z[i] == e[i]);
            }
        }
    }
}

/// Law: a later line of a field replaces an earlier one. Adding a
/// `Channels`, `Sample Rate` or `Precision` line after what `sox --i`
/// printed changes that field to the new value, trimmed, and leaves the
/// other two as they were.
pub proof fn lemma_later_sox_line_wins(t: Seq<char>, v: Seq<char>)
    requires
        sox_info(t) is Some,
        !(t.len() > 0 && t.last() == '\r'),
        sox_value_ok(v),
    ensures
        sox_info(t + seq!['\n'] + ("Channels       : "@ + v)) == Some(
            (trim(v), (sox_info(t)->0).1, (sox_info(t)->0).2),
        ),
        sox_info(t + seq!['\n'] + ("Sample Rate    : "@ + v)) == Some(
            ((sox_info(t)->0).0, trim(v), (sox_info(t)->0).2),
        ),
        sox_info(t + seq!['\n'] + ("Precision      : "@ + v)) == Some(
            ((sox_info(t)->0).0, (sox_info(t)->0).1, trim(v)),
        ),
{
    reveal_strlit("Channels       : ");
    reveal_strlit("Sample Rate    : ");
    reveal_strlit("Precision      : ");
    reveal_strlit("Channels");
    reveal_strlit("Sample Rate");
    reveal_strlit("Precision");
    let lc = "Channels       : "@ + v;
    let ls = "Sample Rate    : "@ + v;
    let lp = "Precision      : "@ + v;
    lemma_sox_line("Channels       : "@, v);
    lemma_sox_line("Sample Rate    : "@, v);
    lemma_sox_line("Precision      : "@, v);
    assert(has_prefix(lc, "Channels"@)) by {
        assert(lc.subrange(0, 8) =~= "Channels"@);
    }
    assert(!has_prefix(lc, "Sample Rate"@)) by {
        assert(lc.subrange(0, 11)[0] != "Sample Rate"@[0]);
    }
    assert(!has_prefix(lc, "Precision"@)) by {
        assert(lc.subrange(0, 9)[0] != "Precision"@[0]);
    }
    assert(has_prefix(ls, "Sample Rate"@)) by {
        assert(ls.subrange(0, 11) =~= "Sample Rate"@);
    }
    assert(!has_prefix(ls, "Channels"@)) by {
        assert(ls.subrange(0, 8)[0] != "Channels"@[0]);
    }
    assert(!has_prefix(ls, "Precision"@)) by {
        assert(ls.subrange(0, 9)[0] != "Precision"@[0]);
    }
    assert(has_prefix(lp, "Precision"@)) by {
        assert(lp.subrange(0, 9) =~= "Precision"@);
    }
    assert(!has_prefix(lp, "Channels"@)) by {
        assert(lp.subrange(0, 8)[0] != "Channels"@[0]);
    }
    assert(!has_prefix(lp, "Sample Rate"@)) by {
        assert(lp.subrange(0, 11)[0] != "Sample Rate"@[0]);
    }
    lemma_sox_field_after_line(t, lc, "Channels"@);
    lemma_sox_field_after_line(t, lc, "Sample Rate"@);
    lemma_sox_field_after_line(t, lc, "Precision"@);
    lemma_sox_field_after_line(t, ls, "Channels"@);
    lemma_sox_field_after_line(t, ls, "Sample Rate"@);
    lemma_sox_field_after_line(t, ls, "Precision"@);
    lemma_sox_field_after_line(t, lp, "Channels"@);
    lemma_sox_field_after_line(t, lp, "Sample Rate"@);
    lemma_sox_field_after_line(t, lp, "Precision"@);
}

} // verus!

//! The decisions of the transcoding pipeline: what is read from `sox --i`,
//! which files are written where, which commands run with which arguments,
//! what goes into the transcoding logs, and how tags and cover art are
//! carried over to the MP3 files.
use vstd::prelude::*;
use crate::media_identification::{
    lemma_sox_info_read_back, lemma_sox_summary_lines, sox_info, sox_summary, sox_value_ok,
};
use crate::paths::{file_name, path_file_name};
use crate::text::{
    trim_end,
    lemma_split_char_concat, lemma_split_char_none, lower_has_prefix, lowers_to,
    lemma_lines_concat, lemma_split_char_last, lemma_split_char_nonempty, strip_cr,
    chars_of, has_prefix, has_suffix, is_space, last_with_prefix, lemma_strip_suffixes_done,
    line_spans, lines, lower_equals, owned, same_text, skip_bytes, skip_bytes_span,
    span_has_lower_prefix, span_has_prefix, span_ok, span_text, spans_equal, split_char,
    split_spans, strip_suffixes, strip_suffixes_end, substring, trim, trim_span, trim_start,
    views,
};

verus! {

// ---------------------------------------------------------------- sox --i columns

/// Every line of `ls` that begins with `key` is long enough to be cut after
/// its 16-byte label (`"Sample Rate   : ".len()`), at a char boundary.
pub open spec fn column_ready(ls: Seq<Seq<char>>, key: Seq<char>) -> bool {
    forall|i: int|
        0 <= i < ls.len() && has_prefix(#[trigger] ls[i], key) ==> skip_bytes(ls[i], 16) is Some
}

/// What follows the 16-byte label on the last line of `ls` that begins with
/// `key`; empty where there is no such line.
pub open spec fn column_value(ls: Seq<Seq<char>>, key: Seq<char>) -> Seq<char> {
    match last_with_prefix(ls, key) {
        Some(l) => match skip_bytes(l, 16) {
            Some(v) => v,
            None => Seq::<char>::empty(),
        },
        None => Seq::<char>::empty(),
    }
}

/// Walks the lines of `text` for `key`: `None` where a line that begins
/// with `key` cannot be cut after its label, else the span of
/// `column_value`.
fn scan_column(text: &Vec<char>, spans: &Vec<(usize, usize)>, key: &Vec<char>) -> (r: Option<
    (usize, usize),
>)
    requires
        spans.len() == lines(text@).len(),
        forall|k: int|
            0 <= k < spans.len() ==> span_ok(#[trigger] spans[k], text@.len() as int) && span_text(
                text@,
                spans[k].0 as int,
                spans[k].1 as int,
            ) == lines(text@)[k],
    ensures
        r is Some <==> column_ready(lines(text@), key@),
        r matches Some(sp) ==> span_ok(sp, text@.len() as int) && span_text(
            text@,
            sp.0 as int,
            sp.1 as int,
        ) == column_value(lines(text@), key@),
{
    let ghost ls = lines(text@);
    let mut found: (usize, usize) = (0, 0);
    let mut i: usize = 0;
    proof {
        assert(text@.subrange(0, 0) =~= Seq::<char>::empty());
    }
    while i < spans.len()
        invariant
            ls == lines(text@),
            spans.len() == ls.len(),
            forall|k: int|
                0 <= k < spans.len() ==> span_ok(#[trigger] spans[k], text@.len() as int)
                    && span_text(text@, spans[k].0 as int, spans[k].1 as int) == ls[k],
            i <= spans.len(),
            column_ready(ls.take(i as int), key@),
            span_ok(found, text@.len() as int),
            span_text(text@, found.0 as int, found.1 as int) == column_value(
                ls.take(i as int),
                key@,
            ),
        decreases spans.len() - i,
    {
        let (a, b) = spans[i];
        proof {
            assert(ls.take(i + 1).drop_last() =~= ls.take(i as int));
            assert(ls.take(i + 1).last() == ls[i as int]);
        }
        if span_has_prefix(text, a, b, key) {
            match skip_bytes_span(text, a, b, 16) {
                Some(k) => {
                    found = (k, b);
                },
                None => {
                    proof {
                        assert(has_prefix(ls[i as int], key@));
                    }
                    return None;
                },
            }
        }
        proof {
            let tk = ls.take(i + 1);
            assert forall|j: int|
                0 <= j < tk.len() && has_prefix(#[trigger] tk[j], key@) implies skip_bytes(
                tk[j],
                16,
            ) is Some by {
                if j < i {
                    assert(tk[j] == ls.take(i as int)[j]);
                }
            }
        }
        i += 1;
    }
    proof {
        assert(ls.take(spans.len() as int) =~= ls);
    }
    Some(found)
}

/// The three fields of `sox --i` that the MP3 logs report, trimmed.
pub struct SoxFields {
    pub sample_rate: String,
    pub bit_depth: String,
    pub channels: String,
}

/// The MP3 encoders can read `text`: each `Sample Rate`, `Precision` and
/// `Channels` line can be cut after its label.
pub open spec fn sox_fields_ready(text: Seq<char>) -> bool {
    let ls = lines(text);
    column_ready(ls, "Sample Rate"@) && column_ready(ls, "Precision"@) && column_ready(
        ls,
        "Channels"@,
    )
}

/// Reads the sample rate, bit depth and channels that `sox --i` printed,
/// as the MP3 encoders do: the text after the label of the last line of
/// each, trimmed, or empty where there is no such line. `None` where a
/// line cannot be cut after its label (a byte slice there would panic).
pub fn read_sox_fields(info: &str) -> (r: Option<SoxFields>)
    ensures
        r is Some <==> sox_fields_ready(info@),
        r matches Some(f) ==> f.sample_rate@ == trim(column_value(lines(info@), "Sample Rate"@))
            && f.bit_depth@ == trim(column_value(lines(info@), "Precision"@)) && f.channels@
            == trim(column_value(lines(info@), "Channels"@)),
{
    let text = chars_of(info);
    let spans = line_spans(&text);
    let rate_key = chars_of("Sample Rate");
    let depth_key = chars_of("Precision");
    let channels_key = chars_of("Channels");
    let s = scan_column(&text, &spans, &rate_key);
    let b = scan_column(&text, &spans, &depth_key);
    let c = scan_column(&text, &spans, &channels_key);
    match (s, b, c) {
        (Some(s), Some(b), Some(c)) => {
            let s = trim_span(&text, s.0, s.1);
            let b = trim_span(&text, b.0, b.1);
            let c = trim_span(&text, c.0, c.1);
            Some(
                SoxFields {
                    sample_rate: substring(info, s.0, s.1),
                    bit_depth: substring(info, b.0, b.1),
                    channels: substring(info, c.0, c.1),
                },
            )
        },
        _ => None,
    }
}

/// Reads the sample rate that `sox --i` printed as the 24-bit conversion
/// does: the text after the label of the last `Sample Rate` line, not
/// trimmed (so it keeps the space after the colon), or empty. `None` where
/// a `Sample Rate` line cannot be cut after its label.
pub fn read_raw_sample_rate(info: &str) -> (r: Option<String>)
    ensures
        r is Some <==> column_ready(lines(info@), "Sample Rate"@),
        r matches Some(s) ==> s@ == column_value(lines(info@), "Sample Rate"@),
{
    let text = chars_of(info);
    let spans = line_spans(&text);
    let rate_key = chars_of("Sample Rate");
    match scan_column(&text, &spans, &rate_key) {
        Some(sp) => Some(substring(info, sp.0, sp.1)),
        None => None,
    }
}

/// The two ways a FLAC file is encoded.
#[derive(PartialEq, Eq, Structural, Clone, Copy, Debug)]
pub enum TranscodeRoute {
    /// A 24-bit file: a 16-bit copy is made and encoded.
    Downsample,
    /// Any other file is encoded as it is.
    Direct,
}

/// The route of a file from what `sox --i` printed: `Downsample` where the
/// trimmed value of its last `Precision` line is `24-bit`, `Direct` for any
/// other value or none. `None` where a `Precision` line cannot be cut after
/// its label.
pub open spec fn route_of(text: Seq<char>) -> Option<TranscodeRoute> {
    if column_ready(lines(text), "Precision"@) {
        if trim(column_value(lines(text), "Precision"@)) == "24-bit"@ {
            Some(TranscodeRoute::Downsample)
        } else {
            Some(TranscodeRoute::Direct)
        }
    } else {
        None
    }
}

pub fn transcode_route(info: &str) -> (r: Option<TranscodeRoute>)
    ensures
        r == route_of(info@),
{
    let text = chars_of(info);
    let spans = line_spans(&text);
    let depth_key = chars_of("Precision");
    match scan_column(&text, &spans, &depth_key) {
        Some(sp) => {
            let t = trim_span(&text, sp.0, sp.1);
            let depth = substring(info, t.0, t.1);
            if same_text(depth.as_str(), "24-bit") {
                Some(TranscodeRoute::Downsample)
            } else {
                Some(TranscodeRoute::Direct)
            }
        },
        None => None,
    }
}

// ---------------------------------------------------------------- file names

/// `path` without its `.flac` endings (`trim_end_matches(".flac")`).
pub open spec fn flac_stem(path: Seq<char>) -> Seq<char> {
    strip_suffixes(path, ".flac"@)
}

fn stem_of(flac_file: &str) -> (r: String)
    ensures
        r@ == flac_stem(flac_file@),
{
    let text = chars_of(flac_file);
    let key = chars_of(".flac");
    let end = strip_suffixes_end(&text, 0, text.len(), &key);
    proof {
        assert(span_text(text@, 0, text@.len() as int) =~= text@);
    }
    substring(flac_file, 0, end)
}

/// The 16-bit copy of a 24-bit FLAC file: `<stem>_16.flac`.
pub fn downsampled_flac_path(flac_file: &str) -> (r: String)
    ensures
        r@ == flac_stem(flac_file@) + "_16.flac"@,
{
    let mut r = stem_of(flac_file);
    r.append("_16.flac");
    r
}

/// The MP3 file made from a FLAC file: `<stem>.mp3`.
pub fn mp3_path(flac_file: &str) -> (r: String)
    ensures
        r@ == flac_stem(flac_file@) + ".mp3"@,
{
    let mut r = stem_of(flac_file);
    r.append(".mp3");
    r
}

/// The transcoding logs of a folder.
#[derive(PartialEq, Eq, Structural, Clone, Copy, Debug)]
pub enum TranscodeLog {
    Cbr,
    Vbr,
    Downsample,
}

pub open spec fn log_file_name(log: TranscodeLog) -> Seq<char> {
    match log {
        TranscodeLog::Cbr => "transcoding_logcbr.txt"@,
        TranscodeLog::Vbr => "transcoding_logvbr.txt"@,
        TranscodeLog::Downsample => "transcoding_log24.txt"@,
    }
}

/// `<folder>/transcoding_log{cbr,vbr,24}.txt`.
pub fn transcoding_log_path(folder: &str, log: TranscodeLog) -> (r: String)
    ensures
        r@ == folder@ + "/"@ + log_file_name(log),
{
    let mut r = owned(folder);
    r.append("/");
    match log {
        TranscodeLog::Cbr => r.append("transcoding_logcbr.txt"),
        TranscodeLog::Vbr => r.append("transcoding_logvbr.txt"),
        TranscodeLog::Downsample => r.append("transcoding_log24.txt"),
    }
    r
}

// ---------------------------------------------------------------- 24-bit to 16-bit

/// The rates that a 24-bit file is brought down to.
#[derive(PartialEq, Eq, Structural, Clone, Copy, Debug)]
pub enum TargetRate {
    Hz44100,
    Hz48000,
}

pub open spec fn rate_text(rate: TargetRate) -> Seq<char> {
    match rate {
        TargetRate::Hz44100 => "44100"@,
        TargetRate::Hz48000 => "48000"@,
    }
}

/// The rate that a sample rate (as the 24-bit conversion reads it, with its
/// leading space) is brought down to: 44.1 kHz for 44.1, 88.2 and 176.4
/// kHz, 48 kHz for 48, 96 and 192 kHz, none for any other text.
pub open spec fn downsample_target(sample_rate: Seq<char>) -> Option<TargetRate> {
    if sample_rate == " 44100"@ || sample_rate == " 88200"@ || sample_rate == " 176400"@ {
        Some(TargetRate::Hz44100)
    } else if sample_rate == " 48000"@ || sample_rate == " 96000"@ || sample_rate == " 192000"@ {
        Some(TargetRate::Hz48000)
    } else {
        None
    }
}

pub fn downsample_rate(sample_rate: &str) -> (r: Option<TargetRate>)
    ensures
        r == downsample_target(sample_rate@),
{
    if same_text(sample_rate, " 44100") || same_text(sample_rate, " 88200") || same_text(
        sample_rate,
        " 176400",
    ) {
        Some(TargetRate::Hz44100)
    } else if same_text(sample_rate, " 48000") || same_text(sample_rate, " 96000") || same_text(
        sample_rate,
        " 192000",
    ) {
        Some(TargetRate::Hz48000)
    } else {
        None
    }
}

/// The arguments of the `sox` run that writes the 16-bit copy.
pub fn downsample_args(flac_file: &str, output_flac: &str, rate: TargetRate) -> (args: Vec<String>)
    ensures
        views(args@) == seq![
            "-S"@,
            flac_file@,
            "-b"@,
            "16"@,
            output_flac@,
            "rate"@,
            "-v"@,
            "-L"@,
            rate_text(rate),
            "dither"@,
        ],
{
    let r = match rate {
        TargetRate::Hz44100 => owned("44100"),
        TargetRate::Hz48000 => owned("48000"),
    };
    let args = vec![
        owned("-S"),
        owned(flac_file),
        owned("-b"),
        owned("16"),
        owned(output_flac),
        owned("rate"),
        owned("-v"),
        owned("-L"),
        r,
        owned("dither"),
    ];
    assert(views(args@) =~= seq![
        "-S"@,
        flac_file@,
        "-b"@,
        "16"@,
        output_flac@,
        "rate"@,
        "-v"@,
        "-L"@,
        rate_text(rate),
        "dither"@,
    ]);
    args
}

/// The `sox` command line as the 24-bit log reports it.
pub open spec fn sox_command_text(input: Seq<char>, output: Seq<char>, rate: Seq<char>) -> Seq<
    char,
> {
    "Command used: sox -S '"@ + input + "' -b 16 '"@ + output + "' rate -v -L "@ + rate
        + " dither\n"@
}

fn sox_command_line(input: &str, output: &str, rate: &str) -> (r: String)
    ensures
        r@ == sox_command_text(input@, output@, rate@),
{
    let mut r = owned("Command used: sox -S '");
    r.append(input);
    r.append("' -b 16 '");
    r.append(output);
    r.append("' rate -v -L ");
    r.append(rate);
    r.append(" dither\n");
    r
}

/// The conversion line of the logs.
pub open spec fn converted_text(name: Seq<char>, rate: Seq<char>) -> Seq<char> {
    "Converted '"@ + name + "' from 24-bit to 16-bit at "@ + rate + " Hz\n"@
}

fn converted_line(name: &str, rate: &str) -> (r: String)
    ensures
        r@ == converted_text(name@, rate@),
{
    let mut r = owned("Converted '");
    r.append(name);
    r.append("' from 24-bit to 16-bit at ");
    r.append(rate);
    r.append(" Hz\n");
    r
}

/// The entry of the 24-bit log for one file, from the file names of the
/// FLAC file and of its 16-bit copy and the (untrimmed) sample rate that
/// `sox --i` printed. Where the rate is one that is converted, the entry
/// names the rate converted to (44100 or 48000) in the conversion line and
/// in the `sox` command; for any other rate it gives the conversion line
/// with the rate as printed and no command. A separator follows.
pub open spec fn downsample_log(flac_name: Seq<char>, output_name: Seq<char>, rate: Seq<char>) -> Seq<
    char,
> {
    (match downsample_target(rate) {
        Some(t) => converted_text(flac_name, rate_text(t)) + sox_command_text(
            flac_name,
            output_name,
            rate_text(t),
        ),
        None => converted_text(flac_name, rate),
    }) + "\n====================\n\n"@
}

/// The entry of the 24-bit log, from the paths of the two files; `None`
/// where one of them has no file name.
pub open spec fn downsample_log_for(flac_file: Seq<char>, output_flac: Seq<char>, rate: Seq<char>) -> Option<
    Seq<char>,
> {
    match (path_file_name(flac_file), path_file_name(output_flac)) {
        (Some(a), Some(b)) => Some(downsample_log(a, b, rate)),
        _ => None,
    }
}

pub fn downsample_log_entry(flac_file: &str, output_flac: &str, sample_rate: &str) -> (r: Option<
    String,
>)
    ensures
        match r {
            Some(e) => downsample_log_for(flac_file@, output_flac@, sample_rate@) == Some(e@),
            None => downsample_log_for(flac_file@, output_flac@, sample_rate@) is None,
        },
{
    let flac_name = match file_name(flac_file) {
        Some(n) => n,
        None => return None,
    };
    let output_name = match file_name(output_flac) {
        Some(n) => n,
        None => return None,
    };
    let mut r = match downsample_rate(sample_rate) {
        Some(t) => {
            let rate = match t {
                TargetRate::Hz44100 => owned("44100"),
                TargetRate::Hz48000 => owned("48000"),
            };
            let mut r = converted_line(flac_name.as_str(), rate.as_str());
            let c = sox_command_line(flac_name.as_str(), output_name.as_str(), rate.as_str());
            r.append(c.as_str());
            r
        },
        None => converted_line(flac_name.as_str(), sample_rate),
    };
    r.append("\n====================\n\n");
    Some(r)
}

// ---------------------------------------------------------------- MP3 encoders

/// The two MP3 encodings: LAME VBR V0 and LAME CBR 320 kbit/s.
#[derive(PartialEq, Eq, Structural, Clone, Copy, Debug)]
pub enum Mp3Mode {
    Vbr,
    Cbr,
}

/// The arguments of `sox --i` on a file.
pub fn sox_info_args(flac_file: &str) -> (args: Vec<String>)
    ensures
        views(args@) == seq!["--i"@, flac_file@],
{
    let args = vec![owned("--i"), owned(flac_file)];
    assert(views(args@) =~= seq!["--i"@, flac_file@]);
    args
}

/// The arguments of the `ffmpeg` run that decodes a FLAC file to WAV on
/// its standard output.
pub fn ffmpeg_args(flac_file: &str) -> (args: Vec<String>)
    ensures
        views(args@) == seq!["-i"@, flac_file@, "-f"@, "wav"@, "-"@],
{
    let args = vec![owned("-i"), owned(flac_file), owned("-f"), owned("wav"), owned("-")];
    assert(views(args@) =~= seq!["-i"@, flac_file@, "-f"@, "wav"@, "-"@]);
    args
}

pub open spec fn lame_option(mode: Mp3Mode) -> Seq<char> {
    match mode {
        Mp3Mode::Vbr => "-V0 --vbr-new"@,
        Mp3Mode::Cbr => "-b 320"@,
    }
}

/// The arguments of the `lame` run that encodes WAV from its standard input
/// (the option string is passed to `lame` as one argument).
pub fn lame_args(mode: Mp3Mode, output_mp3: &str) -> (args: Vec<String>)
    ensures
        views(args@) == seq![lame_option(mode), "-"@, output_mp3@],
{
    let o = match mode {
        Mp3Mode::Vbr => owned("-V0 --vbr-new"),
        Mp3Mode::Cbr => owned("-b 320"),
    };
    let args = vec![o, owned("-"), owned(output_mp3)];
    assert(views(args@) =~= seq![lame_option(mode), "-"@, output_mp3@]);
    args
}

/// The folder that the MP3 files of a mode are moved to.
pub open spec fn mp3_folder_name(mode: Mp3Mode) -> Seq<char> {
    match mode {
        Mp3Mode::Vbr => "mp3_vbr"@,
        Mp3Mode::Cbr => "mp3_cbr"@,
    }
}

pub fn mp3_folder(mode: Mp3Mode) -> (r: String)
    ensures
        r@ == mp3_folder_name(mode),
{
    match mode {
        Mp3Mode::Vbr => owned("mp3_vbr"),
        Mp3Mode::Cbr => owned("mp3_cbr"),
    }
}

/// The log that the MP3 files of a mode are reported in.
pub open spec fn mp3_log_kind(mode: Mp3Mode) -> TranscodeLog {
    match mode {
        Mp3Mode::Vbr => TranscodeLog::Vbr,
        Mp3Mode::Cbr => TranscodeLog::Cbr,
    }
}

pub fn mp3_log(mode: Mp3Mode) -> (r: TranscodeLog)
    ensures
        r == mp3_log_kind(mode),
{
    match mode {
        Mp3Mode::Vbr => TranscodeLog::Vbr,
        Mp3Mode::Cbr => TranscodeLog::Cbr,
    }
}

/// The `freq` texts for which the MP3 logs repeat the `sox` command of a
/// 24-bit conversion: the rates of the conversion table, with the leading
/// space that the conversion reads them with or without it.
pub open spec fn freq_listed(freq: Seq<char>) -> bool {
    downsample_target(freq) is Some || downsample_target(" "@ + freq) is Some
}

fn is_freq_listed(freq: &str) -> (r: bool)
    ensures
        r == freq_listed(freq@),
{
    let mut spaced = owned(" ");
    spaced.append(freq);
    downsample_rate(freq).is_some() || downsample_rate(spaced.as_str()).is_some()
}

pub open spec fn transcoded_text(mode: Mp3Mode) -> Seq<char> {
    match mode {
        Mp3Mode::Vbr => "Transcoded to: MP3 VBR 0\n"@,
        Mp3Mode::Cbr => "Transcoded to: MP3 CBR 320\n"@,
    }
}

/// The fields part of an MP3 log entry.
pub open spec fn mp3_fields_text(
    mode: Mp3Mode,
    flac_name: Seq<char>,
    sample_rate: Seq<char>,
    bit_depth: Seq<char>,
    channels: Seq<char>,
) -> Seq<char> {
    "File: '"@ + flac_name + "'\n"@ + "Sample Rate: "@ + sample_rate + "\n"@ + "Bit Depth: "@
        + bit_depth + "\n"@ + "Original Codec: FLAC\n"@ + transcoded_text(mode) + "Channels: "@
        + channels + "\n"@
}

/// The part of an MP3 log entry that tells of a preceding 24-bit
/// conversion: the VBR log gives the sample rate and the `sox` command with
/// the FLAC and MP3 file names; the CBR log gives `freq` and the `sox`
/// command with the FLAC path and file name.
pub open spec fn mp3_conversion_text(
    mode: Mp3Mode,
    flac_file: Seq<char>,
    flac_name: Seq<char>,
    mp3_name: Seq<char>,
    sample_rate: Seq<char>,
    converted: bool,
    freq: Seq<char>,
) -> Seq<char> {
    if converted {
        "\n"@ + converted_text(
            flac_name,
            match mode {
                Mp3Mode::Vbr => sample_rate,
                Mp3Mode::Cbr => freq,
            },
        ) + (if freq_listed(freq) {
            match mode {
                Mp3Mode::Vbr => sox_command_text(flac_name, mp3_name, sample_rate),
                Mp3Mode::Cbr => sox_command_text(flac_file, flac_name, sample_rate),
            }
        } else {
            Seq::<char>::empty()
        })
    } else {
        Seq::<char>::empty()
    }
}

/// The command part of an MP3 log entry.
pub open spec fn mp3_command_text(mode: Mp3Mode, flac_name: Seq<char>, mp3_name: Seq<char>) -> Seq<
    char,
> {
    "Command used: ffmpeg -i '"@ + flac_name + "' -f wav - | lame "@ + lame_option(mode) + " - '"@
        + mp3_name + "'\n"@
}

/// The entry of the VBR or CBR log for one encoded file.
pub open spec fn mp3_log_text(
    mode: Mp3Mode,
    flac_file: Seq<char>,
    flac_name: Seq<char>,
    mp3_name: Seq<char>,
    sample_rate: Seq<char>,
    bit_depth: Seq<char>,
    channels: Seq<char>,
    converted: bool,
    freq: Seq<char>,
) -> Seq<char> {
    mp3_fields_text(mode, flac_name, sample_rate, bit_depth, channels) + mp3_conversion_text(
        mode,
        flac_file,
        flac_name,
        mp3_name,
        sample_rate,
        converted,
        freq,
    ) + mp3_command_text(mode, flac_name, mp3_name) + "\n====================\n\n"@
}

/// The entry of the VBR or CBR log, from the paths of the FLAC file and of
/// its MP3 file; `None` where one of them has no file name.
pub open spec fn mp3_log_for(
    mode: Mp3Mode,
    flac_file: Seq<char>,
    mp3_file: Seq<char>,
    sample_rate: Seq<char>,
    bit_depth: Seq<char>,
    channels: Seq<char>,
    converted: bool,
    freq: Seq<char>,
) -> Option<Seq<char>> {
    match (path_file_name(flac_file), path_file_name(mp3_file)) {
        (Some(a), Some(b)) => Some(
            mp3_log_text(mode, flac_file, a, b, sample_rate, bit_depth, channels, converted, freq),
        ),
        _ => None,
    }
}

/// The log entry that the MP3 encoder of `mode` writes for a file, after a
/// 24-bit conversion at `freq` where `converted` holds.
pub fn mp3_log_entry(
    mode: Mp3Mode,
    flac_file: &str,
    mp3_file: &str,
    fields: &SoxFields,
    converted: bool,
    freq: &str,
) -> (r: Option<String>)
    ensures
        match r {
            Some(e) => mp3_log_for(
                mode,
                flac_file@,
                mp3_file@,
                fields.sample_rate@,
                fields.bit_depth@,
                fields.channels@,
                converted,
                freq@,
            ) == Some(e@),
            None => mp3_log_for(
                mode,
                flac_file@,
                mp3_file@,
                fields.sample_rate@,
                fields.bit_depth@,
                fields.channels@,
                converted,
                freq@,
            ) is None,
        },
{
    let flac_name = match file_name(flac_file) {
        Some(n) => n,
        None => return None,
    };
    let mp3_name = match file_name(mp3_file) {
        Some(n) => n,
        None => return None,
    };
    let mut r = owned("File: '");
    r.append(flac_name.as_str());
    r.append("'\n");
    r.append("Sample Rate: ");
    r.append(fields.sample_rate.as_str());
    r.append("\n");
    r.append("Bit Depth: ");
    r.append(fields.bit_depth.as_str());
    r.append("\n");
    r.append("Original Codec: FLAC\n");
    match mode {
        Mp3Mode::Vbr => r.append("Transcoded to: MP3 VBR 0\n"),
        Mp3Mode::Cbr => r.append("Transcoded to: MP3 CBR 320\n"),
    }
    r.append("Channels: ");
    r.append(fields.channels.as_str());
    r.append("\n");
    let mut conversion = String::new();
    if converted {
        conversion.append("\n");
        assert(conversion@ =~= "\n"@);
        let line = match mode {
            Mp3Mode::Vbr => converted_line(flac_name.as_str(), fields.sample_rate.as_str()),
            Mp3Mode::Cbr => converted_line(flac_name.as_str(), freq),
        };
        conversion.append(line.as_str());
        let mut command = String::new();
        if is_freq_listed(freq) {
            command = match mode {
                Mp3Mode::Vbr => sox_command_line(
                    flac_name.as_str(),
                    mp3_name.as_str(),
                    fields.sample_rate.as_str(),
                ),
                Mp3Mode::Cbr => sox_command_line(
                    flac_file,
                    flac_name.as_str(),
                    fields.sample_rate.as_str(),
                ),
            };
        }
        let ghost before = conversion@;
        conversion.append(command.as_str());
        assert(command@.len() == 0 ==> before + command@ =~= before);
    }
    let ghost fields_part = r@;
    r.append(conversion.as_str());
    assert(conversion@.len() == 0 ==> fields_part + conversion@ =~= fields_part);
    let mut command = owned("Command used: ffmpeg -i '");
    command.append(flac_name.as_str());
    command.append("' -f wav - | lame ");
    match mode {
        Mp3Mode::Vbr => command.append("-V0 --vbr-new"),
        Mp3Mode::Cbr => command.append("-b 320"),
    }
    command.append(" - '");
    command.append(mp3_name.as_str());
    command.append("'\n");
    r.append(command.as_str());
    r.append("\n====================\n\n");
    Some(r)
}

/// The order in which the MP3 encodings of a file are made: VBR then CBR
/// from the 16-bit copy of a 24-bit file, CBR then VBR from any other file.
pub open spec fn encoding_order_of(route: TranscodeRoute) -> Seq<Mp3Mode> {
    match route {
        TranscodeRoute::Downsample => seq![Mp3Mode::Vbr, Mp3Mode::Cbr],
        TranscodeRoute::Direct => seq![Mp3Mode::Cbr, Mp3Mode::Vbr],
    }
}

/// The encodings of a file in the order they are made; each encoding is
/// made once, whichever the route.
pub fn encoding_order(route: TranscodeRoute) -> (r: Vec<Mp3Mode>)
    ensures
        r@ == encoding_order_of(route),
        r@.len() == 2,
        r@.contains(Mp3Mode::Vbr) && r@.contains(Mp3Mode::Cbr),
{
    let r = match route {
        TranscodeRoute::Downsample => vec![Mp3Mode::Vbr, Mp3Mode::Cbr],
        TranscodeRoute::Direct => vec![Mp3Mode::Cbr, Mp3Mode::Vbr],
    };
    assert(r@ =~= encoding_order_of(route));
    assert(r@[0] == Mp3Mode::Vbr || r@[1] == Mp3Mode::Vbr);
    assert(r@[0] == Mp3Mode::Cbr || r@[1] == Mp3Mode::Cbr);
    r
}

/// What is done once `lame` has finished.
#[derive(PartialEq, Eq, Structural, Clone, Copy, Debug)]
pub enum EncodeTask {
    /// Report what `lame` printed on its standard error.
    ReportFailure,
    /// Copy tags and cover art from the FLAC file to the MP3 file.
    CopyTags,
    /// Move the MP3 file into the folder of its encoding.
    MoveToFolder,
    /// Append the file's entry to the log of its encoding.
    WriteLog,
}

/// The tasks after `lame`: a report where it failed; else the tags, the
/// move, the log entry and the move again (which finds the file moved).
pub open spec fn after_lame_of(success: bool) -> Seq<EncodeTask> {
    if success {
        seq![EncodeTask::CopyTags, EncodeTask::MoveToFolder, EncodeTask::WriteLog, EncodeTask::MoveToFolder]
    } else {
        seq![EncodeTask::ReportFailure]
    }
}

pub fn after_lame(success: bool) -> (r: Vec<EncodeTask>)
    ensures
        r@ == after_lame_of(success),
{
    let r = if success {
        vec![EncodeTask::CopyTags, EncodeTask::MoveToFolder, EncodeTask::WriteLog, EncodeTask::MoveToFolder]
    } else {
        vec![EncodeTask::ReportFailure]
    };
    assert(r@ =~= after_lame_of(success));
    r
}

// ---------------------------------------------------------------- tags and cover art

/// How the cover art is brought to 500 pixels.
#[derive(PartialEq, Eq, Structural, Clone, Copy, Debug)]
pub enum CoverFit {
    /// A square cover that is not 500x500: `convert -resize 500x500`.
    Resize,
    /// Any other cover: rescaled to a width of 500, `convert -resize 500`.
    Rescale,
}

pub open spec fn cover_fit_geometry(fit: CoverFit) -> Seq<char> {
    match fit {
        CoverFit::Resize => "500x500"@,
        CoverFit::Rescale => "500"@,
    }
}

/// How the cover art is fitted, from what `identify -format "%w %h"`
/// printed: trimmed and split at spaces, the first two pieces are width and
/// height. A square cover (1:1) that is not 500x500 is resized to 500x500;
/// any other is rescaled to a width of 500. `None` where there is no
/// second piece (a width alone cannot be compared with a height).
pub open spec fn cover_fit(size: Seq<char>) -> Option<CoverFit> {
    let ps = split_char(trim(size), ' ');
    if ps.len() < 2 {
        None
    } else if ps[0] == ps[1] && ps[0] != "500"@ {
        Some(CoverFit::Resize)
    } else {
        Some(CoverFit::Rescale)
    }
}

pub fn cover_fit_for(size: &str) -> (r: Option<CoverFit>)
    ensures
        r == cover_fit(size@),
{
    let text = chars_of(size);
    proof {
        assert(span_text(text@, 0, text@.len() as int) =~= text@);
    }
    let t = trim_span(&text, 0, text.len());
    let pieces = split_spans(&text, t.0, t.1, ' ');
    if pieces.len() < 2 {
        return None;
    }
    let width = substring(size, pieces[0].0, pieces[0].1);
    if spans_equal(&text, pieces[0], pieces[1]) && !same_text(width.as_str(), "500") {
        Some(CoverFit::Resize)
    } else {
        Some(CoverFit::Rescale)
    }
}

/// The arguments of the `convert` run that fits the cover art in place.
pub fn convert_args(cover: &str, fit: CoverFit) -> (args: Vec<String>)
    ensures
        views(args@) == seq![cover@, "-resize"@, cover_fit_geometry(fit), cover@],
{
    let g = match fit {
        CoverFit::Resize => owned("500x500"),
        CoverFit::Rescale => owned("500"),
    };
    let args = vec![owned(cover), owned("-resize"), g, owned(cover)];
    assert(views(args@) =~= seq![cover@, "-resize"@, cover_fit_geometry(fit), cover@]);
    args
}

/// The `id3v2` option for a FLAC tag name, compared in lowercase; `None`
/// for the tags that are not carried over.
pub open spec fn id3_flag(key: Seq<char>) -> Option<Seq<char>> {
    if lower_equals(key, "artist"@) {
        Some("--artist"@)
    } else if lower_equals(key, "composer"@) {
        Some("--composer"@)
    } else if lower_equals(key, "album"@) {
        Some("--album"@)
    } else if lower_equals(key, "title"@) {
        Some("--song"@)
    } else if lower_equals(key, "tracknumber"@) {
        Some("--track"@)
    } else if lower_equals(key, "date"@) {
        Some("--year"@)
    } else if lower_equals(key, "genre"@) {
        Some("--genre"@)
    } else {
        None
    }
}

/// The `id3v2` option and value for one line of exported FLAC tags: the
/// name before the first `=` and all that follows it; `None` where the
/// line has no `=` or the tag is not carried over.
pub open spec fn id3_pair(line: Seq<char>) -> Option<(Seq<char>, Seq<char>)> {
    let ps = split_char(line, '=');
    if ps.len() >= 2 {
        match id3_flag(ps[0]) {
            Some(f) => Some((f, line.subrange(ps[0].len() + 1int, line.len() as int))),
            None => None,
        }
    } else {
        None
    }
}

/// The `id3v2` option and value for each line of `ls` that gives one, in order.
pub open spec fn id3_pairs(ls: Seq<Seq<char>>) -> Seq<(Seq<char>, Seq<char>)>
    decreases ls.len(),
{
    if ls.len() == 0 {
        Seq::<(Seq<char>, Seq<char>)>::empty()
    } else {
        let rest = id3_pairs(ls.drop_last());
        match id3_pair(ls.last()) {
            Some(p) => rest.push(p),
            None => rest,
        }
    }
}

pub open spec fn pair_views(v: Seq<(String, String)>) -> Seq<(Seq<char>, Seq<char>)> {
    v.map_values(|p: (String, String)| (p.0@, p.1@))
}

fn span_lower_equals(text: &Vec<char>, lo: usize, hi: usize, key: &Vec<char>) -> (r: bool)
    requires
        lo <= hi <= text.len(),
    ensures
        r == lower_equals(span_text(text@, lo as int, hi as int), key@),
{
    hi - lo == key.len() && span_has_lower_prefix(text, lo, hi, key)
}

fn id3_flag_of(text: &Vec<char>, lo: usize, hi: usize) -> (r: Option<String>)
    requires
        lo <= hi <= text.len(),
    ensures
        match r {
            Some(f) => id3_flag(span_text(text@, lo as int, hi as int)) == Some(f@),
            None => id3_flag(span_text(text@, lo as int, hi as int)) is None,
        },
{
    if span_lower_equals(text, lo, hi, &chars_of("artist")) {
        Some(owned("--artist"))
    } else if span_lower_equals(text, lo, hi, &chars_of("composer")) {
        Some(owned("--composer"))
    } else if span_lower_equals(text, lo, hi, &chars_of("album")) {
        Some(owned("--album"))
    } else if span_lower_equals(text, lo, hi, &chars_of("title")) {
        Some(owned("--song"))
    } else if span_lower_equals(text, lo, hi, &chars_of("tracknumber")) {
        Some(owned("--track"))
    } else if span_lower_equals(text, lo, hi, &chars_of("date")) {
        Some(owned("--year"))
    } else if span_lower_equals(text, lo, hi, &chars_of("genre")) {
        Some(owned("--genre"))
    } else {
        None
    }
}

/// The `id3v2` option and value for each line of the exported FLAC tags
/// that is carried over to the MP3 file, in order.
pub fn id3_tag_args(metadata: &str) -> (r: Vec<(String, String)>)
    ensures
        pair_views(r@) == id3_pairs(lines(metadata@)),
{
    let text = chars_of(metadata);
    let spans = line_spans(&text);
    let ghost ls = lines(text@);
    let mut r: Vec<(String, String)> = Vec::new();
    let mut i: usize = 0;
    while i < spans.len()
        invariant
            text@ == metadata@,
            ls == lines(text@),
            spans.len() == ls.len(),
            forall|k: int|
                0 <= k < spans.len() ==> span_ok(#[trigger] spans[k], text@.len() as int)
                    && span_text(text@, spans[k].0 as int, spans[k].1 as int) == ls[k],
            i <= spans.len(),
            pair_views(r@) == id3_pairs(ls.take(i as int)),
        decreases spans.len() - i,
    {
        let (a, b) = spans[i];
        let ghost line = ls[i as int];
        proof {
            assert(ls.take(i + 1).drop_last() =~= ls.take(i as int));
            assert(ls.take(i + 1).last() == line);
        }
        let pieces = split_spans(&text, a, b, '=');
        if pieces.len() >= 2 {
            let (k0, k1) = pieces[0];
            match id3_flag_of(&text, k0, k1) {
                Some(flag) => {
                    let value = substring(metadata, k1 + 1, b);
                    proof {
                        assert(value@ =~= line.subrange(
                            split_char(line, '=')[0].len() + 1int,
                            line.len() as int,
                        ));
                    }
                    let ghost before = r@;
                    r.push((flag, value));
                    proof {
                        assert(pair_views(r@) =~= pair_views(before).push((flag@, value@)));
                    }
                },
                None => {},
            }
        }
        i += 1;
    }
    proof {
        assert(ls.take(spans.len() as int) =~= ls);
    }
    r
}

/// The `id3v2` arguments that set one tag of an MP3 file.
pub fn id3v2_args(flag: &str, value: &str, mp3_file: &str) -> (args: Vec<String>)
    ensures
        views(args@) == seq![flag@, value@, mp3_file@],
{
    let args = vec![owned(flag), owned(value), owned(mp3_file)];
    assert(views(args@) =~= seq![flag@, value@, mp3_file@]);
    args
}

// ---------------------------------------------------------------- copying tags and cover art

/// Where the exported tags are kept while they are copied.
pub open spec fn temp_metadata_text() -> Seq<char> {
    "/tmp/metadata.txt"@
}

/// Where the exported cover art is kept while it is fitted and copied.
pub open spec fn temp_cover_text() -> Seq<char> {
    "/tmp/cover.jpg"@
}

pub fn temp_metadata_path() -> (r: String)
    ensures
        r@ == temp_metadata_text(),
{
    owned("/tmp/metadata.txt")
}

pub fn temp_cover_path() -> (r: String)
    ensures
        r@ == temp_cover_text(),
{
    owned("/tmp/cover.jpg")
}

/// A program to run, its arguments, and what is said where it cannot be
/// started.
pub struct ExternalCommand {
    pub program: String,
    pub args: Vec<String>,
    pub failure: String,
}

pub open spec fn command_is(
    c: ExternalCommand,
    program: Seq<char>,
    args: Seq<Seq<char>>,
    failure: Seq<char>,
) -> bool {
    c.program@ == program && views(c.args@) == args && c.failure@ == failure
}

/// Where the copying of tags and cover art from a FLAC file to an MP3
/// file stands.
#[derive(PartialEq, Eq, Structural, Clone, Copy, Debug)]
pub enum TagCopyStep {
    /// `metaflac` exports the tags to the temporary tag file.
    ExportTags,
    /// `id3v2` sets each exported tag that is carried over.
    ApplyTags,
    /// `metaflac` exports the cover art to the temporary picture.
    ExportPicture,
    /// `identify` prints the size of the picture.
    MeasureCover,
    /// `convert` fits the picture in place.
    FitCover(CoverFit),
    /// Whether the picture exists is looked at.
    CheckCover,
    /// `mid3v2` attaches the picture to the MP3 file.
    AttachCover,
    /// Both temporary files are removed.
    CleanUp,
    Done,
}

/// What happened at a step.
#[derive(PartialEq, Eq, Structural, Clone, Copy, Debug)]
pub enum TagCopyEvent {
    /// The step's command finished, with success or not.
    Exited(bool),
    /// The tags were set.
    TagsApplied,
    /// The size of the picture was read as this fit.
    Measured(CoverFit),
    /// The picture exists or not.
    CoverFound(bool),
    /// The temporary files were removed.
    CleanedUp,
}

/// The next step after `event` at `step`, with the text that reports a
/// failed command (followed by what it printed on its standard error);
/// `None` where the step does not take that event. A failed tag export
/// ends the copy at once (the temporary files are left); a failed picture
/// export skips the fitting; the picture is attached where it exists.
pub open spec fn tag_copy_next(step: TagCopyStep, event: TagCopyEvent) -> Option<
    (TagCopyStep, Option<Seq<char>>),
> {
    match (step, event) {
        (TagCopyStep::ExportTags, TagCopyEvent::Exited(ok)) => if ok {
            Some((TagCopyStep::ApplyTags, None))
        } else {
            Some((TagCopyStep::Done, Some("Error extracting tags from FLAC"@)))
        },
        (TagCopyStep::ApplyTags, TagCopyEvent::TagsApplied) => Some(
            (TagCopyStep::ExportPicture, None),
        ),
        (TagCopyStep::ExportPicture, TagCopyEvent::Exited(ok)) => if ok {
            Some((TagCopyStep::MeasureCover, None))
        } else {
            Some((TagCopyStep::CheckCover, Some("Error extracting cover art"@)))
        },
        (TagCopyStep::MeasureCover, TagCopyEvent::Measured(fit)) => Some(
            (TagCopyStep::FitCover(fit), None),
        ),
        (TagCopyStep::FitCover(fit), TagCopyEvent::Exited(ok)) => if ok {
            Some((TagCopyStep::CheckCover, None))
        } else {
            Some(
                (
                    TagCopyStep::CheckCover,
                    Some(
                        match fit {
                            CoverFit::Resize => "Error resizing cover art"@,
                            CoverFit::Rescale => "Error rescaling cover art"@,
                        },
                    ),
                ),
            )
        },
        (TagCopyStep::CheckCover, TagCopyEvent::CoverFound(found)) => if found {
            Some((TagCopyStep::AttachCover, None))
        } else {
            Some((TagCopyStep::CleanUp, None))
        },
        (TagCopyStep::AttachCover, TagCopyEvent::Exited(ok)) => if ok {
            Some((TagCopyStep::CleanUp, None))
        } else {
            Some((TagCopyStep::CleanUp, Some("Error adding cover art"@)))
        },
        (TagCopyStep::CleanUp, TagCopyEvent::CleanedUp) => Some((TagCopyStep::Done, None)),
        _ => None,
    }
}

pub open spec fn report_view(r: Option<String>) -> Option<Seq<char>> {
    match r {
        Some(m) => Some(m@),
        None => None,
    }
}

/// The next step of the copy, and the report of a failed command.
pub fn next_tag_copy_step(step: TagCopyStep, event: TagCopyEvent) -> (r: Option<
    (TagCopyStep, Option<String>),
>)
    ensures
        match r {
            Some((next, report)) => tag_copy_next(step, event) == Some((next, report_view(report))),
            None => tag_copy_next(step, event) is None,
        },
{
    match (step, event) {
        (TagCopyStep::ExportTags, TagCopyEvent::Exited(ok)) => if ok {
            Some((TagCopyStep::ApplyTags, None))
        } else {
            Some((TagCopyStep::Done, Some(owned("Error extracting tags from FLAC"))))
        },
        (TagCopyStep::ApplyTags, TagCopyEvent::TagsApplied) => Some(
            (TagCopyStep::ExportPicture, None),
        ),
        (TagCopyStep::ExportPicture, TagCopyEvent::Exited(ok)) => if ok {
            Some((TagCopyStep::MeasureCover, None))
        } else {
            Some((TagCopyStep::CheckCover, Some(owned("Error extracting cover art"))))
        },
        (TagCopyStep::MeasureCover, TagCopyEvent::Measured(fit)) => Some(
            (TagCopyStep::FitCover(fit), None),
        ),
        (TagCopyStep::FitCover(fit), TagCopyEvent::Exited(ok)) => if ok {
            Some((TagCopyStep::CheckCover, None))
        } else {
            match fit {
                CoverFit::Resize => Some(
                    (TagCopyStep::CheckCover, Some(owned("Error resizing cover art"))),
                ),
                CoverFit::Rescale => Some(
                    (TagCopyStep::CheckCover, Some(owned("Error rescaling cover art"))),
                ),
            }
        },
        (TagCopyStep::CheckCover, TagCopyEvent::CoverFound(found)) => if found {
            Some((TagCopyStep::AttachCover, None))
        } else {
            Some((TagCopyStep::CleanUp, None))
        },
        (TagCopyStep::AttachCover, TagCopyEvent::Exited(ok)) => if ok {
            Some((TagCopyStep::CleanUp, None))
        } else {
            Some((TagCopyStep::CleanUp, Some(owned("Error adding cover art"))))
        },
        (TagCopyStep::CleanUp, TagCopyEvent::CleanedUp) => Some((TagCopyStep::Done, None)),
        _ => None,
    }
}

/// The command that a step runs, if it runs one.
pub open spec fn tag_copy_command_is(
    step: TagCopyStep,
    flac_file: Seq<char>,
    mp3_file: Seq<char>,
    c: Option<ExternalCommand>,
) -> bool {
    match step {
        TagCopyStep::ExportTags => c matches Some(c) && command_is(
            c,
            "metaflac"@,
            seq!["--export-tags-to"@, temp_metadata_text(), flac_file],
            "Failed to extract FLAC tags"@,
        ),
        TagCopyStep::ExportPicture => c matches Some(c) && command_is(
            c,
            "metaflac"@,
            seq!["--export-picture-to"@, temp_cover_text(), flac_file],
            "Failed to extract cover art"@,
        ),
        TagCopyStep::MeasureCover => c matches Some(c) && command_is(
            c,
            "identify"@,
            seq!["-format"@, "%w %h"@, temp_cover_text()],
            "Failed to get cover art size"@,
        ),
        TagCopyStep::FitCover(fit) => c matches Some(c) && command_is(
            c,
            "convert"@,
            seq![temp_cover_text(), "-resize"@, cover_fit_geometry(fit), temp_cover_text()],
            match fit {
                CoverFit::Resize => "Failed to resize cover art"@,
                CoverFit::Rescale => "Failed to rescale cover art"@,
            },
        ),
        TagCopyStep::AttachCover => c matches Some(c) && command_is(
            c,
            "mid3v2"@,
            seq!["-p"@, temp_cover_text(), mp3_file],
            "Failed to add cover art to MP3"@,
        ),
        _ => c is None,
    }
}

pub fn tag_copy_command(step: TagCopyStep, flac_file: &str, mp3_file: &str) -> (r: Option<
    ExternalCommand,
>)
    ensures
        tag_copy_command_is(step, flac_file@, mp3_file@, r),
{
    match step {
        TagCopyStep::ExportTags => {
            let args = vec![owned("--export-tags-to"), temp_metadata_path(), owned(flac_file)];
            assert(views(args@) =~= seq!["--export-tags-to"@, temp_metadata_text(), flac_file@]);
            Some(
                ExternalCommand {
                    program: owned("metaflac"),
                    args,
                    failure: owned("Failed to extract FLAC tags"),
                },
            )
        },
        TagCopyStep::ExportPicture => {
            let args = vec![owned("--export-picture-to"), temp_cover_path(), owned(flac_file)];
            assert(views(args@) =~= seq!["--export-picture-to"@, temp_cover_text(), flac_file@]);
            Some(
                ExternalCommand {
                    program: owned("metaflac"),
                    args,
                    failure: owned("Failed to extract cover art"),
                },
            )
        },
        TagCopyStep::MeasureCover => {
            let args = vec![owned("-format"), owned("%w %h"), temp_cover_path()];
            assert(views(args@) =~= seq!["-format"@, "%w %h"@, temp_cover_text()]);
            Some(
                ExternalCommand {
                    program: owned("identify"),
                    args,
                    failure: owned("Failed to get cover art size"),
                },
            )
        },
        TagCopyStep::FitCover(fit) => {
            let cover = temp_cover_path();
            let args = convert_args(cover.as_str(), fit);
            let failure = match fit {
                CoverFit::Resize => owned("Failed to resize cover art"),
                CoverFit::Rescale => owned("Failed to rescale cover art"),
            };
            Some(ExternalCommand { program: owned("convert"), args, failure })
        },
        TagCopyStep::AttachCover => {
            let args = vec![owned("-p"), temp_cover_path(), owned(mp3_file)];
            assert(views(args@) =~= seq!["-p"@, temp_cover_text(), mp3_file@]);
            Some(
                ExternalCommand {
                    program: owned("mid3v2"),
                    args,
                    failure: owned("Failed to add cover art to MP3"),
                },
            )
        },
        _ => None,
    }
}

// ---------------------------------------------------------------- laws

/// Law: the readers of `sox --i` agree. On the summary that `sox --i`
/// prints, the MP3 encoders can read every field, the 24-bit conversion
/// reads the sample rate with the space after the colon, and trimmed, the
/// fields are the ones that `get_info_from_flac` reads.
pub proof fn lemma_sox_readers_agree(channels: Seq<char>, rate: Seq<char>, precision: Seq<char>)
    requires
        sox_value_ok(channels),
        sox_value_ok(rate),
        sox_value_ok(precision),
    ensures
        sox_fields_ready(sox_summary(channels, rate, precision)),
        column_value(lines(sox_summary(channels, rate, precision)), "Sample Rate"@) == seq![' ']
            + rate,
        sox_info(sox_summary(channels, rate, precision)) == Some(
            (
                trim(column_value(lines(sox_summary(channels, rate, precision)), "Channels"@)),
                trim(column_value(lines(sox_summary(channels, rate, precision)), "Sample Rate"@)),
                trim(column_value(lines(sox_summary(channels, rate, precision)), "Precision"@)),
            ),
        ),
{
    lemma_sox_summary_lines(channels, rate, precision);
    lemma_sox_info_read_back(channels, rate, precision);
    let l1 = "Channels       : "@ + channels;
    let l2 = "Sample Rate    : "@ + rate;
    let l3 = "Precision      : "@ + precision;
    let ls = lines(sox_summary(channels, rate, precision));
    assert forall|key: Seq<char>| #![trigger column_ready(ls, key)] column_ready(ls, key) by {
        assert forall|i: int| 0 <= i < ls.len() && has_prefix(#[trigger] ls[i], key) implies skip_bytes(
            ls[i],
            16,
        ) is Some by {
            if i == 0 {
                assert(ls[i] == l1);
            } else if i == 1 {
                assert(ls[i] == l2);
            } else {
                assert(ls[i] == l3);
            }
        }
    }
    assert(column_ready(ls, "Sample Rate"@));
    assert(column_ready(ls, "Precision"@));
    assert(column_ready(ls, "Channels"@));
    assert(is_space(' '));
    assert((seq![' '] + channels).drop_first() =~= channels);
    assert((seq![' '] + rate).drop_first() =~= rate);
    assert((seq![' '] + precision).drop_first() =~= precision);
    assert(trim_start(seq![' '] + channels) == trim_start(channels));
    assert(trim_start(seq![' '] + rate) == trim_start(rate));
    assert(trim_start(seq![' '] + precision) == trim_start(precision));
}

/// Law: once stripped of its `.flac` endings, a path has none left, so
/// stripping again changes nothing.
pub proof fn lemma_flac_stem_idempotent(path: Seq<char>)
    ensures
        !has_suffix(flac_stem(path), ".flac"@),
        flac_stem(flac_stem(path)) == flac_stem(path),
{
    reveal_strlit(".flac");
    lemma_strip_suffixes_done(path, ".flac"@);
}

/// Law: the MP3 files of a 24-bit file are made from its 16-bit copy
/// `<stem>_16.flac`, and so are named `<stem>_16.mp3`.
pub proof fn lemma_downsampled_mp3_name(flac_file: Seq<char>)
    ensures
        flac_stem(flac_stem(flac_file) + "_16.flac"@) + ".mp3"@ == flac_stem(flac_file)
            + "_16.mp3"@,
{
    reveal_strlit(".flac");
    reveal_strlit("_16.flac");
    reveal_strlit(".mp3");
    reveal_strlit("_16.mp3");
    let x = flac_stem(flac_file);
    let y = x + "_16.flac"@;
    let z = x + seq!['_', '1', '6'];
    assert(has_suffix(y, ".flac"@)) by {
        assert(y.subrange(y.len() - 5, y.len() as int) =~= ".flac"@);
    }
    assert(y.subrange(0, y.len() - 5) =~= z);
    assert(!has_suffix(z, ".flac"@)) by {
        if z.len() >= 5 {
            assert(z.subrange(z.len() - 5, z.len() as int)[4] != ".flac"@[4]);
        }
    }
    assert(strip_suffixes(z, ".flac"@) == z);
    assert(strip_suffixes(y, ".flac"@) == z);
    assert(z + ".mp3"@ =~= x + "_16.mp3"@);
}

/// Law: for a 24-bit file whose rate is converted, the MP3 logs tell of the
/// conversion with its `sox` command, whichever family the rate is of.
pub proof fn lemma_mp3_logs_tell_conversion(rate: Seq<char>)
    requires
        downsample_target(rate) is Some,
    ensures
        freq_listed(rate),
{
}

proof fn lemma_id3_pairs_concat(x: Seq<Seq<char>>, y: Seq<Seq<char>>)
    ensures
        id3_pairs(x + y) == id3_pairs(x) + id3_pairs(y),
    decreases y.len(),
{
    if y.len() == 0 {
        assert(x + y =~= x);
        assert(id3_pairs(x) + id3_pairs(y) =~= id3_pairs(x));
    } else {
        lemma_id3_pairs_concat(x, y.drop_last());
        assert((x + y).drop_last() =~= x + y.drop_last());
        assert((x + y).last() == y.last());
        match id3_pair(y.last()) {
            Some(p) => {
                assert(id3_pairs(x) + id3_pairs(y.drop_last()).push(p) =~= (id3_pairs(x)
                    + id3_pairs(y.drop_last())).push(p));
            },
            None => {},
        }
    }
}

/// Law: the tags of two exports joined by a newline are set as those of
/// the first, then those of the second; each line is taken on its own, in
/// order, and an empty export sets none.
pub proof fn lemma_id3_pairs_join(a: Seq<char>, b: Seq<char>)
    requires
        !(a.len() > 0 && a.last() == '\r'),
    ensures
        id3_pairs(lines(a + seq!['\n'] + b)) == id3_pairs(lines(a)) + id3_pairs(lines(b)),
        id3_pairs(lines(Seq::<char>::empty())) == Seq::<(Seq<char>, Seq<char>)>::empty(),
{
    lemma_lines_concat(a, b);
    lemma_split_char_last(a, '\n');
    let pa = split_char(a, '\n');
    let e1 = Seq::new(pa.len(), |i: int| strip_cr(pa[i]));
    let ea = Seq::new((pa.len() - 1) as nat, |i: int| strip_cr(pa[i]));
    assert(strip_cr(pa.last()) == pa.last());
    assert(e1 =~= ea.push(pa.last()));
    lemma_id3_pairs_concat(e1, lines(b));
    if pa.last().len() == 0 {
        assert(lines(a) == ea);
        assert(e1.drop_last() =~= ea);
        assert(split_char(pa.last(), '=') =~= seq![Seq::<char>::empty()]);
        assert(id3_pair(pa.last()) is None);
        assert(id3_pairs(e1) == id3_pairs(ea));
    } else {
        assert(lines(a) == e1);
    }
    lemma_split_char_nonempty(Seq::<char>::empty(), '\n');
    assert(split_char(Seq::<char>::empty(), '\n') =~= seq![Seq::<char>::empty()]);
    assert(lines(Seq::<char>::empty()) =~= Seq::<Seq<char>>::empty());
}

/// Law: any precision other than `24-bit`, or none, takes the direct route,
/// CBR then VBR from the file as it is, whatever its value.
pub proof fn lemma_non_24_bit_is_direct(t1: Seq<char>, t2: Seq<char>)
    requires
        column_ready(lines(t1), "Precision"@),
        column_ready(lines(t2), "Precision"@),
        trim(column_value(lines(t1), "Precision"@)) != "24-bit"@,
        trim(column_value(lines(t2), "Precision"@)) != "24-bit"@,
    ensures
        route_of(t1) == Some(TranscodeRoute::Direct),
        route_of(t2) == route_of(t1),
        encoding_order_of(TranscodeRoute::Direct) == seq![Mp3Mode::Cbr, Mp3Mode::Vbr],
{
}

/// Law: once the tags are exported, the copy reaches the clean-up of the
/// temporary files before it ends: no other step ends it. Only a failed
/// tag export ends it at once.
pub proof fn lemma_tag_copy_cleans_up(step: TagCopyStep, event: TagCopyEvent)
    requires
        tag_copy_next(step, event) is Some,
    ensures
        (tag_copy_next(step, event)->0).0 == TagCopyStep::Done ==> step == TagCopyStep::CleanUp || (
        step == TagCopyStep::ExportTags && event == TagCopyEvent::Exited(false)),
        step == TagCopyStep::CheckCover ==> ((tag_copy_next(step, event)->0).0
            == TagCopyStep::AttachCover <==> event == TagCopyEvent::CoverFound(true)),
{
}

/// Law: the route is decided by the precision alone. Where every
/// `Precision` line can be cut after its label, a trimmed value of
/// `24-bit` takes the 16-bit copy (whatever the sample rate and the other
/// lines), any other value the direct route; two outputs with the same
/// precision take the same route; where a `Precision` line cannot be cut,
/// there is no route.
pub proof fn lemma_route_by_precision(t1: Seq<char>, t2: Seq<char>)
    ensures
        column_ready(lines(t1), "Precision"@) && trim(column_value(lines(t1), "Precision"@))
            == "24-bit"@ ==> route_of(t1) == Some(TranscodeRoute::Downsample),
        column_ready(lines(t1), "Precision"@) && trim(column_value(lines(t1), "Precision"@))
            != "24-bit"@ ==> route_of(t1) == Some(TranscodeRoute::Direct),
        !column_ready(lines(t1), "Precision"@) ==> route_of(t1) is None,
        column_ready(lines(t1), "Precision"@) && column_ready(lines(t2), "Precision"@) && trim(
            column_value(lines(t1), "Precision"@),
        ) == trim(column_value(lines(t2), "Precision"@)) ==> route_of(t1) == route_of(t2),
{
}

/// Law: the steps of the copy of tags and cover art. A successful tag
/// export is followed by setting the tags, then the picture export; a
/// successful picture export by measuring the cover, then fitting it as
/// measured, then looking for it; a found cover is attached; every run that
/// got past the tag export ends with the clean-up. The failures report and
/// go on as the step function says: a failed tag export ends the copy, a
/// failed picture export skips the fitting, a failed fit or attachment is
/// reported and the copy goes on.
pub proof fn lemma_tag_copy_steps(fit: CoverFit)
    ensures
        tag_copy_next(TagCopyStep::ExportTags, TagCopyEvent::Exited(true)) == Some(
            (TagCopyStep::ApplyTags, None::<Seq<char>>),
        ),
        tag_copy_next(TagCopyStep::ExportTags, TagCopyEvent::Exited(false)) == Some(
            (TagCopyStep::Done, Some("Error extracting tags from FLAC"@)),
        ),
        tag_copy_next(TagCopyStep::ApplyTags, TagCopyEvent::TagsApplied) == Some(
            (TagCopyStep::ExportPicture, None::<Seq<char>>),
        ),
        tag_copy_next(TagCopyStep::ExportPicture, TagCopyEvent::Exited(true)) == Some(
            (TagCopyStep::MeasureCover, None::<Seq<char>>),
        ),
        tag_copy_next(TagCopyStep::ExportPicture, TagCopyEvent::Exited(false)) == Some(
            (TagCopyStep::CheckCover, Some("Error extracting cover art"@)),
        ),
        tag_copy_next(TagCopyStep::MeasureCover, TagCopyEvent::Measured(fit)) == Some(
            (TagCopyStep::FitCover(fit), None::<Seq<char>>),
        ),
        tag_copy_next(TagCopyStep::FitCover(fit), TagCopyEvent::Exited(true)) == Some(
            (TagCopyStep::CheckCover, None::<Seq<char>>),
        ),
        (tag_copy_next(TagCopyStep::FitCover(fit), TagCopyEvent::Exited(false))->0).0
            == TagCopyStep::CheckCover,
        (tag_copy_next(TagCopyStep::FitCover(fit), TagCopyEvent::Exited(false))->0).1 is Some,
        tag_copy_next(TagCopyStep::CheckCover, TagCopyEvent::CoverFound(true)) == Some(
            (TagCopyStep::AttachCover, None::<Seq<char>>),
        ),
        tag_copy_next(TagCopyStep::CheckCover, TagCopyEvent::CoverFound(false)) == Some(
            (TagCopyStep::CleanUp, None::<Seq<char>>),
        ),
        tag_copy_next(TagCopyStep::AttachCover, TagCopyEvent::Exited(true)) == Some(
            (TagCopyStep::CleanUp, None::<Seq<char>>),
        ),
        tag_copy_next(TagCopyStep::AttachCover, TagCopyEvent::Exited(false)) == Some(
            (TagCopyStep::CleanUp, Some("Error adding cover art"@)),
        ),
        tag_copy_next(TagCopyStep::CleanUp, TagCopyEvent::CleanedUp) == Some(
            (TagCopyStep::Done, None::<Seq<char>>),
        ),
{
}

/// Law: the fixed names and options of the pipeline. The logs are
/// `transcoding_logcbr.txt`, `transcoding_logvbr.txt` and
/// `transcoding_log24.txt`; VBR files go to `mp3_vbr` and its log, CBR files
/// to `mp3_cbr` and its log; `lame` runs with `-V0 --vbr-new` or `-b 320`;
/// the rates converted to are 44100 and 48000; a 24-bit file is encoded VBR
/// then CBR, any other CBR then VBR; after a successful `lame` run the tags
/// are copied, the file moved, the log written and the move repeated, after
/// a failed one the failure is reported and nothing else done; a square
/// cover is resized to `500x500`, any other to a width of `500`; the
/// temporary files are `/tmp/metadata.txt` and `/tmp/cover.jpg`.
pub proof fn lemma_fixed_names()
    ensures
        log_file_name(TranscodeLog::Cbr) == "transcoding_logcbr.txt"@,
        log_file_name(TranscodeLog::Vbr) == "transcoding_logvbr.txt"@,
        log_file_name(TranscodeLog::Downsample) == "transcoding_log24.txt"@,
        mp3_folder_name(Mp3Mode::Vbr) == "mp3_vbr"@,
        mp3_folder_name(Mp3Mode::Cbr) == "mp3_cbr"@,
        mp3_log_kind(Mp3Mode::Vbr) == TranscodeLog::Vbr,
        mp3_log_kind(Mp3Mode::Cbr) == TranscodeLog::Cbr,
        lame_option(Mp3Mode::Vbr) == "-V0 --vbr-new"@,
        lame_option(Mp3Mode::Cbr) == "-b 320"@,
        rate_text(TargetRate::Hz44100) == "44100"@,
        rate_text(TargetRate::Hz48000) == "48000"@,
        encoding_order_of(TranscodeRoute::Downsample) == seq![Mp3Mode::Vbr, Mp3Mode::Cbr],
        encoding_order_of(TranscodeRoute::Direct) == seq![Mp3Mode::Cbr, Mp3Mode::Vbr],
        after_lame_of(true) == seq![
            EncodeTask::CopyTags,
            EncodeTask::MoveToFolder,
            EncodeTask::WriteLog,
            EncodeTask::MoveToFolder,
        ],
        after_lame_of(false) == seq![EncodeTask::ReportFailure],
        cover_fit_geometry(CoverFit::Resize) == "500x500"@,
        cover_fit_geometry(CoverFit::Rescale) == "500"@,
        temp_metadata_text() == "/tmp/metadata.txt"@,
        temp_cover_text() == "/tmp/cover.jpg"@,
{
}

/// Law: the conversion table. 44.1, 88.2 and 176.4 kHz (as `sox --i`
/// prints them, after the space that follows the colon) are converted to
/// 44.1 kHz, 48, 96 and 192 kHz to 48 kHz, and no other rate is converted.
pub proof fn lemma_downsample_table(rate: Seq<char>)
    ensures
        downsample_target(" 44100"@) == Some(TargetRate::Hz44100),
        downsample_target(" 88200"@) == Some(TargetRate::Hz44100),
        downsample_target(" 176400"@) == Some(TargetRate::Hz44100),
        downsample_target(" 48000"@) == Some(TargetRate::Hz48000),
        downsample_target(" 96000"@) == Some(TargetRate::Hz48000),
        downsample_target(" 192000"@) == Some(TargetRate::Hz48000),
        downsample_target(rate) is Some ==> rate == " 44100"@ || rate == " 88200"@ || rate
            == " 176400"@ || rate == " 48000"@ || rate == " 96000"@ || rate == " 192000"@,
        freq_listed(" 44100"@) && freq_listed(" 88200"@) && freq_listed(" 176400"@),
        freq_listed(" 48000"@) && freq_listed(" 96000"@) && freq_listed(" 192000"@),
{
    reveal_strlit(" 44100");
    reveal_strlit(" 88200");
    reveal_strlit(" 176400");
    reveal_strlit(" 48000");
    reveal_strlit(" 96000");
    reveal_strlit(" 192000");
    assert(" 44100"@ != " 48000"@) by {
        assert(" 44100"@[2] != " 48000"@[2]);
    }
    assert(" 44100"@ != " 96000"@) by {
        assert(" 44100"@[1] != " 96000"@[1]);
    }
    assert(" 44100"@ != " 192000"@) by {
        assert(" 44100"@.len() != " 192000"@.len());
    }
    assert(" 88200"@ != " 48000"@) by {
        assert(" 88200"@[1] != " 48000"@[1]);
    }
    assert(" 88200"@ != " 96000"@) by {
        assert(" 88200"@[1] != " 96000"@[1]);
    }
    assert(" 88200"@ != " 192000"@) by {
        assert(" 88200"@.len() != " 192000"@.len());
    }
    assert(" 176400"@ != " 48000"@) by {
        assert(" 176400"@.len() != " 48000"@.len());
    }
    assert(" 176400"@ != " 96000"@) by {
        assert(" 176400"@.len() != " 96000"@.len());
    }
    assert(" 176400"@ != " 192000"@) by {
        assert(" 176400"@[2] != " 192000"@[2]);
    }
}

/// Law: a path that does not end with `.flac` is its own stem, and adding
/// `.flac` to a path does not change its stem: the stem is the path with
/// all its `.flac` endings, and nothing else, taken off.
pub proof fn lemma_flac_stem_strips_endings(path: Seq<char>)
    ensures
        !has_suffix(path, ".flac"@) ==> flac_stem(path) == path,
        flac_stem(path + ".flac"@) == flac_stem(path),
{
    reveal_strlit(".flac");
    let q = path + ".flac"@;
    assert(has_suffix(q, ".flac"@)) by {
        assert(q.subrange(q.len() - 5, q.len() as int) =~= ".flac"@);
    }
    assert(q.subrange(0, q.len() - 5) =~= path);
}

/// The line `key=value`, for a key without `=`, gives the flag of its key
/// and all of `value`.
proof fn lemma_id3_line(k: Seq<char>, v: Seq<char>)
    requires
        !k.contains('='),
    ensures
        id3_pair(k + seq!['='] + v) == match id3_flag(k) {
            Some(f) => Some((f, v)),
            None => None::<(Seq<char>, Seq<char>)>,
        },
{
    let line = k + seq!['='] + v;
    lemma_split_char_concat(k, v, '=');
    lemma_split_char_none(k, '=');
    lemma_split_char_nonempty(v, '=');
    assert(split_char(line, '=')[0] == k);
    assert(line.subrange(k.len() + 1int, line.len() as int) =~= v);
}

/// A key whose lowercase is an ASCII word holds no `=`.
proof fn lemma_word_key(k: Seq<char>, word: Seq<char>)
    requires
        lower_equals(k, word),
        forall|i: int| 0 <= i < word.len() ==> #[trigger] word[i] != '=',
    ensures
        !k.contains('='),
{
    if k.contains('=') {
        let i = choose|i: int| 0 <= i < k.len() && k[i] == '=';
        assert(lowers_to(k[i], word[i]));
    }
}

/// Law: the tags carried over to an MP3 file, with their `id3v2` options.
/// A line `NAME=value` whose name is, in any case, `artist`, `composer`,
/// `album`, `title`, `tracknumber`, `date` or `genre` sets `--artist`,
/// `--composer`, `--album`, `--song`, `--track`, `--year` or `--genre` to
/// all that follows the first `=` (further `=` included); a line with any
/// other name sets nothing.
pub proof fn lemma_id3_flags(k: Seq<char>, v: Seq<char>)
    ensures
        lower_equals(k, "artist"@) ==> id3_pair(k + seq!['='] + v) == Some(("--artist"@, v)),
        lower_equals(k, "composer"@) ==> id3_pair(k + seq!['='] + v) == Some(("--composer"@, v)),
        lower_equals(k, "album"@) ==> id3_pair(k + seq!['='] + v) == Some(("--album"@, v)),
        lower_equals(k, "title"@) ==> id3_pair(k + seq!['='] + v) == Some(("--song"@, v)),
        lower_equals(k, "tracknumber"@) ==> id3_pair(k + seq!['='] + v) == Some(("--track"@, v)),
        lower_equals(k, "date"@) ==> id3_pair(k + seq!['='] + v) == Some(("--year"@, v)),
        lower_equals(k, "genre"@) ==> id3_pair(k + seq!['='] + v) == Some(("--genre"@, v)),
        !k.contains('=') && !lower_equals(k, "artist"@) && !lower_equals(k, "composer"@)
            && !lower_equals(k, "album"@) && !lower_equals(k, "title"@) && !lower_equals(
            k,
            "tracknumber"@,
        ) && !lower_equals(k, "date"@) && !lower_equals(k, "genre"@) ==> id3_pair(
            k + seq!['='] + v,
        ) is None,
{
    reveal_strlit("artist");
    reveal_strlit("composer");
    reveal_strlit("album");
    reveal_strlit("title");
    reveal_strlit("tracknumber");
    reveal_strlit("date");
    reveal_strlit("genre");
    let words = seq!["artist"@, "composer"@, "album"@, "title"@, "tracknumber"@, "date"@, "genre"@];
    assert forall|j: int| 0 <= j < 7 && lower_equals(k, #[trigger] words[j]) implies !k.contains('=') by {
        let w = words[j];
        assert forall|i: int| 0 <= i < w.len() implies #[trigger] w[i] != '=' by {
            if j == 0 { assert(w == "artist"@); } else if j == 1 { assert(w == "composer"@); }
            else if j == 2 { assert(w == "album"@); } else if j == 3 { assert(w == "title"@); }
            else if j == 4 { assert(w == "tracknumber"@); } else if j == 5 { assert(w == "date"@); }
            else { assert(w == "genre"@); }
        }
        lemma_word_key(k, w);
    }
    if lower_equals(k, "artist"@) {
        assert(lower_equals(k, words[0]));
        lemma_id3_line(k, v);
    }
    if lower_equals(k, "composer"@) {
        assert(lower_equals(k, words[1]));
        lemma_id3_line(k, v);
    }
    if lower_equals(k, "album"@) {
        assert(lower_equals(k, words[2]));
        lemma_id3_line(k, v);
    }
    if lower_equals(k, "title"@) {
        assert(lower_equals(k, words[3]));
        assert(lowers_to(k[0], "title"@[0]));
        assert(!lower_equals(k, "album"@)) by {
            assert(!lowers_to(k[0], "album"@[0]));
        }
        lemma_id3_line(k, v);
    }
    if lower_equals(k, "tracknumber"@) {
        assert(lower_equals(k, words[4]));
        lemma_id3_line(k, v);
    }
    if lower_equals(k, "date"@) {
        assert(lower_equals(k, words[5]));
        lemma_id3_line(k, v);
    }
    if lower_equals(k, "genre"@) {
        assert(lower_equals(k, words[6]));
        assert(lowers_to(k[0], "genre"@[0]));
        assert(!lower_equals(k, "album"@)) by {
            assert(!lowers_to(k[0], "album"@[0]));
        }
        assert(!lower_equals(k, "title"@)) by {
            assert(!lowers_to(k[0], "title"@[0]));
        }
        lemma_id3_line(k, v);
    }
    if !k.contains('=') {
        lemma_id3_line(k, v);
    }
}

/// Law: how a cover of width `w` and height `h`, as `identify` prints them
/// (`w h`), is fitted: a square cover that is not 500 wide is resized to
/// 500x500, any other is rescaled to a width of 500; a size without a
/// height gives no fit.
pub proof fn lemma_cover_fit_of_size(w: Seq<char>, h: Seq<char>)
    requires
        w.len() > 0,
        h.len() > 0,
        forall|i: int| 0 <= i < w.len() ==> !is_space(#[trigger] w[i]),
        forall|i: int| 0 <= i < h.len() ==> !is_space(#[trigger] h[i]),
    ensures
        cover_fit(w + seq![' '] + h) == Some(
            if w == h && w != "500"@ {
                CoverFit::Resize
            } else {
                CoverFit::Rescale
            },
        ),
        cover_fit(w) is None,
{
    let t = w + seq![' '] + h;
    assert(t[0] == w[0]);
    assert(t.last() == h.last());
    assert(trim_start(t) == t);
    assert(trim_end(t) == t);
    assert(!w.contains(' ')) by {
        if w.contains(' ') {
            let i = choose|i: int| 0 <= i < w.len() && w[i] == ' ';
            assert(!is_space(w[i]));
        }
    }
    assert(!h.contains(' ')) by {
        if h.contains(' ') {
            let i = choose|i: int| 0 <= i < h.len() && h[i] == ' ';
            assert(!is_space(h[i]));
        }
    }
    lemma_split_char_concat(w, h, ' ');
    lemma_split_char_none(w, ' ');
    lemma_split_char_none(h, ' ');
    assert(split_char(t, ' ') =~= seq![w, h]);
    assert(w[0] == w[0]);
    assert(trim_start(w) == w);
    assert(w.last() == w[w.len() - 1]);
    assert(trim_end(w) == w);
}

} // verus!

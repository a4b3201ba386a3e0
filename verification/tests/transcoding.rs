use lib::paths::relocation_target;
use lib::transcoding::{
    convert_args, cover_fit_for, CoverFit, downsample_args, encoding_order, downsample_log_entry, downsample_rate,
    downsampled_flac_path, ffmpeg_args, id3_tag_args, transcode_route, TranscodeRoute, lame_args, mp3_folder, mp3_log,
    mp3_log_entry, mp3_path, read_raw_sample_rate, read_sox_fields, sox_info_args,
    transcoding_log_path, Mp3Mode, SoxFields, TargetRate, TranscodeLog,
};
use std::path::Path;

fn strings(v: &[&str]) -> Vec<String> {
    v.iter().map(|s| s.to_string()).collect()
}

const SOX_24: &str = "\nInput File     : 'x.flac'\nChannels       : 2\nSample Rate    : 96000\nPrecision      : 24-bit\nDuration       : 00:01:00.00\n";

#[test]
fn sox_fields_are_trimmed_values_after_the_label() {
    let f = read_sox_fields(SOX_24).unwrap();
    assert_eq!(f.sample_rate, "96000");
    assert_eq!(f.bit_depth, "24-bit");
    assert_eq!(f.channels, "2");
}

#[test]
fn sox_fields_missing_are_empty() {
    let f = read_sox_fields("nothing here\n").unwrap();
    assert_eq!((f.sample_rate.as_str(), f.bit_depth.as_str(), f.channels.as_str()), ("", "", ""));
}

#[test]
fn sox_fields_short_label_line_is_none() {
    // slicing such a line at byte 16 would panic
    assert!(read_sox_fields("Channels : 2\n").is_none());
    assert!(read_sox_fields("Precision      \u{e9}: 24-bit\n").is_none());
    assert!(read_sox_fields("Precision      :\u{e9}24-bit\n").is_some());
}

#[test]
fn raw_sample_rate_keeps_the_space() {
    assert_eq!(read_raw_sample_rate(SOX_24), Some(" 96000".to_string()));
    assert_eq!(read_raw_sample_rate("Channels 2\n"), Some(String::new()));
    assert_eq!(read_raw_sample_rate("Sample Rate: 1\n"), None);
}

#[test]
fn bit_depth_decides_the_route() {
    assert_eq!(transcode_route(SOX_24), Some(TranscodeRoute::Downsample));
    assert_eq!(transcode_route("Precision      : 16-bit\n"), Some(TranscodeRoute::Direct));
    assert_eq!(transcode_route("Precision      : 32-bit\n"), Some(TranscodeRoute::Direct));
    assert_eq!(transcode_route("Channels : 2\n"), Some(TranscodeRoute::Direct));
    assert_eq!(transcode_route("Precision: 24\n"), None);
}

#[test]
fn sox_readers_agree_law_on_values() {
    let text = "Channels       : 2\nSample Rate    : 44100\nPrecision      : 16-bit\n";
    let f = read_sox_fields(text).unwrap();
    let info = lib::media_identification::parse_sox_info(text).unwrap();
    assert_eq!((f.channels, f.sample_rate, f.bit_depth), info);
    assert_eq!(read_raw_sample_rate(text), Some(" 44100".to_string()));
}

#[test]
fn output_names_follow_trim_end_matches() {
    for f in ["/m/a.flac", "/m/a.flac.flac", "/m/a", "/m/.flac", "a.FLAC", ""] {
        let stem = f.trim_end_matches(".flac");
        assert_eq!(downsampled_flac_path(f), format!("{}_16.flac", stem));
        assert_eq!(mp3_path(f), format!("{}.mp3", stem));
    }
    assert_eq!(downsampled_flac_path("/m/01 Song.flac"), "/m/01 Song_16.flac");
    assert_eq!(mp3_path("/m/01 Song.flac"), "/m/01 Song.mp3");
}

#[test]
fn downsampled_mp3_name_law_on_values() {
    for f in ["/m/a.flac", "a.flac.flac", "x"] {
        let stem = f.trim_end_matches(".flac");
        assert_eq!(mp3_path(&downsampled_flac_path(f)), format!("{}_16.mp3", stem));
    }
}

#[test]
fn flac_stem_idempotent_law_on_values() {
    for f in ["a.flac.flac", "b.flac", "c"] {
        let once = mp3_path(f);
        let stem = once.trim_end_matches(".mp3");
        assert_eq!(mp3_path(&format!("{}.flac", stem)), once);
    }
}

#[test]
fn downsample_rates() {
    for r in [" 44100", " 88200", " 176400"] {
        assert_eq!(downsample_rate(r), Some(TargetRate::Hz44100));
    }
    for r in [" 48000", " 96000", " 192000"] {
        assert_eq!(downsample_rate(r), Some(TargetRate::Hz48000));
    }
    for r in ["44100", " 32000", "", " 48000 "] {
        assert_eq!(downsample_rate(r), None);
    }
}

#[test]
fn downsample_arguments() {
    assert_eq!(
        downsample_args("in.flac", "in_16.flac", TargetRate::Hz48000),
        strings(&["-S", "in.flac", "-b", "16", "in_16.flac", "rate", "-v", "-L", "48000", "dither"])
    );
    assert_eq!(downsample_args("a", "b", TargetRate::Hz44100)[8], "44100");
}

// The 24-bit log entry, written line by line with `format!`: the rate
// converted to where there is one, the rate as printed where there is none.
fn reference_downsample_log(flac_file: &str, output_flac: &str, sample_rate: &str) -> String {
    let flac_file_trimmed = Path::new(flac_file).file_name().unwrap().to_str().unwrap();
    let output_flac_trimmed = Path::new(output_flac).file_name().unwrap().to_str().unwrap();
    let target = if [" 44100", " 88200", " 176400"].contains(&sample_rate) {
        Some("44100")
    } else if [" 48000", " 96000", " 192000"].contains(&sample_rate) {
        Some("48000")
    } else {
        None
    };
    let mut log_file = String::new();
    match target {
        Some(rate) => {
            log_file.push_str(&format!("Converted '{}' from 24-bit to 16-bit at {} Hz\n", flac_file_trimmed, rate));
            log_file.push_str(&format!("Command used: sox -S '{}' -b 16 '{}' rate -v -L {} dither\n", flac_file_trimmed, output_flac_trimmed, rate));
        }
        None => log_file.push_str(&format!("Converted '{}' from 24-bit to 16-bit at {} Hz\n", flac_file_trimmed, sample_rate)),
    }
    log_file.push_str("\n====================\n\n");
    log_file
}

#[test]
fn downsample_log_matches_the_line_by_line_format() {
    for rate in [" 44100", " 96000", " 192000", " 22050", ""] {
        assert_eq!(
            downsample_log_entry("/m/a.flac", "/m/a_16.flac", rate),
            Some(reference_downsample_log("/m/a.flac", "/m/a_16.flac", rate))
        );
    }
}

#[test]
fn downsample_log_names_the_rate_converted_to() {
    assert_eq!(
        downsample_log_entry("/m/a.flac", "/m/a_16.flac", " 96000").unwrap(),
        "Converted 'a.flac' from 24-bit to 16-bit at 48000 Hz\nCommand used: sox -S 'a.flac' -b 16 'a_16.flac' rate -v -L 48000 dither\n\n====================\n\n"
    );
    assert_eq!(
        downsample_log_entry("/m/a.flac", "/m/a_16.flac", " 176400").unwrap(),
        "Converted 'a.flac' from 24-bit to 16-bit at 44100 Hz\nCommand used: sox -S 'a.flac' -b 16 'a_16.flac' rate -v -L 44100 dither\n\n====================\n\n"
    );
}

#[test]
fn downsample_log_without_file_name_is_none() {
    assert_eq!(downsample_log_entry("/m/..", "/m/a_16.flac", " 44100"), None);
}

// The MP3 log entries, written line by line with `format!`.
fn reference_mp3_log(mode: Mp3Mode, flac_file: &str, output_mp3: &str, sample_rate: &str, bit_depth: &str, channels: &str, transcode_24_to_16: bool, freq: &str) -> String {
    let flac_file_trimmed = Path::new(flac_file).file_name().unwrap().to_str().unwrap();
    let output_mp3_trimmed = Path::new(output_mp3).file_name().unwrap().to_str().unwrap();
    let table = [" 44100", " 88200", " 176400", " 48000", " 96000", " 192000"];
    let listed = table.contains(&freq) || table.contains(&format!(" {}", freq).as_str());
    let mut log_file = String::new();
    log_file.push_str(&format!("File: '{}'\n", flac_file_trimmed));
    log_file.push_str(&format!("Sample Rate: {}\n", sample_rate));
    log_file.push_str(&format!("Bit Depth: {}\n", bit_depth));
    log_file.push_str(&format!("Original Codec: FLAC\n"));
    match mode {
        Mp3Mode::Vbr => log_file.push_str(&format!("Transcoded to: MP3 VBR 0\n")),
        Mp3Mode::Cbr => log_file.push_str(&format!("Transcoded to: MP3 CBR 320\n")),
    }
    log_file.push_str(&format!("Channels: {}\n", channels));
    if transcode_24_to_16 {
        match mode {
            Mp3Mode::Vbr => {
                log_file.push_str(&format!("\nConverted '{}' from 24-bit to 16-bit at {} Hz\n", flac_file_trimmed, sample_rate));
                if listed {
                    log_file.push_str(&format!("Command used: sox -S '{}' -b 16 '{}' rate -v -L {} dither\n", flac_file_trimmed, output_mp3_trimmed, sample_rate));
                }
            }
            Mp3Mode::Cbr => {
                log_file.push_str(&format!("\nConverted '{}' from 24-bit to 16-bit at {} Hz\n", flac_file_trimmed, freq));
                if listed {
                    log_file.push_str(&format!("Command used: sox -S '{}' -b 16 '{}' rate -v -L {} dither\n", flac_file, flac_file_trimmed, sample_rate));
                }
            }
        }
    }
    match mode {
        Mp3Mode::Vbr => log_file.push_str(&format!("Command used: ffmpeg -i '{}' -f wav - | lame -V0 --vbr-new - '{}'\n", flac_file_trimmed, output_mp3_trimmed)),
        Mp3Mode::Cbr => log_file.push_str(&format!("Command used: ffmpeg -i '{}' -f wav - | lame -b 320 - '{}'\n", flac_file_trimmed, output_mp3_trimmed)),
    }
    log_file.push_str(&format!("\n====================\n\n"));
    log_file
}

#[test]
fn mp3_log_matches_the_line_by_line_format() {
    let fields = SoxFields { sample_rate: "48000".to_string(), bit_depth: "16-bit".to_string(), channels: "2".to_string() };
    for mode in [Mp3Mode::Vbr, Mp3Mode::Cbr] {
        for (converted, freq) in [(false, "0"), (true, " 48000"), (true, " 44100"), (true, "44100"), (true, " 22050"), (true, "96000"), (true, "48000 ")] {
            let got = mp3_log_entry(mode, "/m/a_16.flac", "/m/a_16.mp3", &fields, converted, freq);
            let want = reference_mp3_log(mode, "/m/a_16.flac", "/m/a_16.mp3", "48000", "16-bit", "2", converted, freq);
            assert_eq!(got, Some(want));
        }
    }
}

#[test]
fn mp3_log_of_a_plain_cbr_file() {
    let fields = SoxFields { sample_rate: "44100".to_string(), bit_depth: "16-bit".to_string(), channels: "2".to_string() };
    assert_eq!(
        mp3_log_entry(Mp3Mode::Cbr, "/m/a.flac", "/m/a.mp3", &fields, false, "0").unwrap(),
        "File: 'a.flac'\nSample Rate: 44100\nBit Depth: 16-bit\nOriginal Codec: FLAC\nTranscoded to: MP3 CBR 320\nChannels: 2\nCommand used: ffmpeg -i 'a.flac' -f wav - | lame -b 320 - 'a.mp3'\n\n====================\n\n"
    );
}

#[test]
fn mp3_logs_tell_conversion_law_on_values() {
    let fields = SoxFields { sample_rate: "48000".to_string(), bit_depth: "16-bit".to_string(), channels: "2".to_string() };
    for rate in [" 44100", " 88200", " 176400", " 48000", " 96000", " 192000"] {
        for mode in [Mp3Mode::Vbr, Mp3Mode::Cbr] {
            let e = mp3_log_entry(mode, "/m/a_16.flac", "/m/a_16.mp3", &fields, true, rate).unwrap();
            assert!(e.contains("Command used: sox -S"), "{:?} {}", mode, rate);
        }
    }
    let e = mp3_log_entry(Mp3Mode::Vbr, "/m/a_16.flac", "/m/a_16.mp3", &fields, true, " 44100").unwrap();
    assert!(e.contains("\nConverted 'a_16.flac' from 24-bit to 16-bit at 48000 Hz\nCommand used: sox -S 'a_16.flac' -b 16 'a_16.mp3' rate -v -L 48000 dither\n"));
    let e = mp3_log_entry(Mp3Mode::Cbr, "/m/a_16.flac", "/m/a_16.mp3", &fields, true, " 44100").unwrap();
    assert!(e.contains("\nConverted 'a_16.flac' from 24-bit to 16-bit at  44100 Hz\nCommand used: sox -S '/m/a_16.flac' -b 16 'a_16.flac' rate -v -L 48000 dither\n"));
}

#[test]
fn mp3_log_without_file_name_is_none() {
    let fields = SoxFields { sample_rate: String::new(), bit_depth: String::new(), channels: String::new() };
    assert_eq!(mp3_log_entry(Mp3Mode::Vbr, "/", "a.mp3", &fields, false, "0"), None);
}

#[test]
fn command_arguments() {
    assert_eq!(sox_info_args("a.flac"), strings(&["--i", "a.flac"]));
    assert_eq!(ffmpeg_args("a.flac"), strings(&["-i", "a.flac", "-f", "wav", "-"]));
    assert_eq!(lame_args(Mp3Mode::Vbr, "a.mp3"), strings(&["-V0 --vbr-new", "-", "a.mp3"]));
    assert_eq!(lame_args(Mp3Mode::Cbr, "a.mp3"), strings(&["-b 320", "-", "a.mp3"]));
    assert_eq!(mp3_folder(Mp3Mode::Vbr), "mp3_vbr");
    assert_eq!(mp3_folder(Mp3Mode::Cbr), "mp3_cbr");
    assert_eq!(mp3_log(Mp3Mode::Cbr), TranscodeLog::Cbr);
}

#[test]
fn log_paths() {
    assert_eq!(transcoding_log_path("/m", TranscodeLog::Cbr), "/m/transcoding_logcbr.txt");
    assert_eq!(transcoding_log_path("/m", TranscodeLog::Vbr), "/m/transcoding_logvbr.txt");
    assert_eq!(transcoding_log_path("/m", TranscodeLog::Downsample), "/m/transcoding_log24.txt");
}

#[test]
fn relocation_into_sibling_folder() {
    assert_eq!(relocation_target("/m/a.flac", "flac"), Some("/m/flac/a.flac".to_string()));
    assert_eq!(relocation_target("a.mp3", "mp3_vbr"), Some("mp3_vbr/a.mp3".to_string()));
    assert_eq!(relocation_target("/m/..", "flac"), None);
    let p = "/m/x y.flac";
    let want = Path::new(p).with_file_name("flac24").join(Path::new(p).file_name().unwrap());
    assert_eq!(relocation_target(p, "flac24"), Some(want.to_str().unwrap().to_string()));
}

#[test]
fn cover_geometry() {
    assert_eq!(cover_fit_for("600 600\n"), Some(CoverFit::Resize));
    assert_eq!(cover_fit_for("500 500"), Some(CoverFit::Rescale));
    assert_eq!(cover_fit_for(" 1200 800"), Some(CoverFit::Rescale));
    assert_eq!(cover_fit_for("600 800"), Some(CoverFit::Rescale));
    assert_eq!(cover_fit_for("600 600 1"), Some(CoverFit::Resize));
    assert_eq!(cover_fit_for("600"), None);
    assert_eq!(cover_fit_for(""), None);
    assert_eq!(cover_fit_for("600  600"), Some(CoverFit::Rescale));
    assert_eq!(convert_args("/tmp/c.jpg", CoverFit::Resize), strings(&["/tmp/c.jpg", "-resize", "500x500", "/tmp/c.jpg"]));
    assert_eq!(convert_args("/tmp/c.jpg", CoverFit::Rescale), strings(&["/tmp/c.jpg", "-resize", "500", "/tmp/c.jpg"]));
}

#[test]
fn id3_tags_carried_over() {
    let text = "ARTIST=A\nTitle=T=2\nTRAC\u{212A}NUMBER=3\nfoo=bar\nnoequals\nDATE=1999\r\ngenre=\ncomposer=C\nALBUM=Al\n";
    assert_eq!("TRAC\u{212A}NUMBER".to_lowercase(), "tracknumber");
    let pairs: Vec<(String, String)> = [
        ("--artist", "A"),
        ("--song", "T=2"),
        ("--track", "3"),
        ("--year", "1999"),
        ("--genre", ""),
        ("--composer", "C"),
        ("--album", "Al"),
    ]
    .iter()
    .map(|(a, b)| (a.to_string(), b.to_string()))
    .collect();
    assert_eq!(id3_tag_args(text), pairs);
    assert_eq!(id3_tag_args(""), Vec::<(String, String)>::new());
}

#[test]
fn encodings_are_made_once_each() {
    assert_eq!(encoding_order(TranscodeRoute::Downsample), vec![Mp3Mode::Vbr, Mp3Mode::Cbr]);
    assert_eq!(encoding_order(TranscodeRoute::Direct), vec![Mp3Mode::Cbr, Mp3Mode::Vbr]);
}

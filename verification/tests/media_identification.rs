use lib::media_identification::{
    get_info_from_flac, get_metadata_from_flac, identify_flac_files, parse_flac_tags,
    parse_sox_info,
};
use lib::transcode24;

fn strings(v: &[&str]) -> Vec<String> {
    v.iter().map(|s| s.to_string()).collect()
}

fn triple(a: &str, b: &str, c: &str) -> Option<(String, String, String)> {
    Some((a.to_string(), b.to_string(), c.to_string()))
}

const SOX_OUTPUT: &str = "\nInput File     : 'album/01 - Intro.flac'\nChannels       : 2\nSample Rate    : 44100\nPrecision      : 16-bit\nDuration       : 00:03:25.13 = 9058233 samples = 15405.2 CDDA sectors\nFile Size      : 25.1M\nBit Rate       : 978k\nSample Encoding: 16-bit FLAC\nComment        : 'ARTIST=Someone'\n\n";

#[test]
fn flac_files_are_the_entries_ending_in_flac() {
    let entries = strings(&["/m/a.flac", "/m/cover.jpg", "/m/b.FLAC", "/m/c.flac.bak", "/m/d.flac", "/m/.flac"]);
    assert_eq!(identify_flac_files(&entries), strings(&["/m/a.flac", "/m/d.flac", "/m/.flac"]));
}

#[test]
fn flac_files_of_an_empty_listing() {
    assert_eq!(identify_flac_files(&Vec::new()), Vec::<String>::new());
}

#[test]
fn transcode24_lists_flac_files_the_same_way() {
    let entries = strings(&["x.flac", "y.wav"]);
    assert_eq!(transcode24::identify_flac_files(&entries), strings(&["x.flac"]));
}

#[test]
fn flac_files_law_on_values() {
    let entries = strings(&["1.flac", "2.mp3", "3.flac", "flac", "4.flac"]);
    let found = identify_flac_files(&entries);
    for f in &found {
        assert!(f.ends_with(".flac") && entries.contains(f));
    }
    for e in &entries {
        if e.ends_with(".flac") {
            assert!(found.contains(e));
        }
    }
}

#[test]
fn sox_info_of_a_typical_output() {
    assert_eq!(parse_sox_info(SOX_OUTPUT), triple("2", "44100", "16-bit"));
}

#[test]
fn sox_info_takes_the_last_line_of_each_field() {
    let text = "Channels : 1\nChannels : 6\nSample Rate : 48000\nPrecision : 24-bit";
    assert_eq!(parse_sox_info(text), triple("6", "48000", "24-bit"));
}

#[test]
fn sox_info_value_stops_at_the_second_colon() {
    let text = "Channels : 2 : x\nSample Rate:96000\nPrecision :\t24-bit \r\n";
    assert_eq!(parse_sox_info(text), triple("2", "96000", "24-bit"));
}

#[test]
fn sox_info_missing_field_is_none() {
    assert_eq!(parse_sox_info("Channels : 2\nSample Rate : 44100\n"), None);
    assert_eq!(parse_sox_info(""), None);
}

#[test]
fn sox_info_field_line_without_colon_is_none() {
    let text = "Channels : 2\nSample Rate : 44100\nPrecision : 16-bit\nChannels 2\n";
    assert_eq!(parse_sox_info(text), None);
}

#[test]
fn sox_info_from_command_bytes() {
    assert_eq!(get_info_from_flac(SOX_OUTPUT.as_bytes()), triple("2", "44100", "16-bit"));
}

#[test]
fn sox_info_from_invalid_utf8_bytes_is_decoded_lossily() {
    let mut bytes = b"Channels : \xff2\nSample Rate : 44100\nPrecision : 16-bit\n".to_vec();
    bytes.push(b'\n');
    assert_eq!(get_info_from_flac(&bytes), triple("\u{FFFD}2", "44100", "16-bit"));
}

#[test]
fn sox_info_read_back_law_on_values() {
    let text = format!("Channels       : {}\nSample Rate    : {}\nPrecision      : {}\n", "2", " 88200 ", "24-bit");
    assert_eq!(parse_sox_info(&text), triple("2", "88200", "24-bit"));
}

#[test]
fn tags_of_a_typical_export() {
    let text = "TITLE=Intro\nARTIST=The Band\nALBUM=First Light\nDATE=1999\nTRACKNUMBER=1\n";
    assert_eq!(parse_flac_tags(text), triple("The Band", "First Light", "1999"));
}

#[test]
fn tags_in_any_case_and_last_wins() {
    let text = "artist=One\nArtist=Two\nalbum=A=B\nDate=2001-02-03\r\n";
    assert_eq!(parse_flac_tags(text), triple("Two", "A=B", "2001-02-03"));
}

#[test]
fn tags_missing_or_empty_are_none() {
    assert_eq!(parse_flac_tags("ARTIST=a\nALBUM=b\n"), None);
    assert_eq!(parse_flac_tags("ARTIST=a\nALBUM=b\nDATE=\n"), None);
    assert_eq!(parse_flac_tags("ARTIST=a\nALBUM=b\nDATE=1\nARTIST=\n"), None);
    assert_eq!(parse_flac_tags(""), None);
}

#[test]
fn tags_from_command_bytes() {
    let bytes = b"ARTIST=X\nALBUM=Y\nDATE=2020\n";
    assert_eq!(get_metadata_from_flac(bytes), triple("X", "Y", "2020"));
}

#[test]
fn tags_read_back_law_on_values() {
    let (a, b, c) = ("Sigur R\u{f3}s", "( )", "2002");
    let text = format!("ARTIST={}\nALBUM={}\nDATE={}\n", a, b, c);
    assert_eq!(parse_flac_tags(&text), triple(a, b, c));
}

// The same readings written with std's string methods, to hold the library against.
fn reference_tags(metadata: &str) -> Option<(String, String, String)> {
    let mut artist = String::new();
    let mut album = String::new();
    let mut year = String::new();
    for line in metadata.lines() {
        let lower_line = line.to_lowercase();
        if lower_line.starts_with("artist=") {
            artist = line["ARTIST=".len()..].to_string();
        } else if lower_line.starts_with("album=") {
            album = line["ALBUM=".len()..].to_string();
        } else if lower_line.starts_with("date=") {
            year = line["DATE=".len()..].to_string();
        }
    }
    if !artist.is_empty() && !album.is_empty() && !year.is_empty() {
        Some((artist, album, year))
    } else {
        None
    }
}

fn reference_info(info: &str) -> Option<(String, String, String)> {
    let mut channels = None;
    let mut sample_rate = None;
    let mut bit_depth = None;
    for line in info.lines() {
        if line.starts_with("Channels") {
            channels = Some(line.split(":").nth(1)?.trim().to_string());
        } else if line.starts_with("Sample Rate") {
            sample_rate = Some(line.split(":").nth(1)?.trim().to_string());
        } else if line.starts_with("Precision") {
            bit_depth = Some(line.split(":").nth(1)?.trim().to_string());
        }
    }
    match (channels, sample_rate, bit_depth) {
        (Some(c), Some(s), Some(b)) => Some((c, s, b)),
        _ => None,
    }
}

const PIECES: [&str; 12] = ["\r\n", "\n", "\r", "=", ":", " ", "\u{2003}", "\u{212A}", "\u{130}", "x", "", "\u{85}"];

#[test]
fn tags_agree_with_the_std_reading() {
    for a in PIECES {
        for b in PIECES {
            for c in PIECES {
                for head in ["ARTIST=", "album=", "Date=", "ARTİST=", "DATE"] {
                    let text = format!("{head}{a}v{b}\nALBUM=al{c}\ndate=d{a}{b}\nARTIST=ar{c}{a}");
                    assert_eq!(parse_flac_tags(&text), reference_tags(&text), "{:?}", text);
                }
            }
        }
    }
}

#[test]
fn sox_info_agrees_with_the_std_reading() {
    for a in PIECES {
        for b in PIECES {
            for c in PIECES {
                for head in ["Channels", "Sample Rate", "Precision", "channels"] {
                    let text = format!("{head}{a}:{b} 2{c}\nSample Rate{a}: 4{b}\nPrecision:{c}x{a}\nChannels :{b}");
                    assert_eq!(parse_sox_info(&text), reference_info(&text), "{:?}", text);
                }
            }
        }
    }
}

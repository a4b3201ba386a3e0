//! The command line and the folders of an album: which mode runs, where the
//! working folders and the logs are, and how the finished folders are named
//! from the album's tags.
use vstd::prelude::*;
use crate::text::{owned, same_text, views};

verus! {

/// What the command line asks for.
pub enum CliCommand {
    /// Fewer than two arguments: print the usage.
    Usage,
    /// `-T <folder>`: transcode the album in the folder.
    Transcode(String),
    /// `-S <folder>`: draw spectrograms of the album in the folder.
    Spectrograms(String),
    /// Any other option: report it.
    Unknown(String),
}

/// Reads the command line (program name first).
pub fn parse_command(args: &Vec<String>) -> (r: CliCommand)
    ensures
        (r is Usage) <==> args.len() < 3,
        (r is Transcode) <==> args.len() >= 3 && args[1]@ == "-T"@,
        (r is Spectrograms) <==> args.len() >= 3 && args[1]@ == "-S"@,
        (r is Unknown) <==> args.len() >= 3 && args[1]@ != "-T"@ && args[1]@ != "-S"@,
        r matches CliCommand::Transcode(f) ==> f@ == args[2]@,
        r matches CliCommand::Spectrograms(f) ==> f@ == args[2]@,
        r matches CliCommand::Unknown(o) ==> o@ == args[1]@,
{
    proof {
        reveal_strlit("-T");
        reveal_strlit("-S");
        assert("-T"@[1] != "-S"@[1]);
    }
    if args.len() < 3 {
        CliCommand::Usage
    } else if same_text(args[1].as_str(), "-T") {
        CliCommand::Transcode(args[2].clone())
    } else if same_text(args[1].as_str(), "-S") {
        CliCommand::Spectrograms(args[2].clone())
    } else {
        CliCommand::Unknown(args[1].clone())
    }
}

/// `Usage: <program> -T <folder>`.
pub fn usage_message(program: &str) -> (r: String)
    ensures
        r@ == "Usage: "@ + program@ + " -T <folder>"@,
{
    let mut r = owned("Usage: ");
    r.append(program);
    r.append(" -T <folder>");
    r
}

/// `Unknown option: <option>`.
pub fn unknown_option_message(option: &str) -> (r: String)
    ensures
        r@ == "Unknown option: "@ + option@,
{
    let mut r = owned("Unknown option: ");
    r.append(option);
    r
}

/// The working folders that the files are sorted into while they are made.
#[derive(PartialEq, Eq, Structural, Clone, Copy, Debug)]
pub enum WorkDir {
    Flac,
    Flac24,
    Mp3Cbr,
    Mp3Vbr,
}

pub open spec fn work_dir_name(d: WorkDir) -> Seq<char> {
    match d {
        WorkDir::Flac => "flac"@,
        WorkDir::Flac24 => "flac24"@,
        WorkDir::Mp3Cbr => "mp3_cbr"@,
        WorkDir::Mp3Vbr => "mp3_vbr"@,
    }
}

/// `<folder>/<flac|flac24|mp3_cbr|mp3_vbr>`.
pub fn work_dir(folder: &str, d: WorkDir) -> (r: String)
    ensures
        r@ == folder@ + "/"@ + work_dir_name(d),
{
    let mut r = owned(folder);
    r.append("/");
    match d {
        WorkDir::Flac => r.append("flac"),
        WorkDir::Flac24 => r.append("flac24"),
        WorkDir::Mp3Cbr => r.append("mp3_cbr"),
        WorkDir::Mp3Vbr => r.append("mp3_vbr"),
    }
    r
}

/// The finished folders of an album.
#[derive(PartialEq, Eq, Structural, Clone, Copy, Debug)]
pub enum ReleaseFormat {
    Flac,
    Mp3Cbr,
    Mp3Vbr,
}

pub open spec fn format_label(f: ReleaseFormat) -> Seq<char> {
    match f {
        ReleaseFormat::Flac => "FLAC"@,
        ReleaseFormat::Mp3Cbr => "MP3_CBR"@,
        ReleaseFormat::Mp3Vbr => "MP3_VBR"@,
    }
}

/// `<folder>//<artist> - <album> (<year>) [<FORMAT>]`: the folder with a
/// `/` appended, then a `/` before the album's name, so the slash is doubled.
pub open spec fn release_folder_text(
    folder: Seq<char>,
    artist: Seq<char>,
    album: Seq<char>,
    year: Seq<char>,
    f: ReleaseFormat,
) -> Seq<char> {
    folder + "/"@ + "/"@ + artist + " - "@ + album + " ("@ + year + ") ["@ + format_label(f) + "]"@
}

pub fn release_folder(folder: &str, artist: &str, album: &str, year: &str, f: ReleaseFormat) -> (r:
    String)
    ensures
        r@ == release_folder_text(folder@, artist@, album@, year@, f),
{
    let mut r = owned(folder);
    r.append("/");
    r.append("/");
    r.append(artist);
    r.append(" - ");
    r.append(album);
    r.append(" (");
    r.append(year);
    r.append(") [");
    match f {
        ReleaseFormat::Flac => r.append("FLAC"),
        ReleaseFormat::Mp3Cbr => r.append("MP3_CBR"),
        ReleaseFormat::Mp3Vbr => r.append("MP3_VBR"),
    }
    r.append("]");
    r
}

} // verus!

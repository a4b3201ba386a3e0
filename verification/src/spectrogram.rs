//! Which FLAC files get spectrograms, where the pictures go, the `sox`
//! runs that draw them and what the spectrogram log says of each.
use vstd::prelude::*;
use crate::paths::{file_stem, path_file_stem};
use crate::text::{owned, views};

verus! {

/// The files that get spectrograms: none of none, else the first, the
/// middle (index `n / 2`) and the last, at most three and without
/// repeating a position for one or two files.
pub open spec fn spectrogram_picks<T>(fs: Seq<T>) -> Seq<T> {
    let n = fs.len();
    if n == 0 {
        Seq::<T>::empty()
    } else if n == 1 {
        seq![fs[0]]
    } else if n == 2 {
        seq![fs[0], fs[1]]
    } else {
        seq![fs[0], fs[(n / 2) as int], fs[n - 1]]
    }
}

pub fn select_spectrogram_files(flac_files: &Vec<String>) -> (r: Vec<String>)
    ensures
        views(r@) == spectrogram_picks(views(flac_files@)),
{
    let n = flac_files.len();
    let r = if n == 0 {
        Vec::new()
    } else if n == 1 {
        vec![flac_files[0].clone()]
    } else if n == 2 {
        vec![flac_files[0].clone(), flac_files[n - 1].clone()]
    } else {
        vec![flac_files[0].clone(), flac_files[n / 2].clone(), flac_files[n - 1].clone()]
    };
    assert(views(r@) =~= spectrogram_picks(views(flac_files@)));
    r
}

pub open spec fn spectrogram_dir_text(folder: Seq<char>) -> Seq<char> {
    folder + "/spectrograms"@
}

/// `<folder>/spectrograms`, where the pictures and the log go.
pub fn spectrogram_dir(folder: &str) -> (r: String)
    ensures
        r@ == spectrogram_dir_text(folder@),
{
    let mut r = owned(folder);
    r.append("/spectrograms");
    r
}

/// `<folder>/spectrograms/spectrogram_log.txt`.
pub fn spectrogram_log_path(folder: &str) -> (r: String)
    ensures
        r@ == folder@ + "/spectrograms/spectrogram_log.txt"@,
{
    let mut r = owned(folder);
    r.append("/spectrograms/spectrogram_log.txt");
    r
}

/// What is drawn and run for one FLAC file.
pub struct SpectrogramJob {
    /// The file's stem, which the pictures and the log are named by.
    pub file_name: String,
    pub full_output: String,
    pub full_args: Vec<String>,
    /// The command line of the full picture, as the log reports it.
    pub full_command: String,
    pub zoom_output: String,
    pub zoom_args: Vec<String>,
    /// The command line of the zoomed picture, as the log reports it.
    pub zoom_command: String,
}

pub open spec fn full_output_text(folder: Seq<char>, stem: Seq<char>) -> Seq<char> {
    spectrogram_dir_text(folder) + "/"@ + stem + "-full.png"@
}

pub open spec fn zoom_output_text(folder: Seq<char>, stem: Seq<char>) -> Seq<char> {
    spectrogram_dir_text(folder) + "/"@ + stem + "-zoom.png"@
}

/// The arguments of the `sox` run that draws the whole file.
pub open spec fn full_args_text(flac_file: Seq<char>, output: Seq<char>) -> Seq<Seq<char>> {
    seq![
        flac_file,
        "-n"@,
        "remix"@,
        "1"@,
        "spectrogram"@,
        "-x"@,
        "3000"@,
        "-y"@,
        "513"@,
        "-z"@,
        "120"@,
        "-w"@,
        "Kaiser"@,
        "-o"@,
        output,
    ]
}

/// The arguments of the `sox` run that draws two seconds from one minute in.
pub open spec fn zoom_args_text(flac_file: Seq<char>, output: Seq<char>) -> Seq<Seq<char>> {
    seq![
        flac_file,
        "-n"@,
        "remix"@,
        "1"@,
        "spectrogram"@,
        "-X"@,
        "500"@,
        "-y"@,
        "1025"@,
        "-z"@,
        "120"@,
        "-w"@,
        "Kaiser"@,
        "-S"@,
        "1:00"@,
        "-d"@,
        "0:02"@,
        "-o"@,
        output,
    ]
}

/// The `sox` command line that draws the whole file, as it is run.
pub open spec fn full_command_text(flac_file: Seq<char>, output: Seq<char>) -> Seq<char> {
    "sox "@ + flac_file + " -n remix 1 spectrogram -x 3000 -y 513 -z 120 -w Kaiser -o "@ + output
}

/// The `sox` command line that draws the zoomed picture, as it is run.
pub open spec fn zoom_command_text(flac_file: Seq<char>, output: Seq<char>) -> Seq<char> {
    "sox "@ + flac_file
        + " -n remix 1 spectrogram -X 500 -y 1025 -z 120 -w Kaiser -S 1:00 -d 0:02 -o "@ + output
}

/// The job is the one for a file with stem `stem` in `folder`.
pub open spec fn job_matches(job: SpectrogramJob, flac_file: Seq<char>, folder: Seq<char>, stem: Seq<
    char,
>) -> bool {
    &&& job.file_name@ == stem
    &&& job.full_output@ == full_output_text(folder, stem)
    &&& views(job.full_args@) == full_args_text(flac_file, full_output_text(folder, stem))
    &&& job.full_command@ == full_command_text(flac_file, full_output_text(folder, stem))
    &&& job.zoom_output@ == zoom_output_text(folder, stem)
    &&& views(job.zoom_args@) == zoom_args_text(flac_file, zoom_output_text(folder, stem))
    &&& job.zoom_command@ == zoom_command_text(flac_file, zoom_output_text(folder, stem))
}

/// The job for one FLAC file of `folder`; `None` where the path has no
/// file stem.
pub fn spectrogram_job(flac_file: &str, folder: &str) -> (r: Option<SpectrogramJob>)
    ensures
        match r {
            Some(job) => path_file_stem(flac_file@) == Some(job.file_name@) && job_matches(
                job,
                flac_file@,
                folder@,
                job.file_name@,
            ),
            None => path_file_stem(flac_file@) is None,
        },
{
    let stem = match file_stem(flac_file) {
        Some(s) => s,
        None => return None,
    };
    let dir = spectrogram_dir(folder);
    let mut full_output = owned(dir.as_str());
    full_output.append("/");
    full_output.append(stem.as_str());
    full_output.append("-full.png");
    let mut zoom_output = owned(dir.as_str());
    zoom_output.append("/");
    zoom_output.append(stem.as_str());
    zoom_output.append("-zoom.png");
    let full_args = vec![
        owned(flac_file),
        owned("-n"),
        owned("remix"),
        owned("1"),
        owned("spectrogram"),
        owned("-x"),
        owned("3000"),
        owned("-y"),
        owned("513"),
        owned("-z"),
        owned("120"),
        owned("-w"),
        owned("Kaiser"),
        owned("-o"),
        owned(full_output.as_str()),
    ];
    assert(views(full_args@) =~= full_args_text(flac_file@, full_output@));
    let zoom_args = vec![
        owned(flac_file),
        owned("-n"),
        owned("remix"),
        owned("1"),
        owned("spectrogram"),
        owned("-X"),
        owned("500"),
        owned("-y"),
        owned("1025"),
        owned("-z"),
        owned("120"),
        owned("-w"),
        owned("Kaiser"),
        owned("-S"),
        owned("1:00"),
        owned("-d"),
        owned("0:02"),
        owned("-o"),
        owned(zoom_output.as_str()),
    ];
    assert(views(zoom_args@) =~= zoom_args_text(flac_file@, zoom_output@));
    let mut full_command = owned("sox ");
    full_command.append(flac_file);
    full_command.append(" -n remix 1 spectrogram -x 3000 -y 513 -z 120 -w Kaiser -o ");
    full_command.append(full_output.as_str());
    let mut zoom_command = owned("sox ");
    zoom_command.append(flac_file);
    zoom_command.append(
        " -n remix 1 spectrogram -X 500 -y 1025 -z 120 -w Kaiser -S 1:00 -d 0:02 -o ",
    );
    zoom_command.append(zoom_output.as_str());
    Some(
        SpectrogramJob {
            file_name: stem,
            full_output,
            full_args,
            full_command,
            zoom_output,
            zoom_args,
            zoom_command,
        },
    )
}

/// The head of a file's log entry: its name and what `sox --i` printed.
pub open spec fn log_head_text(stem: Seq<char>, info: Seq<char>) -> Seq<char> {
    "FLAC File: ./flac/"@ + stem + ".flac\n"@ + "FLAC Info:\n"@ + info + "\n"@
}

pub fn spectrogram_log_head(stem: &str, info: &str) -> (r: String)
    ensures
        r@ == log_head_text(stem@, info@),
{
    let mut r = owned("FLAC File: ./flac/");
    r.append(stem);
    r.append(".flac\n");
    r.append("FLAC Info:\n");
    r.append(info);
    r.append("\n");
    r
}

/// The log line that reports the command of the full picture.
pub fn full_command_log_line(job: &SpectrogramJob) -> (r: String)
    ensures
        r@ == "Command for full spectrogram: "@ + job.full_command@ + "\n"@,
{
    let mut r = owned("Command for full spectrogram: ");
    r.append(job.full_command.as_str());
    r.append("\n");
    r
}

/// The log line that reports the command of the zoomed picture.
pub fn zoom_command_log_line(job: &SpectrogramJob) -> (r: String)
    ensures
        r@ == "Command for zoom spectrogram: "@ + job.zoom_command@ + "\n"@,
{
    let mut r = owned("Command for zoom spectrogram: ");
    r.append(job.zoom_command.as_str());
    r.append("\n");
    r
}

/// The separator after each file's log entry.
pub fn log_separator() -> (r: String)
    ensures
        r@ == "\n=========\n\n"@,
{
    owned("\n=========\n\n")
}

/// Law: an album with files gets spectrograms of at least one and at most
/// three of them (as many as it has, up to three), each one a file of the
/// album: all of an album of one or two files; of a longer album its first
/// file, its middle file (at index `n / 2`) and its last file, in that order.
pub proof fn lemma_spectrogram_picks<T>(fs: Seq<T>)
    ensures
        fs.len() == 0 ==> spectrogram_picks(fs).len() == 0,
        fs.len() > 0 ==> {
            &&& spectrogram_picks(fs).len() == if fs.len() < 3 {
                fs.len()
            } else {
                3
            }
            &&& spectrogram_picks(fs)[0] == fs[0]
            &&& spectrogram_picks(fs).last() == fs.last()
        },
        forall|i: int|
            0 <= i < spectrogram_picks(fs).len() ==> fs.contains(#[trigger] spectrogram_picks(fs)[i]),
        fs.len() == 1 ==> spectrogram_picks(fs) == seq![fs[0]],
        fs.len() == 2 ==> spectrogram_picks(fs) == seq![fs[0], fs[1]],
        fs.len() >= 3 ==> spectrogram_picks(fs)[1] == fs[(fs.len() / 2) as int],
        fs.len() >= 3 ==> spectrogram_picks(fs) == seq![
            fs[0],
            fs[(fs.len() / 2) as int],
            fs[fs.len() - 1],
        ],
{
    let p = spectrogram_picks(fs);
    let n = fs.len();
    assert forall|i: int| 0 <= i < p.len() implies fs.contains(#[trigger] p[i]) by {
        if n == 1 {
            assert(fs[0] == p[i]);
        } else if n == 2 {
            if i == 0 {
                assert(fs[0] == p[i]);
            } else {
                assert(fs[1] == p[i]);
            }
        } else {
            if i == 0 {
                assert(fs[0] == p[i]);
            } else if i == 1 {
                assert(fs[(n / 2) as int] == p[i]);
            } else {
                assert(fs[n - 1] == p[i]);
            }
        }
    }
}

} // verus!

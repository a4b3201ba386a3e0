use lib::album::{
    parse_command, release_folder, unknown_option_message, usage_message, work_dir, CliCommand,
    ReleaseFormat, WorkDir,
};
use lib::spectrogram::{
    full_command_log_line, log_separator, select_spectrogram_files, spectrogram_dir,
    spectrogram_job, spectrogram_log_head, spectrogram_log_path, zoom_command_log_line,
};

fn strings(v: &[&str]) -> Vec<String> {
    v.iter().map(|s| s.to_string()).collect()
}

#[test]
fn spectrogram_selection() {
    assert_eq!(select_spectrogram_files(&Vec::new()), Vec::<String>::new());
    assert_eq!(select_spectrogram_files(&strings(&["a"])), strings(&["a"]));
    assert_eq!(select_spectrogram_files(&strings(&["a", "b"])), strings(&["a", "b"]));
    assert_eq!(select_spectrogram_files(&strings(&["a", "b", "c"])), strings(&["a", "b", "c"]));
    assert_eq!(select_spectrogram_files(&strings(&["a", "b", "c", "d"])), strings(&["a", "c", "d"]));
    assert_eq!(select_spectrogram_files(&strings(&["a", "b", "c", "d", "e"])), strings(&["a", "c", "e"]));
}

#[test]
fn spectrogram_picks_law_on_values() {
    for n in 1..10 {
        let fs: Vec<String> = (0..n).map(|i| format!("{}.flac", i)).collect();
        let p = select_spectrogram_files(&fs);
        assert_eq!(p.len(), n.min(3));
        assert_eq!(p[0], fs[0]);
        assert_eq!(p[p.len() - 1], fs[n - 1]);
        assert!(p.iter().all(|f| fs.contains(f)));
    }
}

#[test]
fn spectrogram_paths() {
    assert_eq!(spectrogram_dir("/m"), "/m/spectrograms");
    assert_eq!(spectrogram_log_path("/m"), "/m/spectrograms/spectrogram_log.txt");
}

#[test]
fn spectrogram_job_for_a_file() {
    let job = spectrogram_job("/m/01 Intro.flac", "/m").unwrap();
    assert_eq!(job.file_name, "01 Intro");
    assert_eq!(job.full_output, "/m/spectrograms/01 Intro-full.png");
    assert_eq!(job.zoom_output, "/m/spectrograms/01 Intro-zoom.png");
    assert_eq!(
        job.full_args,
        strings(&["/m/01 Intro.flac", "-n", "remix", "1", "spectrogram", "-x", "3000", "-y", "513", "-z", "120", "-w", "Kaiser", "-o", "/m/spectrograms/01 Intro-full.png"])
    );
    assert_eq!(
        job.zoom_args,
        strings(&["/m/01 Intro.flac", "-n", "remix", "1", "spectrogram", "-X", "500", "-y", "1025", "-z", "120", "-w", "Kaiser", "-S", "1:00", "-d", "0:02", "-o", "/m/spectrograms/01 Intro-zoom.png"])
    );
    assert_eq!(format!("sox {}", job.full_args.join(" ")), job.full_command);
    assert_eq!(format!("sox {}", job.zoom_args.join(" ")), job.zoom_command);
    assert_eq!(job.full_command, "sox /m/01 Intro.flac -n remix 1 spectrogram -x 3000 -y 513 -z 120 -w Kaiser -o /m/spectrograms/01 Intro-full.png");
    assert_eq!(job.zoom_command, "sox /m/01 Intro.flac -n remix 1 spectrogram -X 500 -y 1025 -z 120 -w Kaiser -S 1:00 -d 0:02 -o /m/spectrograms/01 Intro-zoom.png");
    assert_eq!(full_command_log_line(&job), format!("Command for full spectrogram: {}\n", job.full_command));
    assert_eq!(zoom_command_log_line(&job), format!("Command for zoom spectrogram: {}\n", job.zoom_command));
}

#[test]
fn spectrogram_job_uses_the_file_stem() {
    let job = spectrogram_job("a.b.flac", ".").unwrap();
    assert_eq!(job.file_name, "a.b");
    assert!(spectrogram_job("/", ".").is_none());
}

#[test]
fn spectrogram_log_entry() {
    assert_eq!(spectrogram_log_head("x", "info\n"), "FLAC File: ./flac/x.flac\nFLAC Info:\ninfo\n\n");
    assert_eq!(log_separator(), "\n=========\n\n");
}

#[test]
fn command_line() {
    let args = |v: &[&str]| strings(v);
    assert!(matches!(parse_command(&args(&["p", "-T"])), CliCommand::Usage));
    assert!(matches!(parse_command(&args(&[])), CliCommand::Usage));
    match parse_command(&args(&["p", "-T", "/m", "x"])) {
        CliCommand::Transcode(f) => assert_eq!(f, "/m"),
        _ => panic!("expected -T"),
    }
    match parse_command(&args(&["p", "-S", "/m"])) {
        CliCommand::Spectrograms(f) => assert_eq!(f, "/m"),
        _ => panic!("expected -S"),
    }
    match parse_command(&args(&["p", "-X", "/m"])) {
        CliCommand::Unknown(o) => assert_eq!(o, "-X"),
        _ => panic!("expected unknown"),
    }
    assert_eq!(usage_message("prog"), "Usage: prog -T <folder>");
    assert_eq!(unknown_option_message("-X"), "Unknown option: -X");
}

#[test]
fn album_folders() {
    let folder = "/m";
    let flac_folder = format!("{}/", folder);
    assert_eq!(
        release_folder(folder, "Artist", "Album", "1999", ReleaseFormat::Mp3Cbr),
        format!("{}/{} - {} ({}) [MP3_CBR]", flac_folder, "Artist", "Album", "1999")
    );
    assert_eq!(release_folder("/m", "A", "B", "C", ReleaseFormat::Flac), "/m//A - B (C) [FLAC]");
    assert_eq!(release_folder("/m", "A", "B", "C", ReleaseFormat::Mp3Vbr), "/m//A - B (C) [MP3_VBR]");
    assert_eq!(work_dir("/m", WorkDir::Flac), "/m/flac");
    assert_eq!(work_dir("/m", WorkDir::Flac24), "/m/flac24");
    assert_eq!(work_dir("/m", WorkDir::Mp3Cbr), "/m/mp3_cbr");
    assert_eq!(work_dir("/m", WorkDir::Mp3Vbr), "/m/mp3_vbr");
}

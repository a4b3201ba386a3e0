use lib::media_identification::{metaflac_tags_args, parse_flac_tags, parse_sox_info};
use lib::spectrogram::spectrogram_job;
use lib::transcoding::{
    after_lame, id3_tag_args, id3v2_args, next_tag_copy_step, tag_copy_command, temp_cover_path,
    temp_metadata_path, transcode_route, CoverFit, EncodeTask, TagCopyEvent, TagCopyStep,
    TranscodeRoute,
};

fn strings(v: &[&str]) -> Vec<String> {
    v.iter().map(|s| s.to_string()).collect()
}

// Runs the tag copy with the given outcomes and records each command and report.
fn run_copy(tags_ok: bool, picture_ok: bool, size: &str, convert_ok: bool, cover_exists: bool) -> (Vec<(String, Vec<String>)>, Vec<String>, bool) {
    let mut step = TagCopyStep::ExportTags;
    let mut commands = Vec::new();
    let mut reports = Vec::new();
    let mut cleaned = false;
    loop {
        if let Some(c) = tag_copy_command(step, "/m/a.flac", "/m/a.mp3") {
            commands.push((c.program.clone(), c.args.clone()));
        }
        let event = match step {
            TagCopyStep::Done => break,
            TagCopyStep::ExportTags => TagCopyEvent::Exited(tags_ok),
            TagCopyStep::ApplyTags => TagCopyEvent::TagsApplied,
            TagCopyStep::ExportPicture => TagCopyEvent::Exited(picture_ok),
            TagCopyStep::MeasureCover => TagCopyEvent::Measured(lib::transcoding::cover_fit_for(size).unwrap()),
            TagCopyStep::FitCover(_) => TagCopyEvent::Exited(convert_ok),
            TagCopyStep::CheckCover => TagCopyEvent::CoverFound(cover_exists),
            TagCopyStep::AttachCover => TagCopyEvent::Exited(true),
            TagCopyStep::CleanUp => {
                cleaned = true;
                TagCopyEvent::CleanedUp
            }
        };
        let (next, report) = next_tag_copy_step(step, event).unwrap();
        if let Some(r) = report {
            reports.push(r);
        }
        step = next;
    }
    (commands, reports, cleaned)
}

#[test]
fn tag_copy_of_a_non_square_cover_rescales_to_width_500() {
    let (commands, reports, cleaned) = run_copy(true, true, "600 800", true, true);
    assert_eq!(
        commands,
        vec![
            ("metaflac".to_string(), strings(&["--export-tags-to", "/tmp/metadata.txt", "/m/a.flac"])),
            ("metaflac".to_string(), strings(&["--export-picture-to", "/tmp/cover.jpg", "/m/a.flac"])),
            ("identify".to_string(), strings(&["-format", "%w %h", "/tmp/cover.jpg"])),
            ("convert".to_string(), strings(&["/tmp/cover.jpg", "-resize", "500", "/tmp/cover.jpg"])),
            ("mid3v2".to_string(), strings(&["-p", "/tmp/cover.jpg", "/m/a.mp3"])),
        ]
    );
    assert!(reports.is_empty());
    assert!(cleaned);
}

#[test]
fn tag_copy_of_a_square_cover_resizes_to_500x500() {
    let (commands, _, _) = run_copy(true, true, "1000 1000", false, true);
    assert_eq!(commands[3].1, strings(&["/tmp/cover.jpg", "-resize", "500x500", "/tmp/cover.jpg"]));
    let (_, reports, _) = run_copy(true, true, "1000 1000", false, true);
    assert_eq!(reports, strings(&["Error resizing cover art"]));
    let (_, reports, _) = run_copy(true, true, "10 20", false, false);
    assert_eq!(reports, strings(&["Error rescaling cover art"]));
}

#[test]
fn tag_copy_stops_at_once_when_tags_cannot_be_exported() {
    let (commands, reports, cleaned) = run_copy(false, true, "1 1", true, true);
    assert_eq!(commands.len(), 1);
    assert_eq!(reports, strings(&["Error extracting tags from FLAC"]));
    assert!(!cleaned);
}

#[test]
fn tag_copy_without_cover_art_still_cleans_up() {
    let (commands, reports, cleaned) = run_copy(true, false, "1 1", true, false);
    assert_eq!(commands.len(), 2);
    assert_eq!(reports, strings(&["Error extracting cover art"]));
    assert!(cleaned);
}

#[test]
fn tag_copy_rejects_events_a_step_does_not_take() {
    assert!(next_tag_copy_step(TagCopyStep::Done, TagCopyEvent::CleanedUp).is_none());
    assert!(next_tag_copy_step(TagCopyStep::ApplyTags, TagCopyEvent::Exited(true)).is_none());
    assert!(tag_copy_command(TagCopyStep::CheckCover, "a", "b").is_none());
    assert_eq!(temp_metadata_path(), "/tmp/metadata.txt");
    assert_eq!(temp_cover_path(), "/tmp/cover.jpg");
}

#[test]
fn tasks_after_lame() {
    assert_eq!(after_lame(false), vec![EncodeTask::ReportFailure]);
    assert_eq!(
        after_lame(true),
        vec![EncodeTask::CopyTags, EncodeTask::MoveToFolder, EncodeTask::WriteLog, EncodeTask::MoveToFolder]
    );
}

#[test]
fn non_24_bit_is_direct_law_on_values() {
    for p in ["16-bit", "32-bit", "8-bit", " 24-bit"] {
        let text = format!("Precision      : {}\n", p);
        let want = if p.trim() == "24-bit" { TranscodeRoute::Downsample } else { TranscodeRoute::Direct };
        assert_eq!(transcode_route(&text), Some(want));
    }
    assert_eq!(transcode_route("no precision here"), Some(TranscodeRoute::Direct));
}

#[test]
fn sox_info_ignores_other_lines_law_on_values() {
    let s1 = "Channels : 2\nSample Rate : 44100\nPrecision : 16-bit\n";
    let s2 = "Input File : 'x'\nChannels : 2\nSample Encoding: 16-bit FLAC\nSample Rate : 44100\nprecision : 8-bit\nPrecision : 16-bit\nDuration : 1";
    assert_eq!(parse_sox_info(s1), parse_sox_info(s2));
    assert!(parse_sox_info(s1).is_some());
}

#[test]
fn flac_tags_ignore_other_lines_law_on_values() {
    assert_eq!(parse_flac_tags("ALBUMARTIST=V\nARTIST=A\nDATE=1\n"), None);
    let t1 = "ARTIST=A\nALBUM=B\nDATE=1\n";
    let t2 = "TITLE=x\nARTIST=A\nALBUMARTIST=V\nYEAR=1999\nALBUM=B\nDATE=1\nGENRE=g";
    assert_eq!(parse_flac_tags(t1), parse_flac_tags(t2));
    assert!(parse_flac_tags(t1).is_some());
}

#[test]
fn id3_pairs_join_law_on_values() {
    let c1 = "ARTIST=A\nfoo=1\nTITLE=T";
    let c2 = "DATE=2\n\nGENRE=g\n";
    let mut joined = id3_tag_args(c1);
    joined.extend(id3_tag_args(c2));
    assert_eq!(id3_tag_args(&format!("{}\n{}", c1, c2)), joined);
    assert_eq!(id3_tag_args(&format!("{}\n\n{}", c1, c2)), joined);
    assert!(id3_tag_args("").is_empty());
    assert_eq!(id3v2_args("--song", "T", "/m/a.mp3"), strings(&["--song", "T", "/m/a.mp3"]));
}

#[test]
fn metaflac_arguments() {
    assert_eq!(metaflac_tags_args("/m/a.flac"), strings(&["--export-tags-to=-", "/m/a.flac"]));
}

#[test]
fn file_names_and_stems_follow_path_components() {
    for (path, stem) in [("/m/a.b/", Some("a")), ("x/..", None), ("/m/.hidden", Some(".hidden")), ("/m/a./.", Some("a")), ("c", Some("c")), ("/", None), ("..a.b", Some("..a"))] {
        assert_eq!(spectrogram_job(path, ".").map(|j| j.file_name), stem.map(|s| s.to_string()), "{}", path);
        assert_eq!(std::path::Path::new(path).file_stem().map(|s| s.to_str().unwrap().to_string()), stem.map(|s| s.to_string()));
    }
}

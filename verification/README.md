# flac album transcoder

A command-line tool that takes a folder of FLAC files and

* `-T <folder>`: encodes every file to MP3 CBR 320 and MP3 VBR V0 (bringing
  24-bit files down to a 16-bit copy first), carries tags and cover art over,
  keeps logs of each conversion, and sorts the results into folders named
  `<artist> - <album> (<year>) [FLAC|MP3_CBR|MP3_VBR]`;
* `-S <folder>`: draws full and zoomed spectrograms of the first, middle and
  last file with `sox`, and logs the commands used.

Layout:

* `src/` is the verified library: how the output of `sox --i`, `metaflac`
  and `identify` is read, which files and folders are used, which commands run
  with which arguments, and what the logs say. `text.rs` holds the text rules
  (lines, splitting, trimming, byte offsets, lowercase comparison), `paths.rs`
  the file names and stems of `std::path::Path` and its named results.
  The copying of tags and cover art is a step function that `app/` drives.
* `app/` runs the external programs, moves files and writes the logs.
* `tests/` runs the library on concrete values, and holds parts of it against
  the same reading written with `std`'s string methods.

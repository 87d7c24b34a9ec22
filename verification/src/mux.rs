//! How ffmpeg is started to put downloaded streams into one file, and what it prints.

use vstd::prelude::*;

use crate::net;
use crate::net::{JobEvent, report_progress};
use crate::number;
use crate::number::parse_i64;
use crate::paths;
use crate::paths::change_extension;
use crate::text;
use crate::text::{owned, push_text, strip_prefix, trimmed};

verus! {

/// The arguments that put one stream into an mp4 file.
pub open spec fn single_args(input: Seq<char>, output: Seq<char>) -> Seq<Seq<char>> {
    seq![
        "-y"@,
        "-fflags"@,
        "+genpts"@,
        "-i"@,
        input,
        "-map"@,
        "0:v:0"@,
        "-map"@,
        "0:a:0?"@,
        "-c"@,
        "copy"@,
        "-bsf:a"@,
        "aac_adtstoasc"@,
        "-movflags"@,
        "+faststart"@,
        output,
    ]
}

/// The arguments that put one stream into an mkv file, where an mp4 file cannot hold
/// it.
pub open spec fn single_fallback_args(input: Seq<char>, output: Seq<char>) -> Seq<Seq<char>> {
    seq!["-y"@, "-fflags"@, "+genpts"@, "-i"@, input, "-c"@, "copy"@, output]
}

/// The arguments that put a video and an audio stream into an mp4 file.
pub open spec fn demuxed_args(video: Seq<char>, audio: Seq<char>, output: Seq<char>) -> Seq<
    Seq<char>,
> {
    seq![
        "-y"@,
        "-i"@,
        video,
        "-i"@,
        audio,
        "-map"@,
        "0:v:0"@,
        "-map"@,
        "1:a:0"@,
        "-c"@,
        "copy"@,
        "-movflags"@,
        "+faststart"@,
        output,
    ]
}

/// The arguments that put a video and an audio stream into an mkv file.
pub open spec fn demuxed_fallback_args(
    video: Seq<char>,
    audio: Seq<char>,
    output: Seq<char>,
) -> Seq<Seq<char>> {
    seq![
        "-y"@,
        "-i"@,
        video,
        "-i"@,
        audio,
        "-map"@,
        "0:v:0"@,
        "-map"@,
        "1:a:0"@,
        "-c"@,
        "copy"@,
        output,
    ]
}

/// Arguments, and those that make ffmpeg print how far it is.
pub open spec fn reporting(args: Seq<Seq<char>>, report: bool) -> Seq<Seq<char>> {
    if report {
        args + seq!["-progress"@, "pipe:1"@, "-nostats"@]
    } else {
        args
    }
}

/// A run of ffmpeg: its arguments and the file that it makes.
#[derive(Debug)]
pub struct MuxRun {
    pub args: Vec<String>,
    pub output: String,
}

/// Whether a run has the arguments and makes the file.
pub open spec fn is_run(r: MuxRun, args: Seq<Seq<char>>, output: Seq<char>) -> bool {
    text::texts(r.args@) == args && r.output@ == output
}

fn arguments(list: &Vec<&str>, report: bool) -> (r: Vec<String>)
    ensures
        text::texts(r@) == reporting(text::str_texts(list@), report),
{
    let mut out = owned(list);
    if report {
        push_text(&mut out, "-progress");
        push_text(&mut out, "pipe:1");
        push_text(&mut out, "-nostats");
        assert(text::texts(out@) =~= reporting(text::str_texts(list@), true));
    }
    out
}

/// The runs that put one stream into a file: the second where the first fails.
pub fn mux_single(input: &str, output: &str, report: bool) -> (r: (MuxRun, MuxRun))
    ensures
        is_run(r.0, reporting(single_args(input@, output@), report), output@),
        ({
            let mkv = paths::with_extension(output@, "mkv"@);
            is_run(r.1, reporting(single_fallback_args(input@, mkv), report), mkv)
        }),
{
    let first: Vec<&str> = vec![
        "-y", "-fflags", "+genpts", "-i", input, "-map", "0:v:0", "-map", "0:a:0?", "-c", "copy",
        "-bsf:a", "aac_adtstoasc", "-movflags", "+faststart", output,
    ];
    assert(text::str_texts(first@) =~= single_args(input@, output@));
    let mkv = change_extension(output, "mkv");
    let second: Vec<&str> = vec![
        "-y", "-fflags", "+genpts", "-i", input, "-c", "copy", mkv.as_str(),
    ];
    assert(text::str_texts(second@) =~= single_fallback_args(input@, mkv@));
    let first_args = arguments(&first, report);
    let second_args = arguments(&second, report);
    (
        MuxRun { args: first_args, output: output.to_string() },
        MuxRun { args: second_args, output: mkv },
    )
}

/// The runs that put a video and an audio stream into a file: the second where the
/// first fails.
pub fn mux_demuxed(video: &str, audio: &str, output: &str, report: bool) -> (r: (MuxRun, MuxRun))
    ensures
        is_run(r.0, reporting(demuxed_args(video@, audio@, output@), report), output@),
        ({
            let mkv = paths::with_extension(output@, "mkv"@);
            is_run(r.1, reporting(demuxed_fallback_args(video@, audio@, mkv), report), mkv)
        }),
{
    let first: Vec<&str> = vec![
        "-y", "-i", video, "-i", audio, "-map", "0:v:0", "-map", "1:a:0", "-c", "copy", "-movflags",
        "+faststart", output,
    ];
    assert(text::str_texts(first@) =~= demuxed_args(video@, audio@, output@));
    let mkv = change_extension(output, "mkv");
    let second: Vec<&str> = vec![
        "-y", "-i", video, "-i", audio, "-map", "0:v:0", "-map", "1:a:0", "-c", "copy",
        mkv.as_str(),
    ];
    assert(text::str_texts(second@) =~= demuxed_fallback_args(video@, audio@, mkv@));
    let first_args = arguments(&first, report);
    let second_args = arguments(&second, report);
    (
        MuxRun { args: first_args, output: output.to_string() },
        MuxRun { args: second_args, output: mkv },
    )
}

/// How far ffmpeg says it is, in milliseconds, in a line that it prints.
pub open spec fn reported_ms(line: Seq<char>) -> Option<u64> {
    let front = "out_time_us="@;
    if text::has_prefix(line, front) {
        match number::parsed_int(
            text::trim(line.skip(front.len() as int)),
            i64::MIN as int,
            i64::MAX as int,
        ) {
            Some(us) if us >= 0 => Some((us / 1000) as u64),
            _ => None,
        }
    } else {
        None
    }
}

/// Reads a line that ffmpeg prints; the whole takes `total_ms`.
pub fn progress_line(line: &[char], total_ms: u64) -> (r: Option<JobEvent>)
    ensures
        r == (match reported_ms(line@) {
            Some(ms) => Some(net::progress_point(ms, total_ms)),
            None => None,
        }),
{
    match strip_prefix(line, "out_time_us=") {
        None => None,
        Some(rest) => match parse_i64(trimmed(rest)) {
            Some(us) => if us >= 0 {
                Some(report_progress(us as u64 / 1000, total_ms))
            } else {
                None
            },
            None => None,
        },
    }
}

} // verus!

use vstd::prelude::*;

use crate::decimal::{float_syntax, is_float_literal};
use crate::numbers::{decimal, parse_uint, push_decimal, push_zero_padded, uint_from_str, zero_padded};
use crate::text::{chars_of, lines, occurs_at, push_str_chars, split_lines, string_of, trim, trim_range, views};

verus! {

/// `std::path::MAIN_SEPARATOR`: the separator of path components on this platform.
#[verifier::external_body]
fn main_separator() -> (c: char)
    ensures
        c == '/' || c == '\\',
{
    std::path::MAIN_SEPARATOR
}

/// `dir` and `name` joined into one path with separator `sep`: no separator is added when
/// `dir` is empty or already ends with `'/'` or `'\\'`.
pub open spec fn join_path(dir: Seq<char>, name: Seq<char>, sep: char) -> Seq<char> {
    if dir.len() == 0 || dir.last() == '/' || dir.last() == '\\' {
        dir + name
    } else {
        dir + seq![sep] + name
    }
}

/// A path is the directory part (with its separator) followed by the file name.
pub proof fn lemma_join_path_parts(dir: Seq<char>, name: Seq<char>, sep: char)
    ensures
        join_path(dir, name, sep) == join_path(dir, seq![], sep) + name,
{
    assert(dir + name =~= (dir + seq![]) + name);
    assert(dir + seq![sep] + name =~= (dir + seq![sep] + seq![]) + name);
}

/// `dir` and `name` joined with the separator `sep`, as `join_path` says.
pub fn join_with_separator(dir: &str, name: &str, sep: char) -> (r: String)
    ensures
        r@ == join_path(dir@, name@, sep),
{
    let d = chars_of(dir);
    let mut out: Vec<char> = Vec::new();
    push_str_chars(&mut out, dir);
    let n = d.len();
    if !(n == 0 || d[n - 1] == '/' || d[n - 1] == '\\') {
        out.push(sep);
    }
    push_str_chars(&mut out, name);
    assert(out@ =~= join_path(dir@, name@, sep));
    string_of(&out)
}

/// The path of the `ffmpeg.exe` program inside the directory `ffmpeg_dir`, joined with the
/// platform's separator.
pub fn ffmpeg_bin(ffmpeg_dir: &str) -> (r: String)
    ensures
        exists|sep: char|
            (sep == '/' || sep == '\\') && r@ == join_path(ffmpeg_dir@, "ffmpeg.exe"@, sep),
{
    join_with_separator(ffmpeg_dir, "ffmpeg.exe", main_separator())
}

/// The path of the `ffprobe.exe` program inside the directory `ffmpeg_dir`, joined with the
/// platform's separator.
pub fn ffprobe_bin(ffmpeg_dir: &str) -> (r: String)
    ensures
        exists|sep: char|
            (sep == '/' || sep == '\\') && r@ == join_path(ffmpeg_dir@, "ffprobe.exe"@, sep),
{
    join_with_separator(ffmpeg_dir, "ffprobe.exe", main_separator())
}

/// The paths of both programs inside `ffmpeg_dir`, `ffmpeg.exe` and then `ffprobe.exe`,
/// joined with the same separator, so that they name files of one directory.
pub fn ffmpeg_tools(ffmpeg_dir: &str) -> (r: (String, String))
    ensures
        exists|sep: char|
            (sep == '/' || sep == '\\') && r.0@ == join_path(ffmpeg_dir@, "ffmpeg.exe"@, sep)
                && r.1@ == join_path(ffmpeg_dir@, "ffprobe.exe"@, sep),
{
    let sep = main_separator();
    (
        join_with_separator(ffmpeg_dir, "ffmpeg.exe", sep),
        join_with_separator(ffmpeg_dir, "ffprobe.exe", sep),
    )
}

/// The two program paths that one separator gives share their directory part and differ
/// only in the file name.
pub proof fn lemma_tools_share_directory(dir: Seq<char>, sep: char)
    ensures
        join_path(dir, "ffmpeg.exe"@, sep) == join_path(dir, seq![], sep) + "ffmpeg.exe"@,
        join_path(dir, "ffprobe.exe"@, sep) == join_path(dir, seq![], sep) + "ffprobe.exe"@,
{
    lemma_join_path_parts(dir, "ffmpeg.exe"@, sep);
    lemma_join_path_parts(dir, "ffprobe.exe"@, sep);
}

/// The FFmpeg directory to use: the first candidate (nearest first) that holds the program,
/// or `fallback` when none does.
pub open spec fn chosen_dir(candidates: Seq<Seq<char>>, present: Seq<bool>, fallback: Seq<char>) -> Seq<
    char,
>
    decreases candidates.len(),
{
    if candidates.len() == 0 || present.len() == 0 {
        fallback
    } else if present[0] {
        candidates[0]
    } else {
        chosen_dir(candidates.drop_first(), present.drop_first(), fallback)
    }
}

/// Picks the FFmpeg directory among `candidates` (the `ffmpeg` directories of the program's
/// directory and of each directory above it, nearest first), given whether each holds
/// `ffmpeg.exe`, as `chosen_dir` says.
pub fn choose_ffmpeg_dir(candidates: &Vec<String>, present: &Vec<bool>, fallback: &str) -> (r: String)
    requires
        present@.len() == candidates@.len(),
    ensures
        r@ == chosen_dir(crate::text::string_views(candidates@), present@, fallback@),
{
    let ghost cs = crate::text::string_views(candidates@);
    let n = candidates.len();
    let mut i: usize = 0;
    assert(cs.skip(0) =~= cs);
    assert(present@.skip(0) =~= present@);
    while i < n
        invariant
            n == candidates@.len(),
            n == present@.len(),
            i <= n,
            cs == crate::text::string_views(candidates@),
            chosen_dir(cs, present@, fallback@) == chosen_dir(
                cs.skip(i as int),
                present@.skip(i as int),
                fallback@,
            ),
        decreases n - i,
    {
        assert(cs.skip(i as int)[0] == candidates@[i as int]@);
        assert(cs.skip(i as int).drop_first() =~= cs.skip(i + 1));
        assert(present@.skip(i as int).drop_first() =~= present@.skip(i + 1));
        if present[i] {
            return string_of(&chars_of(candidates[i].as_str()));
        }
        i = i + 1;
    }
    assert(cs.skip(n as int).len() == 0);
    string_of(&chars_of(fallback))
}

/// The stream facts that `ffprobe` reports for an audio file.
#[derive(Clone, Copy, Debug)]
pub struct AudioMeta {
    pub duration_ms: u64,
    pub sample_rate: u32,
    pub channels: u16,
}

/// `l` starts with `p`.
pub open spec fn has_prefix(l: Seq<char>, p: Seq<char>) -> bool {
    l.len() >= p.len() && l.take(p.len() as int) == p
}

/// The facts after reading one more line of `ffprobe` output: `sample_rate=` and
/// `channels=` set their field (44100 and 2 when the value does not read as a number that
/// fits), `duration=` sets the duration (in seconds, as written) when its value, trimmed,
/// reads as a float literal.
pub open spec fn probe_step(m: (Option<Seq<char>>, u32, u16), l: Seq<char>) -> (
    Option<Seq<char>>,
    u32,
    u16,
) {
    if has_prefix(l, "sample_rate="@) {
        let v = uint_from_str(trim(l.skip(12)), u32::MAX as nat);
        (m.0, if v is Some { v.unwrap() as u32 } else { 44100 }, m.2)
    } else if has_prefix(l, "channels="@) {
        let v = uint_from_str(trim(l.skip(9)), u16::MAX as nat);
        (m.0, m.1, if v is Some { v.unwrap() as u16 } else { 2 })
    } else if has_prefix(l, "duration="@) {
        if float_syntax(trim(l.skip(9))) {
            (Some(trim(l.skip(9))), m.1, m.2)
        } else {
            m
        }
    } else {
        m
    }
}

/// The facts (duration text, sample rate, channels) that the lines `ls` give, starting from
/// no duration, 44100 Hz and two channels.
pub open spec fn probe_facts(ls: Seq<Seq<char>>) -> (Option<Seq<char>>, u32, u16)
    decreases ls.len(),
{
    if ls.len() == 0 {
        (None, 44100, 2)
    } else {
        probe_step(probe_facts(ls.drop_last()), ls.last())
    }
}

impl AudioMeta {
    /// The view: duration in milliseconds, sample rate, channels.
    pub open spec fn facts(&self) -> (u64, u32, u16) {
        (self.duration_ms, self.sample_rate, self.channels)
    }
}

/// What the `key=value` output of `ffprobe` reports: the duration in seconds as written (when
/// some `duration=` line reads as a float), the sample rate and the channel count.
pub struct ProbeReport {
    pub duration: Option<String>,
    pub sample_rate: u32,
    pub channels: u16,
}

impl ProbeReport {
    /// The view: duration text, sample rate, channels.
    pub open spec fn facts(&self) -> (Option<Seq<char>>, u32, u16) {
        (
            match self.duration {
                Some(d) => Some(d@),
                None => None,
            },
            self.sample_rate,
            self.channels,
        )
    }

    /// The audio facts of the report, with its duration given in whole milliseconds.
    pub fn meta(&self, duration_ms: u64) -> (r: AudioMeta)
        ensures
            r.facts() == (duration_ms, self.sample_rate, self.channels),
    {
        AudioMeta { duration_ms, sample_rate: self.sample_rate, channels: self.channels }
    }
}

/// The report in the `key=value` output of `ffprobe`, as `probe_facts` reads it.
pub fn parse_probe_output(output: &str) -> (r: ProbeReport)
    ensures
        r.facts() == probe_facts(lines(output@)),
{
    let chars = chars_of(output);
    let ls = split_lines(&chars);
    let ghost all = views(ls@);
    let sr_key = chars_of("sample_rate=");
    let ch_key = chars_of("channels=");
    let du_key = chars_of("duration=");
    proof {
        reveal_strlit("sample_rate=");
        reveal_strlit("channels=");
        reveal_strlit("duration=");
    }
    let mut dur: Option<Vec<char>> = None;
    let mut sr: u32 = 44100;
    let mut ch: u16 = 2;
    let n = ls.len();
    for i in 0..n
        invariant
            n == ls@.len(),
            all == views(ls@),
            sr_key@ == "sample_rate="@,
            ch_key@ == "channels="@,
            du_key@ == "duration="@,
            sr_key@.len() == 12,
            ch_key@.len() == 9,
            du_key@.len() == 9,
            ((match dur {
                Some(d) => Some(d@),
                None => None,
            }), sr, ch) == probe_facts(all.take(i as int)),
    {
        let l = &ls[i];
        let len = l.len();
        assert(all.take(i + 1).drop_last() =~= all.take(i as int));
        assert(all.take(i + 1).last() == l@);
        assert(l@.take(12) == l@.subrange(0, 12) || l@.len() < 12);
        if occurs_at(l, &sr_key, 0) {
            assert(l@.subrange(0, 12) =~= l@.take(12));
            let v = trim_range(l, 12, len);
            assert(l@.subrange(12, len as int) =~= l@.skip(12));
            sr = match parse_uint(&v, 0, v.len(), 0xffff_ffff) {
                Some(x) => x as u32,
                None => 44100,
            };
            assert(v@.subrange(0, v@.len() as int) =~= v@);
        } else if occurs_at(l, &ch_key, 0) {
            assert(l@.subrange(0, 9) =~= l@.take(9));
            proof {
                if l@.len() >= 12 {
                    assert(l@.subrange(0, 12) =~= l@.take(12));
                }
            }
            let v = trim_range(l, 9, len);
            assert(l@.subrange(9, len as int) =~= l@.skip(9));
            ch = match parse_uint(&v, 0, v.len(), 0xffff) {
                Some(x) => x as u16,
                None => 2,
            };
            assert(v@.subrange(0, v@.len() as int) =~= v@);
        } else if occurs_at(l, &du_key, 0) {
            assert(l@.subrange(0, 9) =~= l@.take(9));
            proof {
                if l@.len() >= 12 {
                    assert(l@.subrange(0, 12) =~= l@.take(12));
                }
                assert(l@.subrange(0, 9) =~= l@.take(9));
            }
            let v = trim_range(l, 9, len);
            assert(l@.subrange(9, len as int) =~= l@.skip(9));
            if is_float_literal(&v) {
                dur = Some(v);
            }
        } else {
            proof {
                if l@.len() >= 12 {
                    assert(l@.subrange(0, 12) =~= l@.take(12));
                }
                if l@.len() >= 9 {
                    assert(l@.subrange(0, 9) =~= l@.take(9));
                }
            }
        }
    }
    assert(all.take(n as int) =~= all);
    let duration = match dur {
        Some(d) => Some(string_of(&d)),
        None => None,
    };
    ProbeReport { duration, sample_rate: sr, channels: ch }
}

} // verus!

verus! {

/// A position in milliseconds written in seconds with three decimals, as `-ss` takes it.
pub open spec fn seek_offset_spec(position_ms: u64) -> Seq<char> {
    decimal((position_ms / 1000) as nat) + seq!['.'] + zero_padded((position_ms % 1000) as nat, 3)
}

/// The `-ss` argument for starting playback at `position_ms`.
pub fn seek_offset_arg(position_ms: u64) -> (r: String)
    ensures
        r@ == seek_offset_spec(position_ms),
{
    let mut out: Vec<char> = Vec::new();
    push_decimal(&mut out, (position_ms / 1000) as u128);
    out.push('.');
    push_zero_padded(&mut out, position_ms % 1000, 3);
    assert(out@ =~= seek_offset_spec(position_ms));
    string_of(&out)
}

fn decimal_string(n: u64) -> (r: String)
    ensures
        r@ == decimal(n as nat),
{
    let mut out: Vec<char> = Vec::new();
    push_decimal(&mut out, n as u128);
    assert(out@ =~= decimal(n as nat));
    string_of(&out)
}

/// The `ffmpeg` arguments that decode `path` to raw 16-bit little-endian samples on standard
/// output at the given rate and channel count, starting at `start` (seconds) when given.
pub open spec fn decode_args_spec(
    path: Seq<char>,
    sample_rate: u32,
    channels: u16,
    start: Option<Seq<char>>,
) -> Seq<Seq<char>> {
    (match start {
        Some(s) => seq!["-ss"@, s],
        None => seq![],
    }) + seq![
        "-i"@,
        path,
        "-f"@,
        "s16le"@,
        "-acodec"@,
        "pcm_s16le"@,
        "-ar"@,
        decimal(sample_rate as nat),
        "-ac"@,
        decimal(channels as nat),
        "-"@,
    ]
}

/// The `ffmpeg` arguments for decoding, as `decode_args_spec` lists them.
pub fn ffmpeg_decode_args(path: &str, sample_rate: u32, channels: u16, start: Option<String>) -> (r:
    Vec<String>)
    ensures
        r@.map_values(|s: String| s@) == decode_args_spec(
            path@,
            sample_rate,
            channels,
            match start {
                Some(s) => Some(s@),
                None => None,
            },
        ),
{
    let mut r: Vec<String> = Vec::new();
    let ghost st = match &start {
        Some(s) => Some(s@),
        None => None::<Seq<char>>,
    };
    match start {
        Some(s) => {
            r.push(crate::text::owned("-ss"));
            r.push(s);
        },
        None => {},
    }
    r.push(crate::text::owned("-i"));
    r.push(crate::text::owned(path));
    r.push(crate::text::owned("-f"));
    r.push(crate::text::owned("s16le"));
    r.push(crate::text::owned("-acodec"));
    r.push(crate::text::owned("pcm_s16le"));
    r.push(crate::text::owned("-ar"));
    r.push(decimal_string(sample_rate as u64));
    r.push(crate::text::owned("-ac"));
    r.push(decimal_string(channels as u64));
    r.push(crate::text::owned("-"));
    assert(r@.map_values(|s: String| s@) =~= decode_args_spec(path@, sample_rate, channels, st));
    r
}

} // verus!

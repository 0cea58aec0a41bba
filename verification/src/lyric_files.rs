use vstd::prelude::*;

use crate::lyrics::{LyricLine, lrc_lyrics, lyric_views, parse_lrc};
use crate::lyrics::sort_by_time;
use crate::subtitles::{
    Cue, ass_cues, ass_entries, cue_views, parse_ass, parse_vtt_srt, vtt_srt_cues, vtt_srt_entries,
    with_times,
};
use crate::text::concat_str;

verus! {

/// The format a lyrics file is read in.
#[derive(Clone, Copy, PartialEq, Eq, Structural, Debug)]
pub enum LyricFormat {
    Lrc,
    VttSrt,
    Ass,
}

/// The cues whose times are written as timestamps in `content` read in format `f`, in file
/// order: none for LRC, whose tags give whole milliseconds.
pub open spec fn cues_in_format(f: LyricFormat, content: Seq<char>) -> Seq<
    (Seq<Seq<char>>, Seq<char>),
> {
    match f {
        LyricFormat::Lrc => seq![],
        LyricFormat::VttSrt => vtt_srt_entries(content),
        LyricFormat::Ass => ass_entries(content),
    }
}

/// The lyrics that `content` holds when read in format `f`, the cues (`cues_in_format`)
/// taking the given times in milliseconds.
pub open spec fn lyrics_in_format(f: LyricFormat, content: Seq<char>, times: Seq<u64>) -> Seq<
    (u64, Seq<char>),
> {
    match f {
        LyricFormat::Lrc => lrc_lyrics(content),
        _ => sort_by_time(with_times(cues_in_format(f, content), times)),
    }
}

/// The cues of `content` read in format `f`, as `cues_in_format` gives them.
pub fn format_cues(f: LyricFormat, content: &str) -> (r: Vec<Cue>)
    ensures
        cue_views(r@) == cues_in_format(f, content@),
{
    match f {
        LyricFormat::Lrc => {
            let r: Vec<Cue> = Vec::new();
            assert(cue_views(r@) =~= Seq::<(Seq<Seq<char>>, Seq<char>)>::empty());
            r
        },
        LyricFormat::VttSrt => vtt_srt_cues(content),
        LyricFormat::Ass => ass_cues(content),
    }
}

/// Reads `content` in format `f`, given the time of each of its cues.
pub fn parse_in_format(f: LyricFormat, content: &str, times: &Vec<u64>) -> (r: Vec<LyricLine>)
    requires
        times@.len() == cues_in_format(f, content@).len(),
    ensures
        lyric_views(r@) == lyrics_in_format(f, content@, times@),
{
    match f {
        LyricFormat::Lrc => parse_lrc(content),
        LyricFormat::VttSrt => parse_vtt_srt(content, times),
        LyricFormat::Ass => parse_ass(content, times),
    }
}

/// The file names where lyrics for an audio file may be found, in the order they are tried,
/// with the format each is read in: the stem with `.lrc`, `.vtt`, `.srt`, `.ass`, `.ssa`,
/// then the whole file name with `.vtt`, `.srt`, `.lrc`. A name made of the suffix alone
/// (an empty stem or file name) is a hidden file without an extension, and is not tried.
pub open spec fn lyric_candidate_names(stem: Seq<char>, file_name: Seq<char>) -> Seq<
    (Seq<char>, LyricFormat),
> {
    let by_stem = if stem.len() == 0 {
        seq![]
    } else {
        seq![
            (stem + seq!['.', 'l', 'r', 'c'], LyricFormat::Lrc),
            (stem + seq!['.', 'v', 't', 't'], LyricFormat::VttSrt),
            (stem + seq!['.', 's', 'r', 't'], LyricFormat::VttSrt),
            (stem + seq!['.', 'a', 's', 's'], LyricFormat::Ass),
            (stem + seq!['.', 's', 's', 'a'], LyricFormat::Ass),
        ]
    };
    let by_name = if file_name.len() == 0 {
        seq![]
    } else {
        seq![
            (file_name + seq!['.', 'v', 't', 't'], LyricFormat::VttSrt),
            (file_name + seq!['.', 's', 'r', 't'], LyricFormat::VttSrt),
            (file_name + seq!['.', 'l', 'r', 'c'], LyricFormat::Lrc),
        ]
    };
    by_stem + by_name
}

/// `s` ends with `suffix`.
pub open spec fn ends_with(s: Seq<char>, suffix: Seq<char>) -> bool {
    s.len() >= suffix.len() && s.skip(s.len() - suffix.len()) == suffix
}

/// The format that a file extension names: `.lrc` is LRC, `.vtt` and `.srt` are
/// WebVTT/SubRip, `.ass` and `.ssa` are ASS/SSA.
pub open spec fn named_format(name: Seq<char>, f: LyricFormat) -> bool {
    &&& ends_with(name, seq!['.', 'l', 'r', 'c']) ==> f == LyricFormat::Lrc
    &&& ends_with(name, seq!['.', 'v', 't', 't']) ==> f == LyricFormat::VttSrt
    &&& ends_with(name, seq!['.', 's', 'r', 't']) ==> f == LyricFormat::VttSrt
    &&& ends_with(name, seq!['.', 'a', 's', 's']) ==> f == LyricFormat::Ass
    &&& ends_with(name, seq!['.', 's', 's', 'a']) ==> f == LyricFormat::Ass
}

proof fn lemma_suffix_format(p: Seq<char>, suffix: Seq<char>, f: LyricFormat)
    requires
        suffix.len() == 4,
        suffix[0] == '.',
        (suffix == seq!['.', 'l', 'r', 'c'] && f == LyricFormat::Lrc) || (suffix == seq![
            '.',
            'v',
            't',
            't',
        ] && f == LyricFormat::VttSrt) || (suffix == seq!['.', 's', 'r', 't'] && f
            == LyricFormat::VttSrt) || (suffix == seq!['.', 'a', 's', 's'] && f == LyricFormat::Ass)
            || (suffix == seq!['.', 's', 's', 'a'] && f == LyricFormat::Ass),
    ensures
        named_format(p + suffix, f),
        ends_with(p + suffix, suffix),
{
    let n = p + suffix;
    assert(n.skip(n.len() - 4) =~= suffix);
    let t = n.skip(n.len() - 4);
    assert(t[1] == suffix[1] && t[2] == suffix[2] && t[3] == suffix[3]);
    assert(seq!['.', 'l', 'r', 'c'][1] == 'l');
    assert(seq!['.', 'v', 't', 't'][1] == 'v');
    assert(seq!['.', 's', 'r', 't'][2] == 'r');
    assert(seq!['.', 'a', 's', 's'][1] == 'a');
    assert(seq!['.', 's', 's', 'a'][2] == 's');
    assert(seq!['.', 's', 'r', 't'][1] == 's');
    assert(seq!['.', 's', 's', 'a'][1] == 's');
    assert(seq!['.', 'l', 'r', 'c'][3] == 'c');
    assert(seq!['.', 'v', 't', 't'][3] == 't');
    assert(seq!['.', 's', 'r', 't'][3] == 't');
    assert(seq!['.', 'a', 's', 's'][3] == 's');
    assert(seq!['.', 's', 's', 'a'][3] == 'a');
}

/// Every candidate is read in the format its extension names, and every candidate name ends
/// with one of `.lrc`, `.vtt`, `.srt`, `.ass`, `.ssa`.
pub proof fn lemma_candidate_formats(stem: Seq<char>, file_name: Seq<char>)
    ensures
        forall|i: int|
            0 <= i < lyric_candidate_names(stem, file_name).len() ==> named_format(
                (#[trigger] lyric_candidate_names(stem, file_name)[i]).0,
                lyric_candidate_names(stem, file_name)[i].1,
            ),
        forall|i: int|
            0 <= i < lyric_candidate_names(stem, file_name).len() ==> {
                let n = (#[trigger] lyric_candidate_names(stem, file_name)[i]).0;
                ||| ends_with(n, seq!['.', 'l', 'r', 'c'])
                ||| ends_with(n, seq!['.', 'v', 't', 't'])
                ||| ends_with(n, seq!['.', 's', 'r', 't'])
                ||| ends_with(n, seq!['.', 'a', 's', 's'])
                ||| ends_with(n, seq!['.', 's', 's', 'a'])
            },
{
    let lrc = seq!['.', 'l', 'r', 'c'];
    let vtt = seq!['.', 'v', 't', 't'];
    let srt = seq!['.', 's', 'r', 't'];
    let ass = seq!['.', 'a', 's', 's'];
    let ssa = seq!['.', 's', 's', 'a'];
    lemma_suffix_format(stem, lrc, LyricFormat::Lrc);
    lemma_suffix_format(stem, vtt, LyricFormat::VttSrt);
    lemma_suffix_format(stem, srt, LyricFormat::VttSrt);
    lemma_suffix_format(stem, ass, LyricFormat::Ass);
    lemma_suffix_format(stem, ssa, LyricFormat::Ass);
    lemma_suffix_format(file_name, vtt, LyricFormat::VttSrt);
    lemma_suffix_format(file_name, srt, LyricFormat::VttSrt);
    lemma_suffix_format(file_name, lrc, LyricFormat::Lrc);
    let names = lyric_candidate_names(stem, file_name);
    assert forall|i: int| 0 <= i < names.len() implies named_format(
        (#[trigger] names[i]).0,
        names[i].1,
    ) && {
        let n = names[i].0;
        ||| ends_with(n, lrc)
        ||| ends_with(n, vtt)
        ||| ends_with(n, srt)
        ||| ends_with(n, ass)
        ||| ends_with(n, ssa)
    } by {
        let k = if stem.len() == 0 {
            0int
        } else {
            5int
        };
        if i < k {
            assert(names[i] == (seq![
                (stem + lrc, LyricFormat::Lrc),
                (stem + vtt, LyricFormat::VttSrt),
                (stem + srt, LyricFormat::VttSrt),
                (stem + ass, LyricFormat::Ass),
                (stem + ssa, LyricFormat::Ass),
            ])[i]);
        } else {
            assert(names[i] == (seq![
                (file_name + vtt, LyricFormat::VttSrt),
                (file_name + srt, LyricFormat::VttSrt),
                (file_name + lrc, LyricFormat::Lrc),
            ])[i - k]);
        }
    }
}

/// The lyrics file names to try for an audio file with the given stem and file name.
pub fn lyric_candidates(stem: &str, file_name: &str) -> (r: Vec<(String, LyricFormat)>)
    ensures
        r@.len() == lyric_candidate_names(stem@, file_name@).len(),
        forall|i: int|
            0 <= i < r@.len() ==> (#[trigger] r@[i]).0@ == lyric_candidate_names(stem@, file_name@)[i].0
                && r@[i].1 == lyric_candidate_names(stem@, file_name@)[i].1,
{
    proof {
        reveal_strlit(".lrc");
        reveal_strlit(".vtt");
        reveal_strlit(".srt");
        reveal_strlit(".ass");
        reveal_strlit(".ssa");
    }
    assert(".lrc"@ =~= seq!['.', 'l', 'r', 'c']);
    assert(".vtt"@ =~= seq!['.', 'v', 't', 't']);
    assert(".srt"@ =~= seq!['.', 's', 'r', 't']);
    assert(".ass"@ =~= seq!['.', 'a', 's', 's']);
    assert(".ssa"@ =~= seq!['.', 's', 's', 'a']);
    let ghost names = lyric_candidate_names(stem@, file_name@);
    let mut r: Vec<(String, LyricFormat)> = Vec::new();
    if stem.unicode_len() > 0 {
        r.push((concat_str(stem, ".lrc"), LyricFormat::Lrc));
        r.push((concat_str(stem, ".vtt"), LyricFormat::VttSrt));
        r.push((concat_str(stem, ".srt"), LyricFormat::VttSrt));
        r.push((concat_str(stem, ".ass"), LyricFormat::Ass));
        r.push((concat_str(stem, ".ssa"), LyricFormat::Ass));
    }
    let k = r.len();
    assert(k as int == (if stem@.len() == 0 { 0int } else { 5int }));
    assert(forall|i: int| 0 <= i < k ==> (#[trigger] r@[i]).0@ == names[i].0 && r@[i].1 == names[i].1);
    if file_name.unicode_len() > 0 {
        r.push((concat_str(file_name, ".vtt"), LyricFormat::VttSrt));
        r.push((concat_str(file_name, ".srt"), LyricFormat::VttSrt));
        r.push((concat_str(file_name, ".lrc"), LyricFormat::Lrc));
    }
    r
}

/// The lyrics of the first file from position `i` on that could be read and gives at least
/// one line, or none. Each file comes with its format and, when it could be read, its content
/// and the times of its cues.
pub open spec fn first_lyrics(files: Seq<(LyricFormat, Option<(Seq<char>, Seq<u64>)>)>, i: int) -> Seq<
    (u64, Seq<char>),
>
    decreases files.len() - i,
{
    if i < 0 || i >= files.len() {
        seq![]
    } else {
        match files[i].1 {
            Some((c, t)) => if lyrics_in_format(files[i].0, c, t).len() > 0 {
                lyrics_in_format(files[i].0, c, t)
            } else {
                first_lyrics(files, i + 1)
            },
            None => first_lyrics(files, i + 1),
        }
    }
}

/// The views of the candidate files: each format with the content and cue times, when it
/// could be read.
pub open spec fn file_views(files: Seq<(LyricFormat, Option<(String, Vec<u64>)>)>) -> Seq<
    (LyricFormat, Option<(Seq<char>, Seq<u64>)>),
> {
    files.map_values(
        |f: (LyricFormat, Option<(String, Vec<u64>)>)|
            (
                f.0,
                match f.1 {
                    Some((s, t)) => Some((s@, t@)),
                    None => None,
                },
            ),
    )
}

/// Every candidate that could be read comes with one time for each of its cues.
pub open spec fn times_given(files: Seq<(LyricFormat, Option<(String, Vec<u64>)>)>) -> bool {
    forall|i: int|
        0 <= i < files.len() ==> match (#[trigger] files[i]).1 {
            Some((c, t)) => t@.len() == cues_in_format(files[i].0, c@).len(),
            None => true,
        }
}

/// Picks the lyrics of an audio file: the first candidate (in the order given) whose content
/// could be read and gives at least one line; none when no candidate does.
pub fn load_lyrics(files: &Vec<(LyricFormat, Option<(String, Vec<u64>)>)>) -> (r: Vec<LyricLine>)
    requires
        times_given(files@),
    ensures
        lyric_views(r@) == first_lyrics(file_views(files@), 0),
{
    let ghost fv = file_views(files@);
    let n = files.len();
    let mut i: usize = 0;
    while i < n
        invariant
            n == files@.len(),
            fv == file_views(files@),
            times_given(files@),
            i <= n,
            first_lyrics(fv, 0) == first_lyrics(fv, i as int),
        decreases n - i,
    {
        let (f, content) = (&files[i].0, &files[i].1);
        match content {
            Some((c, t)) => {
                let lyrics = parse_in_format(*f, c.as_str(), t);
                if lyrics.len() > 0 {
                    return lyrics;
                }
            },
            None => {},
        }
        i = i + 1;
    }
    Vec::new()
}

} // verus!

use lyric_island::lyric_files::{format_cues, load_lyrics, lyric_candidates, LyricFormat};
use lyric_island::lyrics::{lyrics_to_lrc, matched_lrc, parse_lrc, timestamp_fields, LyricLine};
use lyric_island::subtitles::{ass_cues, parse_ass, parse_vtt_srt, vtt_srt_cues, Cue};

/// The float step that the application performs on timestamp fields.
fn stamp_ms(fields: &[String]) -> u64 {
    let v: Vec<f64> = fields.iter().map(|f| f.parse::<f64>().unwrap()).collect();
    if v.len() == 2 {
        (v[0] * 60000.0 + v[1] * 1000.0) as u64
    } else {
        (v[0] * 3600000.0 + v[1] * 60000.0 + v[2] * 1000.0) as u64
    }
}

fn parse_timestamp(s: &str) -> Option<u64> {
    timestamp_fields(s).map(|f| stamp_ms(&f))
}

fn cue_times(cues: &[Cue]) -> Vec<u64> {
    cues.iter().map(|c| stamp_ms(&c.fields)).collect()
}

fn vtt(content: &str) -> Vec<LyricLine> {
    parse_vtt_srt(content, &cue_times(&vtt_srt_cues(content)))
}

fn ass(content: &str) -> Vec<LyricLine> {
    parse_ass(content, &cue_times(&ass_cues(content)))
}

fn candidate(f: LyricFormat, content: Option<&str>) -> (LyricFormat, Option<(String, Vec<u64>)>) {
    (f, content.map(|c| (c.to_string(), cue_times(&format_cues(f, c)))))
}

fn pairs(v: &[LyricLine]) -> Vec<(u64, String)> {
    v.iter().map(|l| (l.time_ms, l.text.clone())).collect()
}

fn line(t: u64, s: &str) -> LyricLine {
    LyricLine { time_ms: t, text: s.to_string() }
}

#[test]
fn lrc_lines_are_sorted_by_time() {
    let got = parse_lrc("[00:01.50]Hello\n[00:00.20]World\n");
    assert_eq!(pairs(&got), vec![(200, "World".to_string()), (1500, "Hello".to_string())]);
}

#[test]
fn lrc_three_fraction_digits_are_milliseconds() {
    let got = parse_lrc("[01:02.345]  sing along  ");
    assert_eq!(pairs(&got), vec![(62345, "sing along".to_string())]);
}

#[test]
fn lrc_digits_of_other_scripts_read_as_zero() {
    let got = parse_lrc("[\u{660}\u{660}:12.34]x\n[0\u{660}:01.234]y\n[01:02.\u{966}\u{967}\u{968}]z\n");
    assert_eq!(
        pairs(&got),
        vec![(1234, "y".to_string()), (12340, "x".to_string()), (62000, "z".to_string())]
    );
}

#[test]
fn lrc_tag_may_follow_other_text() {
    let got = parse_lrc("intro [00:05.00]hi\r\n");
    assert_eq!(pairs(&got), vec![(5000, "hi".to_string())]);
}

#[test]
fn lrc_lines_without_text_or_tag_are_skipped() {
    let got = parse_lrc("[ti:Song]\n[00:01.00]   \n[0:01.00]x\n[00:01.0]y\n[00:01.1234]z\n");
    assert!(got.is_empty());
}

#[test]
fn lrc_equal_times_keep_their_order() {
    let got = parse_lrc("[00:02.00]b\n[00:01.00]first\n[00:01.00]second\n");
    assert_eq!(
        pairs(&got),
        vec![(1000, "first".to_string()), (1000, "second".to_string()), (2000, "b".to_string())]
    );
}

#[test]
fn lrc_uses_only_the_leftmost_tag() {
    let got = parse_lrc("[00:01.00][00:02.00]echo");
    assert_eq!(pairs(&got), vec![(1000, "[00:02.00]echo".to_string())]);
}

#[test]
fn timestamp_forms() {
    assert_eq!(parse_timestamp("00:01:02.345"), Some(62345));
    assert_eq!(parse_timestamp("01:02,5"), Some(62500));
    assert_eq!(parse_timestamp("1:2:3"), Some(3723000));
    assert_eq!(parse_timestamp(" 01 : 02.5 "), Some(62500));
    assert_eq!(parse_timestamp("1:.5"), Some(60500));
    assert_eq!(parse_timestamp("1:5."), Some(65000));
    assert_eq!(parse_timestamp("00:00:01.23456"), Some(1234));
    assert_eq!(parse_timestamp("99999999999999999999:00"), Some(u64::MAX));
}

#[test]
fn timestamp_fields_read_as_floats() {
    assert_eq!(parse_timestamp("01:02:03.5"), Some(3723500));
    assert_eq!(parse_timestamp("2:30"), Some(150000));
    assert_eq!(parse_timestamp("-1:00"), Some(0));
    assert_eq!(parse_timestamp("1.5:00"), Some(90000));
    assert_eq!(parse_timestamp("1:-30"), Some(30000));
    assert_eq!(parse_timestamp("+1:1e1"), Some(70000));
    assert_eq!(parse_timestamp("0:2.5E-1"), Some(250));
    assert_eq!(parse_timestamp("1e-2:0"), Some(600));
    assert_eq!(parse_timestamp("0:0:1e1"), Some(10000));
    assert_eq!(parse_timestamp("0.5:0:0"), Some(1800000));
    assert_eq!(parse_timestamp("00:00:01,001"), Some(1000));
}

#[test]
fn timestamp_fields_are_trimmed_floats() {
    assert_eq!(timestamp_fields(" 1 :2,5"), Some(vec!["1".to_string(), "2.5".to_string()]));
    assert_eq!(
        timestamp_fields("0:-1e3:NaN"),
        Some(vec!["0".to_string(), "-1e3".to_string(), "NaN".to_string()])
    );
    assert_eq!(timestamp_fields("1:x"), None);
}

#[test]
fn cues_keep_their_timestamp_fields() {
    let cues = vtt_srt_cues("00:00:01,001 --> 00:00:02,000\nOne\n");
    assert_eq!(cues.len(), 1);
    assert_eq!(cues[0].fields, vec!["00".to_string(), "00".to_string(), "01.001".to_string()]);
    assert_eq!(cues[0].text, "One");
    assert_eq!(pairs(&parse_vtt_srt("00:00:01,001 --> 00:00:02,000\nOne\n", &vec![42])), vec![(42, "One".to_string())]);
}

#[test]
fn timestamp_infinities_and_nan() {
    assert_eq!(parse_timestamp("inf:00"), Some(u64::MAX));
    assert_eq!(parse_timestamp("0:Infinity"), Some(u64::MAX));
    assert_eq!(parse_timestamp("-INF:5"), Some(0));
    assert_eq!(parse_timestamp("inf:-inf"), Some(0));
    assert_eq!(parse_timestamp("NaN:1"), Some(0));
    assert_eq!(parse_timestamp("0:1e400"), Some(u64::MAX));
    assert_eq!(parse_timestamp("1:1e-400"), Some(60000));
    assert_eq!(parse_timestamp("1:-1e-400"), Some(60000));
    assert_eq!(parse_timestamp("1e400:-1e401"), Some(0));
}

#[test]
fn timestamp_rejections() {
    assert_eq!(parse_timestamp("12"), None);
    assert_eq!(parse_timestamp("a:b"), None);
    assert_eq!(parse_timestamp("1:2:3:4"), None);
    assert_eq!(parse_timestamp("1:"), None);
    assert_eq!(parse_timestamp("1:."), None);
    assert_eq!(parse_timestamp("1:2.3.4"), None);
    assert_eq!(parse_timestamp("1500"), None);
    assert_eq!(parse_timestamp("a:00"), None);
    assert_eq!(parse_timestamp(""), None);
    assert_eq!(parse_timestamp("1e:00"), None);
    assert_eq!(parse_timestamp("e1:00"), None);
    assert_eq!(parse_timestamp("--1:00"), None);
    assert_eq!(parse_timestamp("infin:00"), None);
    assert_eq!(parse_timestamp("1_0:00"), None);
}

#[test]
fn vtt_cues_join_their_text_lines() {
    let content = "WEBVTT\n\n00:00:05.000 --> 00:00:07.000\n<i>Hello</i>\nthere\n\n00:00:01.500 --> 00:00:03.000 align:start\nFirst\n";
    let got = vtt(content);
    assert_eq!(pairs(&got), vec![(1500, "First".to_string()), (5000, "Hello there".to_string())]);
}

#[test]
fn srt_cues_use_commas() {
    let content = "1\r\n00:00:01,250 --> 00:00:02,000\r\nOne\r\n\r\n2\r\n00:01:00,000-->00:01:02,000\r\nTwo <b>bold</b>\r\n";
    let got = vtt(content);
    assert_eq!(pairs(&got), vec![(1250, "One".to_string()), (60000, "Two bold".to_string())]);
}

#[test]
fn vtt_cue_without_text_is_skipped() {
    let content = "00:00:01.000 --> 00:00:02.000\n<br>\n\n00:00:03.000 --> 00:00:04.000\n";
    assert!(vtt(content).is_empty());
}

#[test]
fn vtt_timing_with_digits_of_other_scripts_is_no_cue() {
    let content = "\u{660}\u{660}:\u{661}.\u{660} --> 00:02.000 00:01.000 --> 00:02.000\nhello\n\n00:03.000 --> 00:04.000\nworld\n";
    let got = vtt(content);
    assert_eq!(pairs(&got), vec![(3000, "world".to_string())]);
}

#[test]
fn ass_times_read_as_floats() {
    let content = "[Events]\nDialogue: 0,0:00:1e1,0:00:12.00,Default,,0,0,0,,Ten\nDialogue: 0,-1:00:00.00,0:00:01.00,Default,,0,0,0,,Neg\n";
    let got = ass(content);
    assert_eq!(pairs(&got), vec![(0, "Neg".to_string()), (10000, "Ten".to_string())]);
}

#[test]
fn vtt_tag_needs_a_character_inside() {
    let got = vtt("00:01.000 --> 00:02.000\na <> b <x\n");
    assert_eq!(pairs(&got), vec![(1000, "a <> b <x".to_string())]);
}

#[test]
fn ass_dialogue_lines() {
    let content = "[Events]\nFormat: Layer, Start, End, Style, Name, MarginL, MarginR, MarginV, Effect, Text\nDialogue: 0,0:00:03.50,0:00:05.00,Default,,0,0,0,,{\\b1}Second{\\b0}\\Nline\nDialogue: 0,0:00:01.00,0:00:02.00,Default,,0,0,0,,First, with comma\nComment: 0,0:00:00.00,0:00:01.00,Default,,0,0,0,,hidden\nDialogue: 0,0:00:09.00,0:00:10.00,Default,,0,0,0,,{\\pos(1,2)}\n";
    let got = ass(content);
    assert_eq!(
        pairs(&got),
        vec![(1000, "First, with comma".to_string()), (3500, "Second line".to_string())]
    );
}

#[test]
fn ass_needs_ten_fields() {
    assert!(ass("Dialogue: 0,0:00:01.00,0:00:02.00,Default,text").is_empty());
}

#[test]
fn lrc_writing_prints_hundredths() {
    let text = lyrics_to_lrc(&vec![line(62345, "hi"), line(5, "zero")]);
    assert_eq!(text, "[01:02.34]hi\n[00:00.00]zero\n");
}

#[test]
fn lrc_written_reads_back() {
    let original = vec![line(1234, "one"), line(61009, "two words"), line(5999999, "last")];
    let again = parse_lrc(&lyrics_to_lrc(&original));
    assert_eq!(
        pairs(&again),
        vec![(1230, "one".to_string()), (61000, "two words".to_string()), (5999990, "last".to_string())]
    );
}

#[test]
fn matched_lyrics_message() {
    let (content, msg) = matched_lrc(&vec![line(1000, "a"), line(2000, "b")]).unwrap();
    assert_eq!(content, "[00:01.00]a\n[00:02.00]b\n");
    assert_eq!(msg, "Matched 2 lines");
    assert_eq!(matched_lrc(&vec![]).unwrap_err(), "No lyrics found online");
}

#[test]
fn candidates_in_order() {
    let c = lyric_candidates("Artist - Song", "Artist - Song.mp3");
    let names: Vec<&str> = c.iter().map(|(n, _)| n.as_str()).collect();
    assert_eq!(
        names,
        vec![
            "Artist - Song.lrc",
            "Artist - Song.vtt",
            "Artist - Song.srt",
            "Artist - Song.ass",
            "Artist - Song.ssa",
            "Artist - Song.mp3.vtt",
            "Artist - Song.mp3.srt",
            "Artist - Song.mp3.lrc",
        ]
    );
    assert_eq!(c[3].1, LyricFormat::Ass);
    assert_eq!(c[5].1, LyricFormat::VttSrt);
}

#[test]
fn candidates_skip_bare_suffixes() {
    let c = lyric_candidates("", ".mp3");
    let names: Vec<&str> = c.iter().map(|(n, _)| n.as_str()).collect();
    assert_eq!(names, vec![".mp3.vtt", ".mp3.srt", ".mp3.lrc"]);
    assert!(lyric_candidates("", "").is_empty());
}

#[test]
fn first_candidate_with_lines_wins() {
    let files = vec![
        candidate(LyricFormat::Lrc, None),
        candidate(LyricFormat::Lrc, Some("no tags here")),
        candidate(LyricFormat::VttSrt, Some("00:01.000 --> 00:02.000\nfrom vtt\n")),
        candidate(LyricFormat::Lrc, Some("[00:00.10]later")),
    ];
    assert_eq!(pairs(&load_lyrics(&files)), vec![(1000, "from vtt".to_string())]);
    assert!(load_lyrics(&vec![candidate(LyricFormat::Ass, None)]).is_empty());
}

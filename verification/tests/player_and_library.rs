use lyric_island::library::{
    folder_tracks, is_audio_extension, local_lyric_names, playlist_id, playlist_listing,
    playlist_tracks, FoundFile, Playlist,
};
use lyric_island::media::{
    choose_ffmpeg_dir, ffmpeg_bin, ffmpeg_decode_args, ffmpeg_tools, ffprobe_bin, join_with_separator,
    parse_probe_output, seek_offset_arg, AudioMeta,
};

/// The probe facts with the float step that the application performs on the duration.
fn probe(output: &str) -> AudioMeta {
    let r = parse_probe_output(output);
    let ms = r.duration.as_deref().map(|t| (t.parse::<f64>().unwrap() * 1000.0) as u64);
    r.meta(ms.unwrap_or(0))
}
use lyric_island::player::{song_duration, split_artist_title, track_query, AudioPlayer};
use lyric_island::LyricLine;

fn line(t: u64, s: &str) -> LyricLine {
    LyricLine { time_ms: t, text: s.to_string() }
}

fn found(path: &str, stem: &str, ext: &str, present: bool, lyrics: bool) -> FoundFile {
    FoundFile {
        path: path.to_string(),
        stem: stem.to_string(),
        extension: ext.to_string(),
        present,
        has_local_lyrics: lyrics,
    }
}

#[test]
fn artist_and_title_from_file_names() {
    assert_eq!(split_artist_title("Band - Song - Live"), ("Band".to_string(), "Song - Live".to_string()));
    assert_eq!(split_artist_title("  Band  -  Song "), ("Band".to_string(), "Song".to_string()));
    assert_eq!(split_artist_title("NoDash"), ("Unknown".to_string(), "NoDash".to_string()));
    assert_eq!(track_query("A - B"), Ok(("A".to_string(), "B".to_string())));
    assert_eq!(track_query("A-B"), Err("Cannot parse artist - title from filename".to_string()));
}

#[test]
fn durations() {
    assert_eq!(song_duration(1234, &vec![line(5, "x")]), 1234);
    assert_eq!(song_duration(0, &vec![line(5, "x"), line(90000, "y")]), 100000);
    assert_eq!(song_duration(0, &vec![]), 0);
}

#[test]
fn ffmpeg_paths() {
    let b = ffmpeg_bin("C:\\app\\ffmpeg");
    assert!(b == "C:\\app\\ffmpeg/ffmpeg.exe" || b == "C:\\app\\ffmpeg\\ffmpeg.exe");
    let p = ffprobe_bin("/opt/ffmpeg/");
    assert_eq!(p, "/opt/ffmpeg/ffprobe.exe");
}

#[test]
fn nearest_ffmpeg_directory_wins() {
    let c = vec!["/a/b/ffmpeg".to_string(), "/a/ffmpeg".to_string(), "/ffmpeg".to_string()];
    assert_eq!(choose_ffmpeg_dir(&c, &vec![false, true, true], "/x"), "/a/ffmpeg");
    assert_eq!(choose_ffmpeg_dir(&c, &vec![false, false, false], "/x"), "/x");
    assert_eq!(choose_ffmpeg_dir(&vec![], &vec![], "/x"), "/x");
}

#[test]
fn paths_join_with_the_given_separator() {
    assert_eq!(join_with_separator("/opt/ff", "ffmpeg.exe", '/'), "/opt/ff/ffmpeg.exe");
    assert_eq!(join_with_separator("C:\\ff", "ffprobe.exe", '\\'), "C:\\ff\\ffprobe.exe");
    assert_eq!(join_with_separator("C:\\ff\\", "a", '/'), "C:\\ff\\a");
    assert_eq!(join_with_separator("", "a", '/'), "a");
    let (m, p) = ffmpeg_tools("/opt/ff");
    assert_eq!(m, format!("/opt/ff{}ffmpeg.exe", std::path::MAIN_SEPARATOR));
    assert_eq!(p, format!("/opt/ff{}ffprobe.exe", std::path::MAIN_SEPARATOR));
    assert_eq!(ffmpeg_bin("/opt/ff"), m);
}

#[test]
fn probe_output_values() {
    let m = probe("sample_rate=48000\r\nchannels=1\nduration=215.123456\n");
    assert_eq!((m.duration_ms, m.sample_rate, m.channels), (215123, 48000, 1));
    let m = probe("sample_rate=abc\nchannels=99999\nduration=N/A\n");
    assert_eq!((m.duration_ms, m.sample_rate, m.channels), (0, 44100, 2));
    let m = probe("");
    assert_eq!((m.duration_ms, m.sample_rate, m.channels), (0, 44100, 2));
    let m = probe("sample_rate=48000\nchannels=1\nduration=12.5\n");
    assert_eq!((m.duration_ms, m.sample_rate, m.channels), (12500, 48000, 1));
}

#[test]
fn probe_durations_read_as_floats() {
    assert_eq!(probe("duration=1e2\n").duration_ms, 100000);
    assert_eq!(probe("duration= +2.5 \n").duration_ms, 2500);
    assert_eq!(probe("duration=-3\n").duration_ms, 0);
    assert_eq!(probe("duration=inf\n").duration_ms, u64::MAX);
    assert_eq!(probe("duration=-inf\n").duration_ms, 0);
    assert_eq!(probe("duration=nan\n").duration_ms, 0);
    assert_eq!(probe("duration=1e30\n").duration_ms, u64::MAX);
    assert_eq!(probe("duration=.0005\n").duration_ms, 0);
    assert_eq!(probe("duration=7\nduration=x\n").duration_ms, 7000);
    assert_eq!(probe("duration=7\nduration=8\n").duration_ms, 8000);
    assert_eq!(probe("duration=1.001\n").duration_ms, 1000);
}

#[test]
fn probe_report_keeps_the_duration_text() {
    let r = parse_probe_output("duration=1\nduration= 2.5e0 \nduration=x\nchannels=6\n");
    assert_eq!(r.duration.as_deref(), Some("2.5e0"));
    assert_eq!((r.sample_rate, r.channels), (44100, 6));
    assert_eq!(parse_probe_output("duration=N/A\n").duration, None);
    let m = r.meta(2500);
    assert_eq!((m.duration_ms, m.sample_rate, m.channels), (2500, 44100, 6));
}

#[test]
fn seek_and_decode_arguments() {
    assert_eq!(seek_offset_arg(1005), "1.005");
    assert_eq!(seek_offset_arg(0), "0.000");
    assert_eq!(seek_offset_arg(123456), "123.456");
    let args = ffmpeg_decode_args("song.flac", 44100, 2, Some("1.500".to_string()));
    assert_eq!(
        args,
        vec!["-ss", "1.500", "-i", "song.flac", "-f", "s16le", "-acodec", "pcm_s16le", "-ar", "44100", "-ac", "2", "-"]
    );
    assert_eq!(ffmpeg_decode_args("a", 8000, 1, None).len(), 11);
}

#[test]
fn player_clock() {
    let ms = 1_000_000u128;
    let mut p = AudioPlayer::new();
    assert_eq!(p.elapsed_ms(5 * ms), 0);
    let info = p.open_song(
        "/m/Band - Song.mp3".to_string(),
        "Band - Song",
        vec![line(0, "a"), line(1000, "b")],
        0,
        false,
        String::new(),
        10 * ms,
    );
    assert_eq!((info.title.as_str(), info.artist.as_str(), info.has_lyrics, info.duration_ms), ("Song", "Band", true, 11000));
    assert_eq!(p.elapsed_ms(1510 * ms), 1500);
    // pause at 2010 ms of clock time: 2000 ms played
    assert_eq!(p.play_pause(Some(false), 2010 * ms), Ok(true));
    assert_eq!(p.elapsed_ms(9999 * ms), 2000);
    // resume
    assert_eq!(p.play_pause(Some(true), 10_000 * ms), Ok(false));
    assert_eq!(p.elapsed_ms(10_250 * ms), 2250);
    assert_eq!(p.play_pause(None, 0), Err("No music loaded".to_string()));
    p.seek(42_000, 20_000 * ms);
    assert_eq!(p.elapsed_ms(20_000 * ms), 42_000);
}

#[test]
fn current_lyric_progress() {
    let ms = 1_000_000u128;
    let mut p = AudioPlayer::new();
    p.open_song("x".to_string(), "x", vec![line(1000, "one"), line(3000, "two")], 60000, true, String::new(), 0);
    let c = p.current_lyric(500 * ms);
    assert_eq!((c.current.as_str(), c.next.as_str(), c.done_ms, c.span_ms, c.position_ms), ("one", "two", 0, 0, 500));
    let c = p.current_lyric(1500 * ms);
    assert_eq!((c.current.as_str(), c.next.as_str(), c.done_ms, c.span_ms), ("one", "two", 500, 2000));
    let c = p.current_lyric(4000 * ms);
    assert_eq!((c.current.as_str(), c.next.as_str(), c.done_ms, c.span_ms), ("two", "", 1000, 5000));
    let mut q = AudioPlayer::new();
    q.open_song("y".to_string(), "Artist - Title", vec![], 0, false, String::new(), 0);
    let c = q.current_lyric(0);
    assert_eq!((c.current.as_str(), c.next.as_str()), ("Title", "Artist"));
}

#[test]
fn audio_extensions() {
    assert!(is_audio_extension("MP3"));
    assert!(is_audio_extension("opus"));
    assert!(!is_audio_extension("txt"));
    assert!(!is_audio_extension("mp"));
}

#[test]
fn folder_listing_filters_and_sorts() {
    let files = vec![
        found("/m/B - Zeta.mp3", "B - Zeta", "mp3", true, false),
        found("/m/notes.txt", "notes", "txt", true, false),
        found("/m/A - Alpha.FLAC", "A - Alpha", "FLAC", true, true),
        found("/m/dir.mp3", "dir", "mp3", false, false),
        found("/m/Beta.ogg", "Beta", "ogg", true, false),
    ];
    let got = folder_tracks(&files);
    let titles: Vec<(&str, &str, bool)> =
        got.iter().map(|t| (t.title.as_str(), t.artist.as_str(), t.has_local_lyrics)).collect();
    assert_eq!(titles, vec![("Alpha", "A", true), ("Beta", "Unknown", false), ("Zeta", "B", false)]);
}

#[test]
fn playlist_tracks_keep_order() {
    let files = vec![
        found("/m/Z - b.mp3", "Z - b", "mp3", true, false),
        found("/m/gone.mp3", "gone", "mp3", false, false),
        found("/m/Y - a.mp3", "Y - a", "mp3", true, true),
    ];
    let got = playlist_tracks(&files);
    let paths: Vec<&str> = got.iter().map(|t| t.path.as_str()).collect();
    assert_eq!(paths, vec!["/m/Z - b.mp3", "/m/Y - a.mp3"]);
}

#[test]
fn playlist_add_keeps_tracks_unique() {
    let mut pl = Playlist::new("Mix".to_string());
    pl.add_tracks(vec!["a".to_string(), "b".to_string(), "a".to_string()]);
    pl.add_tracks(vec!["b".to_string(), "c".to_string()]);
    assert_eq!(pl.tracks, vec!["a".to_string(), "b".to_string(), "c".to_string()]);
    assert_eq!(pl.name, "Mix");
    assert_eq!(pl.cover_path, "");
}

#[test]
fn playlist_listing_sorted_by_name() {
    let mut rock = Playlist::new("rock".to_string());
    rock.add_tracks(vec!["x".to_string()]);
    let found = vec![
        ("2".to_string(), rock),
        ("1".to_string(), Playlist::new("Jazz".to_string())),
        ("3".to_string(), Playlist::new("jazz".to_string())),
    ];
    let got = playlist_listing(found);
    let v: Vec<(&str, &str, usize)> = got.iter().map(|p| (p.id.as_str(), p.name.as_str(), p.track_count)).collect();
    assert_eq!(v, vec![("1", "Jazz", 0), ("3", "jazz", 0), ("2", "rock", 1)]);
}

#[test]
fn lyric_names_and_ids() {
    let names = local_lyric_names("s", "s.mp3");
    assert_eq!(names.len(), 10);
    assert_eq!(names[0], "s.lrc");
    assert_eq!(names[1], "s.mp3.lrc");
    assert_eq!(names[9], "s.mp3.ssa");
    assert_eq!(playlist_id(1700000000123), "1700000000123");
    assert_eq!(playlist_id(0), "0");
}

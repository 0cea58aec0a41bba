use lyric_island::encoding::{base64_encode, image_data_url, urlenc};
use lyric_island::online::{
    cover_image_urls, cover_search_url, lyrics_exact_url, lyrics_from_exact_reply,
    lyrics_from_search_reply, lyrics_search_url, plain_text_lyrics,
};

fn pairs(v: &[lyric_island::LyricLine]) -> Vec<(u64, String)> {
    v.iter().map(|l| (l.time_ms, l.text.clone())).collect()
}

#[test]
fn url_encoding() {
    assert_eq!(urlenc("a b&c~é"), "a+b%26c~%C3%A9");
    assert_eq!(urlenc("Az09-_.~"), "Az09-_.~");
    assert_eq!(urlenc(""), "");
}

fn form_decode(s: &str) -> Vec<u8> {
    let b = s.as_bytes();
    let mut out = Vec::new();
    let mut i = 0;
    while i < b.len() {
        if b[i] == b'+' {
            out.push(b' ');
            i += 1;
        } else if b[i] == b'%' && i + 2 < b.len() {
            let hex = std::str::from_utf8(&b[i + 1..i + 3]).unwrap();
            out.push(u8::from_str_radix(hex, 16).unwrap());
            i += 3;
        } else {
            out.push(b[i]);
            i += 1;
        }
    }
    out
}

fn base64_decode(s: &str) -> Vec<u8> {
    let value = |c: u8| -> u32 {
        match c {
            b'A'..=b'Z' => (c - b'A') as u32,
            b'a'..=b'z' => (c - b'a') as u32 + 26,
            b'0'..=b'9' => (c - b'0') as u32 + 52,
            b'+' => 62,
            _ => 63,
        }
    };
    let mut out = Vec::new();
    for g in s.as_bytes().chunks(4) {
        let pad2 = g[2] == b'=';
        let pad3 = g[3] == b'=';
        let n = value(g[0]) << 18
            | value(g[1]) << 12
            | if pad2 { 0 } else { value(g[2]) << 6 }
            | if pad3 { 0 } else { value(g[3]) };
        out.push((n >> 16) as u8);
        if !pad2 {
            out.push((n >> 8) as u8);
        }
        if !pad3 {
            out.push(n as u8);
        }
    }
    out
}

#[test]
fn url_encoding_decodes_back() {
    for s in ["a b&c~é", "100% + 50%", "", "plus+and%", "日本語 text"] {
        assert_eq!(form_decode(&urlenc(s)), s.as_bytes());
    }
}

#[test]
fn base64_decodes_back() {
    let data: Vec<u8> = (0..=255u8).collect();
    for n in 0..40usize {
        assert_eq!(base64_decode(&base64_encode(&data[..n])), &data[..n]);
    }
    assert_eq!(base64_decode(&base64_encode(&data)), data);
}

#[test]
fn base64_of_short_inputs() {
    assert_eq!(base64_encode(b""), "");
    assert_eq!(base64_encode(b"f"), "Zg==");
    assert_eq!(base64_encode(b"fo"), "Zm8=");
    assert_eq!(base64_encode(b"foo"), "Zm9v");
    assert_eq!(base64_encode(b"foobar"), "Zm9vYmFy");
    assert_eq!(base64_encode(&[0xff, 0xfe, 0x00, 0x3e]), "//4APg==");
}

#[test]
fn base64_length_is_four_per_three_bytes() {
    for n in 0..20usize {
        let data = vec![7u8; n];
        assert_eq!(base64_encode(&data).len(), (n + 2) / 3 * 4);
    }
}

#[test]
fn image_data_urls() {
    assert_eq!(image_data_url(&[]), None);
    assert_eq!(image_data_url(&[0, 1]), Some("data:image/jpeg;base64,AAE=".to_string()));
}

#[test]
fn lrclib_urls() {
    assert_eq!(
        lyrics_exact_url("Hello World", "A&B", 215),
        "https://lrclib.net/api/get?track_name=Hello+World&artist_name=A%26B&duration=215"
    );
    assert_eq!(
        lyrics_search_url("x", "y z"),
        "https://lrclib.net/api/search?track_name=x&artist_name=y+z"
    );
}

#[test]
fn itunes_url() {
    assert_eq!(
        cover_search_url("Song", "Band"),
        "https://itunes.apple.com/search?term=Band+Song&media=music&entity=song&limit=3"
    );
}

#[test]
fn exact_reply_with_synced_lyrics() {
    let body = r#"{"id":1,"syncedLyrics":"[00:01.00]a\n[00:00.50]b","plainLyrics":"a\nb"}"#;
    let got = lyrics_from_exact_reply(&Some((200, body.to_string()))).unwrap();
    assert_eq!(pairs(&got), vec![(500, "b".to_string()), (1000, "a".to_string())]);
}

#[test]
fn exact_reply_with_plain_lyrics_only() {
    let body = r#"{"syncedLyrics":null,"plainLyrics":"first\n\n  second  \n"}"#;
    let got = lyrics_from_exact_reply(&Some((200, body.to_string()))).unwrap();
    assert_eq!(pairs(&got), vec![(0, "first".to_string()), (5000, "second".to_string())]);
}

#[test]
fn exact_reply_with_empty_synced_falls_back_to_plain() {
    let body = r#"{"syncedLyrics":"no tags","plainLyrics":""}"#;
    let got = lyrics_from_exact_reply(&Some((200, body.to_string()))).unwrap();
    assert!(got.is_empty());
}

#[test]
fn exact_reply_without_lyrics_means_search() {
    assert!(lyrics_from_exact_reply(&Some((200, r#"{"name":"x"}"#.to_string()))).is_none());
    assert!(lyrics_from_exact_reply(&Some((200, "not json".to_string()))).is_none());
    assert!(lyrics_from_exact_reply(&Some((404, r#"{"plainLyrics":"a"}"#.to_string()))).is_none());
    assert!(lyrics_from_exact_reply(&None).is_none());
}

#[test]
fn search_reply_takes_first_synced() {
    let body = r#"[{"syncedLyrics":null},{"syncedLyrics":"plain"},{"syncedLyrics":"[00:02.00]two"},{"syncedLyrics":"[00:03.00]three"}]"#;
    let got = lyrics_from_search_reply(&Some((200, body.to_string())));
    assert_eq!(pairs(&got), vec![(2000, "two".to_string())]);
    assert!(lyrics_from_search_reply(&Some((200, r#"{"a":1}"#.to_string()))).is_empty());
    assert!(lyrics_from_search_reply(&Some((500, "[]".to_string()))).is_empty());
    assert!(lyrics_from_search_reply(&None).is_empty());
}

#[test]
fn plain_lyrics_are_five_seconds_apart() {
    let got = plain_text_lyrics("a\n \nb\nc");
    assert_eq!(
        pairs(&got),
        vec![(0, "a".to_string()), (5000, "b".to_string()), (10000, "c".to_string())]
    );
}

#[test]
fn cover_urls_from_search_reply() {
    let body = r#"{"resultCount":3,"results":[{"artworkUrl100":"https://x/100x100bb.jpg"},{"trackName":"no art"},{"artworkUrl100":"https://y/a.jpg"}]}"#;
    let got = cover_image_urls(&Some((200, body.to_string())));
    assert_eq!(got, vec!["https://x/600x600bb.jpg".to_string(), "https://y/a.jpg".to_string()]);
    assert!(cover_image_urls(&Some((200, r#"{"results":5}"#.to_string()))).is_empty());
    assert!(cover_image_urls(&Some((403, body.to_string()))).is_empty());
}

#[test]
fn url_encoding_uses_only_query_characters() {
    let input = "Ünïcödé & spaces / slashes ? 日本 ~ok~";
    let out = urlenc(input);
    assert!(out.chars().all(|c| c.is_ascii_alphanumeric() || "-_.~+%".contains(c)));
    assert!(out.len() >= input.len() && out.len() <= 3 * input.len());
}

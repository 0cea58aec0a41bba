use vstd::prelude::*;

use crate::encoding::{url_encode, urlenc};
use crate::lyrics::{LyricLine, lrc_lyrics, lyric_views, parse_lrc};
use crate::numbers::{decimal, push_decimal};
use crate::text::{
    chars_of, concat_str, lines, push_str_chars, replace_all, replace_all_exec, split_lines,
    string_of, trim, trim_range, views,
};
use vstd::string::StringSliceAdditionalSpecFns;

verus! {

/// What `serde_json::from_str::<serde_json::Value>(body)` and then `value[key].as_str()` give:
/// the string held under `key` when `body` is JSON whose top level is an object with a string
/// there.
pub uninterp spec fn json_str_member(body: Seq<char>, key: Seq<char>) -> Option<Seq<char>>;

/// What `serde_json::from_str::<Vec<serde_json::Value>>(body)` and then `item[key].as_str()`
/// for each item give: for a JSON array, per element, the string under `key`.
pub uninterp spec fn json_array_str_members(body: Seq<char>, key: Seq<char>) -> Option<
    Seq<Option<Seq<char>>>,
>;

/// What `serde_json::from_str::<serde_json::Value>(body)`, then `value[outer].as_array()`,
/// then `item[inner].as_str()` for each item give.
pub uninterp spec fn json_member_array_str_members(
    body: Seq<char>,
    outer: Seq<char>,
    inner: Seq<char>,
) -> Option<Seq<Option<Seq<char>>>>;

/// The view of an optional string.
pub open spec fn opt_view(o: Option<String>) -> Option<Seq<char>> {
    match o {
        Some(s) => Some(s@),
        None => None,
    }
}

/// Calls `serde_json::from_str::<serde_json::Value>` on `body` and reads the string member
/// `key` of the result; the contract claims that the answer is `json_str_member(body, key)`,
/// a function of the two texts alone.
#[verifier::external_body]
fn json_str_member_of(body: &str, key: &str) -> (r: Option<String>)
    ensures
        opt_view(r) == json_str_member(body@, key@),
{
    match serde_json::from_str::<serde_json::Value>(body) {
        Ok(v) => v[key].as_str().map(|s| s.to_string()),
        Err(_) => None,
    }
}

/// Calls `serde_json::from_str::<Vec<serde_json::Value>>` on `body` and reads the string
/// member `key` of each element; the contract claims that the answer is
/// `json_array_str_members(body, key)`, a function of the two texts alone.
#[verifier::external_body]
fn json_array_str_members_of(body: &str, key: &str) -> (r: Option<Vec<Option<String>>>)
    ensures
        match r {
            Some(v) => json_array_str_members(body@, key@) == Some(
                v@.map_values(|o: Option<String>| opt_view(o)),
            ),
            None => json_array_str_members(body@, key@) is None,
        },
{
    match serde_json::from_str::<Vec<serde_json::Value>>(body) {
        Ok(items) => Some(items.iter().map(|it| it[key].as_str().map(|s| s.to_string())).collect()),
        Err(_) => None,
    }
}

/// Calls `serde_json::from_str::<serde_json::Value>` on `body`, takes the array under `outer`
/// and reads the string member `inner` of each element; the contract claims that the answer
/// is `json_member_array_str_members(body, outer, inner)`, a function of the three texts.
#[verifier::external_body]
fn json_member_array_str_members_of(body: &str, outer: &str, inner: &str) -> (r: Option<
    Vec<Option<String>>,
>)
    ensures
        match r {
            Some(v) => json_member_array_str_members(body@, outer@, inner@) == Some(
                v@.map_values(|o: Option<String>| opt_view(o)),
            ),
            None => json_member_array_str_members(body@, outer@, inner@) is None,
        },
{
    match serde_json::from_str::<serde_json::Value>(body) {
        Ok(v) => v[outer].as_array().map(
            |a| a.iter().map(|it| it[inner].as_str().map(|s| s.to_string())).collect(),
        ),
        Err(_) => None,
    }
}

/// The view of a reply to an HTTP request: its status and body.
pub open spec fn reply_view(reply: Option<(u16, String)>) -> Option<(u16, Seq<char>)> {
    match reply {
        Some((status, body)) => Some((status, body@)),
        None => None,
    }
}

/// The URL that asks LRCLIB for the lyrics of one recording.
pub open spec fn lyrics_exact_url_spec(title: Seq<char>, artist: Seq<char>, duration_s: nat) -> Seq<char> {
    "https://lrclib.net/api/get?track_name="@ + url_encode(encode_utf8(title))
        + "&artist_name="@ + url_encode(encode_utf8(artist)) + "&duration="@ + decimal(duration_s)
}

/// The URL that searches LRCLIB for a title and an artist.
pub open spec fn lyrics_search_url_spec(title: Seq<char>, artist: Seq<char>) -> Seq<char> {
    "https://lrclib.net/api/search?track_name="@ + url_encode(encode_utf8(title))
        + "&artist_name="@ + url_encode(encode_utf8(artist))
}

/// The UTF-8 bytes of a text.
pub open spec fn encode_utf8(s: Seq<char>) -> Seq<u8> {
    vstd::utf8::encode_utf8(s)
}

fn push_url_encoded(out: &mut Vec<char>, s: &str)
    ensures
        final(out)@ == old(out)@ + url_encode(encode_utf8(s@)),
{
    let e = urlenc(s);
    push_str_chars(out, e.as_str());
}

/// The LRCLIB URL for the lyrics of `title` by `artist` lasting `duration_s` seconds.
pub fn lyrics_exact_url(title: &str, artist: &str, duration_s: u64) -> (r: String)
    ensures
        r@ == lyrics_exact_url_spec(title@, artist@, duration_s as nat),
{
    let mut out: Vec<char> = Vec::new();
    push_str_chars(&mut out, "https://lrclib.net/api/get?track_name=");
    push_url_encoded(&mut out, title);
    push_str_chars(&mut out, "&artist_name=");
    push_url_encoded(&mut out, artist);
    push_str_chars(&mut out, "&duration=");
    push_decimal(&mut out, duration_s as u128);
    assert(out@ =~= lyrics_exact_url_spec(title@, artist@, duration_s as nat));
    string_of(&out)
}

/// The LRCLIB search URL for `title` by `artist`.
pub fn lyrics_search_url(title: &str, artist: &str) -> (r: String)
    ensures
        r@ == lyrics_search_url_spec(title@, artist@),
{
    let mut out: Vec<char> = Vec::new();
    push_str_chars(&mut out, "https://lrclib.net/api/search?track_name=");
    push_url_encoded(&mut out, title);
    push_str_chars(&mut out, "&artist_name=");
    push_url_encoded(&mut out, artist);
    assert(out@ =~= lyrics_search_url_spec(title@, artist@));
    string_of(&out)
}

} // verus!

verus! {

/// The lines of `text` that are not blank.
pub open spec fn non_blank_lines(text: Seq<char>) -> Seq<Seq<char>> {
    lines(text).filter(|l: Seq<char>| trim(l).len() > 0)
}

/// Unsynchronised lyrics: the non-blank lines of `text`, trimmed, five seconds apart from
/// time 0 (the time wraps around past `u64::MAX`).
pub open spec fn plain_lyrics(text: Seq<char>) -> Seq<(u64, Seq<char>)> {
    let ls = non_blank_lines(text);
    Seq::new(
        ls.len(),
        |i: int| (((i * 5000) % 0x1_0000_0000_0000_0000) as u64, trim(ls[i])),
    )
}

/// Lyrics from a plain text without times, as `plain_lyrics` describes them.
pub fn plain_text_lyrics(text: &str) -> (r: Vec<LyricLine>)
    ensures
        lyric_views(r@) == plain_lyrics(text@),
{
    let chars = chars_of(text);
    let ls = split_lines(&chars);
    let ghost all = views(ls@);
    let n = ls.len();
    let mut out: Vec<LyricLine> = Vec::new();
    for i in 0..n
        invariant
            n == ls@.len(),
            all == views(ls@),
            lyric_views(out@) == plain_lyrics_of(
                all.take(i as int).filter(|l: Seq<char>| trim(l).len() > 0),
            ),
    {
        let ghost pre = all.take(i as int);
        let ghost kept = pre.filter(|l: Seq<char>| trim(l).len() > 0);
        let line = &ls[i];
        let t = trim_range(line, 0, line.len());
        assert(line@.subrange(0, line@.len() as int) =~= line@);
        proof {
            assert(all.take(i + 1) =~= pre.push(line@));
            pre.lemma_filter_push(line@, |l: Seq<char>| trim(l).len() > 0);
        }
        if t.len() > 0 {
            let k = out.len();
            let time = (k as u64).wrapping_mul(5000);
            let ghost before = lyric_views(out@);
            assert(before.len() == kept.len());
            let nl = LyricLine { time_ms: time, text: string_of(&t) };
            assert(nl@ == (((k * 5000) % 0x1_0000_0000_0000_0000) as u64, trim(line@)));
            out.push(nl);
            assert(lyric_views(out@) =~= before.push(nl@));
            assert(lyric_views(out@) =~= plain_lyrics_of(kept.push(line@)));
        }
    }
    assert(all.take(n as int) =~= all);
    out
}

/// `Seq::new` form of `plain_lyrics` for already selected lines.
pub open spec fn plain_lyrics_of(ls: Seq<Seq<char>>) -> Seq<(u64, Seq<char>)> {
    Seq::new(
        ls.len(),
        |i: int| (((i * 5000) % 0x1_0000_0000_0000_0000) as u64, trim(ls[i])),
    )
}

/// What an LRCLIB lyrics reply gives: the synced lyrics when they hold at least one line,
/// else the plain lyrics when there are any, else nothing (and the search is tried).
pub open spec fn exact_reply_lyrics(reply: Option<(u16, Seq<char>)>) -> Option<
    Seq<(u64, Seq<char>)>,
> {
    match reply {
        Some((status, body)) => if status == 200 {
            let synced = json_str_member(body, "syncedLyrics"@);
            if synced is Some && lrc_lyrics(synced.unwrap()).len() > 0 {
                Some(lrc_lyrics(synced.unwrap()))
            } else {
                match json_str_member(body, "plainLyrics"@) {
                    Some(p) => Some(plain_lyrics(p)),
                    None => None,
                }
            }
        } else {
            None
        },
        None => None,
    }
}

/// The lyrics an LRCLIB lyrics reply (status and body; none when the request failed) gives,
/// as `exact_reply_lyrics` describes them; none means the search is to be tried.
pub fn lyrics_from_exact_reply(reply: &Option<(u16, String)>) -> (r: Option<Vec<LyricLine>>)
    ensures
        match exact_reply_lyrics(reply_view(*reply)) {
            Some(l) => r matches Some(v) && lyric_views(v@) == l,
            None => r is None,
        },
{
    match reply {
        Some((status, body)) => {
            if *status != 200 {
                return None;
            }
            let synced = json_str_member_of(body.as_str(), "syncedLyrics");
            match synced {
                Some(s) => {
                    let lyrics = parse_lrc(s.as_str());
                    if lyrics.len() > 0 {
                        return Some(lyrics);
                    }
                },
                None => {},
            }
            match json_str_member_of(body.as_str(), "plainLyrics") {
                Some(p) => Some(plain_text_lyrics(p.as_str())),
                None => None,
            }
        },
        None => None,
    }
}

/// The lyrics of the first item from position `i` on whose synced lyrics hold a line.
pub open spec fn first_synced(items: Seq<Option<Seq<char>>>, i: int) -> Seq<(u64, Seq<char>)>
    decreases items.len() - i,
{
    if i < 0 || i >= items.len() {
        seq![]
    } else {
        match items[i] {
            Some(s) => if lrc_lyrics(s).len() > 0 {
                lrc_lyrics(s)
            } else {
                first_synced(items, i + 1)
            },
            None => first_synced(items, i + 1),
        }
    }
}

/// What an LRCLIB search reply gives: the synced lyrics of the first result that has any.
pub open spec fn search_reply_lyrics(reply: Option<(u16, Seq<char>)>) -> Seq<(u64, Seq<char>)> {
    match reply {
        Some((status, body)) => if status == 200 {
            match json_array_str_members(body, "syncedLyrics"@) {
                Some(items) => first_synced(items, 0),
                None => seq![],
            }
        } else {
            seq![]
        },
        None => seq![],
    }
}

/// The lyrics an LRCLIB search reply gives, as `search_reply_lyrics` describes them.
pub fn lyrics_from_search_reply(reply: &Option<(u16, String)>) -> (r: Vec<LyricLine>)
    ensures
        lyric_views(r@) == search_reply_lyrics(reply_view(*reply)),
{
    match reply {
        Some((status, body)) => {
            if *status != 200 {
                return Vec::new();
            }
            match json_array_str_members_of(body.as_str(), "syncedLyrics") {
                Some(items) => {
                    let ghost iv = items@.map_values(|o: Option<String>| opt_view(o));
                    let n = items.len();
                    let mut i: usize = 0;
                    while i < n
                        invariant
                            n == items@.len(),
                            iv == items@.map_values(|o: Option<String>| opt_view(o)),
                            i <= n,
                            first_synced(iv, 0) == first_synced(iv, i as int),
                            first_synced(iv, 0) == search_reply_lyrics(reply_view(*reply)),
                        decreases n - i,
                    {
                        assert(iv[i as int] == opt_view(items@[i as int]));
                        match &items[i] {
                            Some(s) => {
                                let lyrics = parse_lrc(s.as_str());
                                if lyrics.len() > 0 {
                                    return lyrics;
                                }
                            },
                            None => {},
                        }
                        i = i + 1;
                    }
                    Vec::new()
                },
                None => Vec::new(),
            }
        },
        None => Vec::new(),
    }
}

} // verus!

verus! {

/// The iTunes search URL for the cover of `title` by `artist`.
pub open spec fn cover_search_url_spec(title: Seq<char>, artist: Seq<char>) -> Seq<char> {
    "https://itunes.apple.com/search?term="@ + url_encode(encode_utf8(artist + seq![' '] + title))
        + "&media=music&entity=song&limit=3"@
}

/// The iTunes search URL for the cover art of `title` by `artist`.
pub fn cover_search_url(title: &str, artist: &str) -> (r: String)
    ensures
        r@ == cover_search_url_spec(title@, artist@),
{
    let term = concat_str(artist, " ");
    let term = concat_str(term.as_str(), title);
    proof {
        reveal_strlit(" ");
    }
    assert(term@ =~= artist@ + seq![' '] + title@);
    let mut out: Vec<char> = Vec::new();
    push_str_chars(&mut out, "https://itunes.apple.com/search?term=");
    push_url_encoded(&mut out, term.as_str());
    push_str_chars(&mut out, "&media=music&entity=song&limit=3");
    assert(out@ =~= cover_search_url_spec(title@, artist@));
    string_of(&out)
}

/// A 100x100 artwork URL turned into the 600x600 one.
pub open spec fn hires_artwork(url: Seq<char>) -> Seq<char> {
    replace_all(url, "100x100"@, "600x600"@)
}

/// The cover images an iTunes search reply offers, in order: each result's `artworkUrl100`
/// in its 600x600 form.
pub open spec fn cover_image_urls_spec(reply: Option<(u16, Seq<char>)>) -> Seq<Seq<char>> {
    match reply {
        Some((status, body)) => if status == 200 {
            match json_member_array_str_members(body, "results"@, "artworkUrl100"@) {
                Some(items) => items.filter_map(
                    |o: Option<Seq<char>>|
                        match o {
                            Some(a) => Some(hires_artwork(a)),
                            None => None,
                        },
                ),
                None => seq![],
            }
        } else {
            seq![]
        },
        None => seq![],
    }
}

/// The cover image URLs to try from an iTunes search reply, as `cover_image_urls_spec`
/// gives them.
pub fn cover_image_urls(reply: &Option<(u16, String)>) -> (r: Vec<String>)
    ensures
        r@.map_values(|s: String| s@) == cover_image_urls_spec(reply_view(*reply)),
{
    let mut out: Vec<String> = Vec::new();
    match reply {
        Some((status, body)) => {
            if *status != 200 {
                assert(out@.map_values(|s: String| s@) =~= Seq::<Seq<char>>::empty());
                return out;
            }
            match json_member_array_str_members_of(body.as_str(), "results", "artworkUrl100") {
                Some(items) => {
                    let ghost iv = items@.map_values(|o: Option<String>| opt_view(o));
                    let n = items.len();
                    for i in 0..n
                        invariant
                            n == items@.len(),
                            iv == items@.map_values(|o: Option<String>| opt_view(o)),
                            out@.map_values(|s: String| s@) == iv.take(i as int).filter_map(
                                |o: Option<Seq<char>>|
                                    match o {
                                        Some(a) => Some(hires_artwork(a)),
                                        None => None,
                                    },
                            ),
                    {
                        assert(iv.take(i + 1).drop_last() =~= iv.take(i as int));
                        assert(iv.take(i + 1).last() == opt_view(items@[i as int]));
                        match &items[i] {
                            Some(a) => {
                                let h = replace_all_exec(a.as_str(), "100x100", "600x600");
                                out.push(h);
                            },
                            None => {},
                        }
                        assert(out@.map_values(|s: String| s@) =~= iv.take(i + 1).filter_map(
                            |o: Option<Seq<char>>|
                                match o {
                                    Some(a) => Some(hires_artwork(a)),
                                    None => None,
                                },
                        ));
                    }
                    assert(iv.take(n as int) =~= iv);
                    out
                },
                None => {
                    assert(out@.map_values(|s: String| s@) =~= Seq::<Seq<char>>::empty());
                    out
                },
            }
        },
        None => {
            assert(out@.map_values(|s: String| s@) =~= Seq::<Seq<char>>::empty());
            out
        },
    }
}

} // verus!

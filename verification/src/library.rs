use vstd::prelude::*;

use crate::player::{artist_title, split_artist_title};
use crate::text::{chars_of, concat_str, owned, string_views};

verus! {

/// `a` comes before `b` in the order of `String`: character by character by code point
/// (which is the byte order of their UTF-8), a proper prefix first.
pub open spec fn text_lt(a: Seq<char>, b: Seq<char>) -> bool
    decreases a.len(),
{
    if a.len() == 0 {
        b.len() > 0
    } else if b.len() == 0 {
        false
    } else if a[0] != b[0] {
        (a[0] as u32) < (b[0] as u32)
    } else {
        text_lt(a.drop_first(), b.drop_first())
    }
}

/// Whether `a` comes before `b`, as `text_lt` orders texts.
pub fn text_before(a: &str, b: &str) -> (r: bool)
    ensures
        r == text_lt(a@, b@),
{
    let x = chars_of(a);
    let y = chars_of(b);
    let mut i: usize = 0;
    assert(x@.skip(0) =~= x@);
    assert(y@.skip(0) =~= y@);
    while i < x.len() && i < y.len() && x[i] == y[i]
        invariant
            i <= x@.len(),
            i <= y@.len(),
            text_lt(a@, b@) == text_lt(x@.skip(i as int), y@.skip(i as int)),
            x@ == a@,
            y@ == b@,
        decreases x@.len() - i,
    {
        assert(x@.skip(i as int).drop_first() =~= x@.skip(i + 1));
        assert(y@.skip(i as int).drop_first() =~= y@.skip(i + 1));
        i = i + 1;
    }
    if i == x.len() {
        i < y.len()
    } else if i == y.len() {
        false
    } else {
        (x[i] as u32) < (y[i] as u32)
    }
}

/// `s` (sorted by `key`) with `x` put after every element whose key does not come after its own.
pub open spec fn insert_by_key<T>(s: Seq<T>, x: T, key: spec_fn(T) -> Seq<char>) -> Seq<T>
    decreases s.len(),
{
    if s.len() == 0 {
        seq![x]
    } else if !text_lt(key(x), key(s.last())) {
        s.push(x)
    } else {
        insert_by_key(s.drop_last(), x, key).push(s.last())
    }
}

/// `s` sorted by `key`, elements with equal keys kept in their order (a stable sort).
pub open spec fn sort_by_key<T>(s: Seq<T>, key: spec_fn(T) -> Seq<char>) -> Seq<T>
    decreases s.len(),
{
    if s.len() == 0 {
        s
    } else {
        insert_by_key(sort_by_key(s.drop_last(), key), s.last(), key)
    }
}

proof fn lemma_insert_by_key_at<T>(s: Seq<T>, x: T, key: spec_fn(T) -> Seq<char>, p: int)
    requires
        0 <= p <= s.len(),
        forall|k: int| p <= k < s.len() ==> text_lt(key(x), key(#[trigger] s[k])),
        p == 0 || !text_lt(key(x), key(s[p - 1])),
    ensures
        insert_by_key(s, x, key) == s.insert(p, x),
    decreases s.len(),
{
    if s.len() == 0 {
        assert(s.insert(p, x) =~= seq![x]);
    } else if !text_lt(key(x), key(s.last())) {
        assert(s.insert(p, x) =~= s.push(x));
    } else {
        lemma_insert_by_key_at(s.drop_last(), x, key, p);
        assert(s.drop_last().insert(p, x).push(s.last()) =~= s.insert(p, x));
    }
}

/// A track as the player lists it.
#[derive(Clone, Debug)]
pub struct TrackItem {
    pub path: String,
    pub title: String,
    pub artist: String,
    pub has_local_lyrics: bool,
}

/// The view of a track: path, title, artist, whether local lyrics exist.
pub open spec fn track_view(t: TrackItem) -> (Seq<char>, Seq<char>, Seq<char>, bool) {
    (t.path@, t.title@, t.artist@, t.has_local_lyrics)
}

/// The title of a track view.
pub open spec fn track_title(t: (Seq<char>, Seq<char>, Seq<char>, bool)) -> Seq<char> {
    t.1
}

/// The views of a sequence of tracks.
pub open spec fn track_views(v: Seq<TrackItem>) -> Seq<(Seq<char>, Seq<char>, Seq<char>, bool)> {
    v.map_values(|t: TrackItem| track_view(t))
}

/// A file found on disk, with the facts the track list needs about it.
#[derive(Clone, Debug)]
pub struct FoundFile {
    pub path: String,
    /// The file name without its extension.
    pub stem: String,
    /// The extension, without the dot (empty when there is none).
    pub extension: String,
    /// Whether it is a regular file (in a folder) or exists (in a playlist).
    pub present: bool,
    /// Whether a lyrics file for it lies beside it.
    pub has_local_lyrics: bool,
}

/// The track entry of a file: its path, artist and title from its stem, and the lyrics flag.
pub open spec fn track_of(f: FoundFile) -> (Seq<char>, Seq<char>, Seq<char>, bool) {
    (f.path@, artist_title(f.stem@).1, artist_title(f.stem@).0, f.has_local_lyrics)
}

/// The track item of a found file.
pub fn track_item(f: &FoundFile) -> (t: TrackItem)
    ensures
        track_view(t) == track_of(*f),
{
    let (artist, title) = split_artist_title(f.stem.as_str());
    TrackItem {
        path: owned(f.path.as_str()),
        title,
        artist,
        has_local_lyrics: f.has_local_lyrics,
    }
}

/// `c` in ASCII lower case.
pub open spec fn ascii_lower(c: char) -> char {
    if 'A' <= c <= 'Z' {
        ((c as u32) + 32) as char
    } else {
        c
    }
}

/// The audio file extensions the player lists.
pub open spec fn audio_extensions() -> Seq<Seq<char>> {
    seq!["mp3"@, "wav"@, "flac"@, "ogg"@, "m4a"@, "aac"@, "wma"@, "opus"@]
}

/// Whether `ext`, ignoring case, is an audio extension the player lists. (None of them holds
/// a letter that a non-ASCII character lower-cases to, so ASCII case folding decides it.)
pub open spec fn is_audio_ext(ext: Seq<char>) -> bool {
    audio_extensions().contains(ext.map_values(|c: char| ascii_lower(c)))
}

fn lower_ascii(s: &str) -> (r: Vec<char>)
    ensures
        r@ == s@.map_values(|c: char| ascii_lower(c)),
{
    let c = chars_of(s);
    let n = c.len();
    let mut r: Vec<char> = Vec::new();
    for i in 0..n
        invariant
            n == c@.len(),
            c@ == s@,
            r@ == c@.take(i as int).map_values(|c: char| ascii_lower(c)),
    {
        let x = c[i];
        let y = if 'A' <= x && x <= 'Z' {
            ((x as u32) + 32) as u8 as char
        } else {
            x
        };
        assert(y == ascii_lower(x));
        r.push(y);
        assert(r@ =~= c@.take(i + 1).map_values(|c: char| ascii_lower(c)));
    }
    assert(c@.take(n as int) =~= c@);
    r
}

fn same_chars(a: &[char], b: &str) -> (r: bool)
    ensures
        r == (a@ == b@),
{
    let c = chars_of(b);
    if a.len() != c.len() {
        return false;
    }
    let n = a.len();
    let mut i: usize = 0;
    while i < n
        invariant
            n == a@.len() == c@.len(),
            c@ == b@,
            i <= n,
            forall|j: int| 0 <= j < i ==> a@[j] == c@[j],
        decreases n - i,
    {
        if a[i] != c[i] {
            return false;
        }
        i = i + 1;
    }
    assert(a@ =~= c@);
    true
}

/// Whether `ext` is an audio extension the player lists, ignoring case.
pub fn is_audio_extension(ext: &str) -> (r: bool)
    ensures
        r == is_audio_ext(ext@),
{
    let l = lower_ascii(ext);
    let r = same_chars(&l, "mp3") || same_chars(&l, "wav") || same_chars(&l, "flac") || same_chars(
        &l,
        "ogg",
    ) || same_chars(&l, "m4a") || same_chars(&l, "aac") || same_chars(&l, "wma") || same_chars(
        &l,
        "opus",
    );
    let ghost lv = ext@.map_values(|c: char| ascii_lower(c));
    assert(r == (lv == audio_extensions()[0] || lv == audio_extensions()[1] || lv
        == audio_extensions()[2] || lv == audio_extensions()[3] || lv == audio_extensions()[4]
        || lv == audio_extensions()[5] || lv == audio_extensions()[6] || lv
        == audio_extensions()[7]));
    assert(audio_extensions().len() == 8);
    r
}

} // verus!

verus! {

/// The tracks a folder listing gives: the regular files with an audio extension, as track
/// entries, sorted by title (stably).
pub open spec fn folder_tracks_spec(files: Seq<FoundFile>) -> Seq<(Seq<char>, Seq<char>, Seq<char>, bool)> {
    sort_by_key(
        files.filter_map(
            |f: FoundFile|
                if f.present && is_audio_ext(f.extension@) {
                    Some(track_of(f))
                } else {
                    None
                },
        ),
        |t: (Seq<char>, Seq<char>, Seq<char>, bool)| track_title(t),
    )
}

impl TrackItem {
    /// A copy of this track.
    pub fn duplicate(&self) -> (r: TrackItem)
        ensures
            track_view(r) == track_view(*self),
    {
        TrackItem {
            path: owned(self.path.as_str()),
            title: owned(self.title.as_str()),
            artist: owned(self.artist.as_str()),
            has_local_lyrics: self.has_local_lyrics,
        }
    }
}

/// The tracks in order of title, tracks with the same title kept in their order.
pub fn sort_tracks_by_title(v: &Vec<TrackItem>) -> (r: Vec<TrackItem>)
    ensures
        track_views(r@) == sort_by_key(
            track_views(v@),
            |t: (Seq<char>, Seq<char>, Seq<char>, bool)| track_title(t),
        ),
{
    let ghost key = |t: (Seq<char>, Seq<char>, Seq<char>, bool)| track_title(t);
    let mut out: Vec<TrackItem> = Vec::new();
    let n = v.len();
    for i in 0..n
        invariant
            n == v@.len(),
            key == (|t: (Seq<char>, Seq<char>, Seq<char>, bool)| track_title(t)),
            track_views(out@) == sort_by_key(track_views(v@.take(i as int)), key),
    {
        let x = v[i].duplicate();
        let mut p = out.len();
        while p > 0 && text_before(x.title.as_str(), out[p - 1].title.as_str())
            invariant
                p <= out@.len(),
                forall|k: int|
                    p <= k < out@.len() ==> text_lt(x.title@, #[trigger] out@[k].title@),
            decreases p,
        {
            p = p - 1;
        }
        let ghost before = track_views(out@);
        proof {
            assert forall|k: int| p <= k < before.len() implies text_lt(
                key(track_view(x)),
                key(#[trigger] before[k]),
            ) by {
                assert(before[k] == track_view(out@[k]));
            }
            if p > 0 {
                assert(before[p - 1] == track_view(out@[p - 1]));
            }
            lemma_insert_by_key_at(before, track_view(x), key, p as int);
            assert(track_views(v@.take(i + 1)).drop_last() =~= track_views(v@.take(i as int)));
            assert(track_views(v@.take(i + 1)).last() == track_view(x));
        }
        out.insert(p, x);
        assert(track_views(out@) =~= before.insert(p as int, track_view(x)));
    }
    assert(v@.take(n as int) =~= v@);
    out
}

} // verus!

verus! {

/// The tracks of a folder listing, as `folder_tracks_spec` gives them.
pub fn folder_tracks(files: &Vec<FoundFile>) -> (r: Vec<TrackItem>)
    ensures
        track_views(r@) == folder_tracks_spec(files@),
{
    let ghost pick = |f: FoundFile|
        if f.present && is_audio_ext(f.extension@) {
            Some(track_of(f))
        } else {
            None
        };
    let mut kept: Vec<TrackItem> = Vec::new();
    let n = files.len();
    for i in 0..n
        invariant
            n == files@.len(),
            pick == (|f: FoundFile|
                if f.present && is_audio_ext(f.extension@) {
                    Some(track_of(f))
                } else {
                    None
                }),
            track_views(kept@) == files@.take(i as int).filter_map(pick),
    {
        let f = &files[i];
        assert(files@.take(i + 1).drop_last() =~= files@.take(i as int));
        assert(files@.take(i + 1).last() == *f);
        if f.present && is_audio_extension(f.extension.as_str()) {
            let t = track_item(f);
            let ghost before = track_views(kept@);
            kept.push(t);
            assert(track_views(kept@) =~= before + seq![track_view(t)]);
        }
        assert(track_views(kept@) =~= files@.take(i + 1).filter_map(pick));
    }
    assert(files@.take(n as int) =~= files@);
    sort_tracks_by_title(&kept)
}

/// The tracks of a playlist: the files that exist, in playlist order.
pub open spec fn playlist_tracks_spec(files: Seq<FoundFile>) -> Seq<(Seq<char>, Seq<char>, Seq<char>, bool)> {
    files.filter_map(
        |f: FoundFile|
            if f.present {
                Some(track_of(f))
            } else {
                None
            },
    )
}

/// The tracks of a playlist, as `playlist_tracks_spec` gives them.
pub fn playlist_tracks(files: &Vec<FoundFile>) -> (r: Vec<TrackItem>)
    ensures
        track_views(r@) == playlist_tracks_spec(files@),
{
    let ghost pick = |f: FoundFile|
        if f.present {
            Some(track_of(f))
        } else {
            None
        };
    let mut kept: Vec<TrackItem> = Vec::new();
    let n = files.len();
    for i in 0..n
        invariant
            n == files@.len(),
            pick == (|f: FoundFile|
                if f.present {
                    Some(track_of(f))
                } else {
                    None
                }),
            track_views(kept@) == files@.take(i as int).filter_map(pick),
    {
        let f = &files[i];
        assert(files@.take(i + 1).drop_last() =~= files@.take(i as int));
        assert(files@.take(i + 1).last() == *f);
        if f.present {
            let t = track_item(f);
            let ghost before = track_views(kept@);
            kept.push(t);
            assert(track_views(kept@) =~= before + seq![track_view(t)]);
        }
        assert(track_views(kept@) =~= files@.take(i + 1).filter_map(pick));
    }
    assert(files@.take(n as int) =~= files@);
    kept
}

/// The names of lyrics files that count as local lyrics of an audio file: its stem and its
/// whole name, each with `.lrc`, `.vtt`, `.srt`, `.ass` and `.ssa`.
pub open spec fn local_lyric_names_spec(stem: Seq<char>, file_name: Seq<char>) -> Seq<Seq<char>> {
    seq![
        stem + ".lrc"@,
        file_name + ".lrc"@,
        stem + ".vtt"@,
        file_name + ".vtt"@,
        stem + ".srt"@,
        file_name + ".srt"@,
        stem + ".ass"@,
        file_name + ".ass"@,
        stem + ".ssa"@,
        file_name + ".ssa"@,
    ]
}

/// The names of lyrics files whose presence marks an audio file as having local lyrics.
pub fn local_lyric_names(stem: &str, file_name: &str) -> (r: Vec<String>)
    ensures
        r@.map_values(|s: String| s@) == local_lyric_names_spec(stem@, file_name@),
{
    let mut r: Vec<String> = Vec::new();
    r.push(concat_str(stem, ".lrc"));
    r.push(concat_str(file_name, ".lrc"));
    r.push(concat_str(stem, ".vtt"));
    r.push(concat_str(file_name, ".vtt"));
    r.push(concat_str(stem, ".srt"));
    r.push(concat_str(file_name, ".srt"));
    r.push(concat_str(stem, ".ass"));
    r.push(concat_str(file_name, ".ass"));
    r.push(concat_str(stem, ".ssa"));
    r.push(concat_str(file_name, ".ssa"));
    assert(r@.map_values(|s: String| s@) =~= local_lyric_names_spec(stem@, file_name@));
    r
}

} // verus!

verus! {

/// A playlist: a name, a cover image and the paths of its tracks.
#[derive(Clone, Debug)]
pub struct Playlist {
    pub name: String,
    pub cover_path: String,
    pub tracks: Vec<String>,
}


/// `ts` with each of `ps`, in order, added at the end unless it is already there.
pub open spec fn with_tracks(ts: Seq<Seq<char>>, ps: Seq<Seq<char>>) -> Seq<Seq<char>>
    decreases ps.len(),
{
    if ps.len() == 0 {
        ts
    } else {
        with_tracks(
            if ts.contains(ps[0]) {
                ts
            } else {
                ts.push(ps[0])
            },
            ps.drop_first(),
        )
    }
}

fn contains_string(v: &Vec<String>, s: &String) -> (r: bool)
    ensures
        r == string_views(v@).contains(s@),
{
    let n = v.len();
    let mut i: usize = 0;
    while i < n
        invariant
            n == v@.len(),
            i <= n,
            forall|j: int| 0 <= j < i ==> v@[j]@ != s@,
        decreases n - i,
    {
        if v[i] == *s {
            assert(string_views(v@)[i as int] == s@);
            return true;
        }
        i = i + 1;
    }
    assert forall|j: int| 0 <= j < string_views(v@).len() implies string_views(v@)[j] != s@ by {
        assert(string_views(v@)[j] == v@[j]@);
    }
    false
}

impl Playlist {
    /// An empty playlist with the given name and no cover.
    pub fn new(name: String) -> (p: Playlist)
        ensures
            p.name@ == name@,
            p.cover_path@ == Seq::<char>::empty(),
            p.tracks@.len() == 0,
    {
        Playlist { name, cover_path: String::new(), tracks: Vec::new() }
    }

    /// Adds the paths, in order, that the playlist does not hold yet.
    pub fn add_tracks(&mut self, paths: Vec<String>)
        ensures
            string_views(final(self).tracks@) == with_tracks(
                string_views(old(self).tracks@),
                string_views(paths@),
            ),
            final(self).name@ == old(self).name@,
            final(self).cover_path@ == old(self).cover_path@,
    {
        let ghost all = string_views(paths@);
        let ghost orig = string_views(self.tracks@);
        let n = paths.len();
        assert(all.skip(0) =~= all);
        for i in 0..n
            invariant
                n == paths@.len(),
                all == string_views(paths@),
                with_tracks(orig, all) == with_tracks(string_views(self.tracks@), all.skip(i as int)),
                self.name@ == old(self).name@,
                self.cover_path@ == old(self).cover_path@,
        {
            let p = &paths[i];
            assert(all.skip(i as int)[0] == p@);
            assert(all.skip(i as int).drop_first() =~= all.skip(i + 1));
            if !contains_string(&self.tracks, p) {
                let ghost before = string_views(self.tracks@);
                self.tracks.push(owned(p.as_str()));
                assert(string_views(self.tracks@) =~= before.push(p@));
            }
        }
        assert(all.skip(n as int) =~= Seq::<Seq<char>>::empty());
    }
}

/// Adding tracks keeps the tracks there were in front, in order; afterwards every added path
/// is held; nothing comes in that was not held or added; and a playlist without repeated
/// paths gets none.
pub proof fn lemma_with_tracks(ts: Seq<Seq<char>>, ps: Seq<Seq<char>>)
    ensures
        with_tracks(ts, ps).len() >= ts.len(),
        with_tracks(ts, ps).take(ts.len() as int) == ts,
        forall|i: int| 0 <= i < ps.len() ==> with_tracks(ts, ps).contains(#[trigger] ps[i]),
        forall|x: Seq<char>| #[trigger]
            with_tracks(ts, ps).contains(x) ==> ts.contains(x) || ps.contains(x),
        ts.no_duplicates() ==> with_tracks(ts, ps).no_duplicates(),
    decreases ps.len(),
{
    if ps.len() > 0 {
        let p = ps[0];
        let ts2 = if ts.contains(p) {
            ts
        } else {
            ts.push(p)
        };
        let rest = ps.drop_first();
        lemma_with_tracks(ts2, rest);
        let r = with_tracks(ts, ps);
        assert(r == with_tracks(ts2, rest));
        assert(r.take(ts.len() as int) =~= ts) by {
            assert(r.take(ts2.len() as int) == ts2);
            assert forall|i: int| 0 <= i < ts.len() implies r[i] == ts[i] by {
                assert(r.take(ts2.len() as int)[i] == ts2[i]);
            }
        }
        assert forall|i: int| 0 <= i < ps.len() implies r.contains(#[trigger] ps[i]) by {
            if i == 0 {
                if ts.contains(p) {
                    let j = choose|j: int| 0 <= j < ts.len() && ts[j] == p;
                    assert(r.take(ts.len() as int)[j] == p);
                    assert(r[j] == p);
                } else {
                    assert(r.take(ts2.len() as int)[ts.len() as int] == p);
                    assert(r[ts.len() as int] == p);
                }
            } else {
                assert(ps[i] == rest[i - 1]);
            }
        }
        assert forall|x: Seq<char>| #[trigger] r.contains(x) implies ts.contains(x) || ps.contains(
            x,
        ) by {
            if ts2.contains(x) {
                if !ts.contains(x) {
                    let j = choose|j: int| 0 <= j < ts2.len() && ts2[j] == x;
                    assert(j == ts.len());
                    assert(ps[0] == x);
                }
            } else {
                assert(rest.contains(x));
                let j = choose|j: int| 0 <= j < rest.len() && rest[j] == x;
                assert(ps[j + 1] == x);
            }
        }
        if ts.no_duplicates() {
            assert(ts2.no_duplicates()) by {
                if !ts.contains(p) {
                    assert forall|i: int, j: int|
                        0 <= i < ts2.len() && 0 <= j < ts2.len() && i != j implies ts2[i]
                        != ts2[j] by {
                        if i == ts.len() as int {
                            assert(ts[j] == ts2[j]);
                        } else if j == ts.len() as int {
                            assert(ts[i] == ts2[i]);
                        }
                    }
                }
            }
        }
    } else {
        assert(ts.take(ts.len() as int) =~= ts);
    }
}

/// A playlist as the player lists it.
#[derive(Clone, Debug)]
pub struct PlaylistInfo {
    pub id: String,
    pub name: String,
    pub cover_path: String,
    pub track_count: usize,
}

/// The view of a playlist entry: id, name, cover, number of tracks.
pub open spec fn info_view(p: PlaylistInfo) -> (Seq<char>, Seq<char>, Seq<char>, nat) {
    (p.id@, p.name@, p.cover_path@, p.track_count as nat)
}

/// The name of a playlist entry view.
pub open spec fn info_name(p: (Seq<char>, Seq<char>, Seq<char>, nat)) -> Seq<char> {
    p.1
}

/// The views of a sequence of playlist entries.
pub open spec fn info_views(v: Seq<PlaylistInfo>) -> Seq<(Seq<char>, Seq<char>, Seq<char>, nat)> {
    v.map_values(|p: PlaylistInfo| info_view(p))
}

impl Playlist {
    /// The listing entry of this playlist under `id`.
    pub fn info(&self, id: String) -> (r: PlaylistInfo)
        ensures
            info_view(r) == (id@, self.name@, self.cover_path@, self.tracks@.len()),
    {
        PlaylistInfo {
            id,
            name: owned(self.name.as_str()),
            cover_path: owned(self.cover_path.as_str()),
            track_count: self.tracks.len(),
        }
    }
}

/// The listing entries of the playlists found, each `(id, playlist)`, sorted by name (stably).
pub open spec fn playlist_listing_spec(found: Seq<(String, Playlist)>) -> Seq<
    (Seq<char>, Seq<char>, Seq<char>, nat),
> {
    sort_by_key(
        found.map_values(
            |f: (String, Playlist)| (f.0@, f.1.name@, f.1.cover_path@, f.1.tracks@.len()),
        ),
        |p: (Seq<char>, Seq<char>, Seq<char>, nat)| info_name(p),
    )
}

/// The listing of the playlists found, as `playlist_listing_spec` gives it.
pub fn playlist_listing(found: Vec<(String, Playlist)>) -> (r: Vec<PlaylistInfo>)
    ensures
        info_views(r@) == playlist_listing_spec(found@),
{
    let ghost key = |p: (Seq<char>, Seq<char>, Seq<char>, nat)| info_name(p);
    let ghost src = found@.map_values(
        |f: (String, Playlist)| (f.0@, f.1.name@, f.1.cover_path@, f.1.tracks@.len()),
    );
    let mut out: Vec<PlaylistInfo> = Vec::new();
    let n = found.len();
    for i in 0..n
        invariant
            n == found@.len(),
            key == (|p: (Seq<char>, Seq<char>, Seq<char>, nat)| info_name(p)),
            src == found@.map_values(
                |f: (String, Playlist)| (f.0@, f.1.name@, f.1.cover_path@, f.1.tracks@.len()),
            ),
            info_views(out@) == sort_by_key(src.take(i as int), key),
    {
        let x = found[i].1.info(owned(found[i].0.as_str()));
        let mut p = out.len();
        while p > 0 && text_before(x.name.as_str(), out[p - 1].name.as_str())
            invariant
                p <= out@.len(),
                forall|k: int| p <= k < out@.len() ==> text_lt(x.name@, #[trigger] out@[k].name@),
            decreases p,
        {
            p = p - 1;
        }
        let ghost before = info_views(out@);
        proof {
            assert forall|k: int| p <= k < before.len() implies text_lt(
                key(info_view(x)),
                key(#[trigger] before[k]),
            ) by {
                assert(before[k] == info_view(out@[k]));
            }
            if p > 0 {
                assert(before[p - 1] == info_view(out@[p - 1]));
            }
            lemma_insert_by_key_at(before, info_view(x), key, p as int);
            assert(src.take(i + 1).drop_last() =~= src.take(i as int));
            assert(src.take(i + 1).last() == info_view(x));
        }
        out.insert(p, x);
        assert(info_views(out@) =~= before.insert(p as int, info_view(x)));
    }
    assert(src.take(n as int) =~= src);
    out
}

} // verus!

verus! {

proof fn lemma_text_lt_irreflexive(a: Seq<char>)
    ensures
        !text_lt(a, a),
    decreases a.len(),
{
    if a.len() > 0 {
        lemma_text_lt_irreflexive(a.drop_first());
    }
}

proof fn lemma_text_lt_transitive(a: Seq<char>, b: Seq<char>, c: Seq<char>)
    requires
        text_lt(a, b),
        text_lt(b, c),
    ensures
        text_lt(a, c),
    decreases a.len(),
{
    if a.len() > 0 && b.len() > 0 && c.len() > 0 && a[0] == b[0] && b[0] == c[0] {
        lemma_text_lt_transitive(a.drop_first(), b.drop_first(), c.drop_first());
    }
}

proof fn lemma_text_lt_total(a: Seq<char>, b: Seq<char>)
    ensures
        text_lt(a, b) || text_lt(b, a) || a == b,
    decreases a.len(),
{
    if a.len() > 0 && b.len() > 0 && a[0] == b[0] {
        lemma_text_lt_total(a.drop_first(), b.drop_first());
        if a.drop_first() == b.drop_first() {
            assert(a =~= seq![a[0]] + a.drop_first());
            assert(b =~= seq![b[0]] + b.drop_first());
        }
    } else if a.len() == 0 && b.len() == 0 {
        assert(a =~= b);
    } else if a.len() > 0 && b.len() > 0 {
        vstd::utf8::char_u32_cast(a[0], a[0] as u32);
        vstd::utf8::char_u32_cast(b[0], b[0] as u32);
    }
}

/// Keys never go down along `s`.
pub open spec fn sorted_by_key<T>(s: Seq<T>, key: spec_fn(T) -> Seq<char>) -> bool {
    forall|i: int, j: int| 0 <= i <= j < s.len() ==> !text_lt(key(s[j]), key(s[i]))
}

proof fn lemma_insert_by_key<T>(s: Seq<T>, x: T, key: spec_fn(T) -> Seq<char>)
    requires
        sorted_by_key(s, key),
    ensures
        sorted_by_key(insert_by_key(s, x, key), key),
        insert_by_key(s, x, key).to_multiset() == s.to_multiset().insert(x),
        forall|k: int|
            0 <= k < insert_by_key(s, x, key).len() ==> #[trigger] insert_by_key(s, x, key)[k]
                == x || s.contains(insert_by_key(s, x, key)[k]),
    decreases s.len(),
{
    broadcast use vstd::seq_lib::to_multiset_build;

    let r = insert_by_key(s, x, key);
    if s.len() == 0 {
        assert(r == seq![x]);
        assert forall|i: int, j: int| 0 <= i <= j < r.len() implies !text_lt(
            key(r[j]),
            key(r[i]),
        ) by {
            lemma_text_lt_irreflexive(key(x));
        }
        assert(seq![x] =~= s.push(x));
    } else if !text_lt(key(x), key(s.last())) {
        assert forall|i: int, j: int| 0 <= i <= j < r.len() implies !text_lt(
            key(r[j]),
            key(r[i]),
        ) by {
            if j == s.len() && i < s.len() {
                if text_lt(key(x), key(s[i])) {
                    lemma_text_lt_total(key(s[i]), key(s.last()));
                    if text_lt(key(s[i]), key(s.last())) {
                        lemma_text_lt_transitive(key(x), key(s[i]), key(s.last()));
                    }
                }
            } else if i == j {
                lemma_text_lt_irreflexive(key(r[i]));
            }
        }
        assert forall|k: int|
            0 <= k < r.len() implies #[trigger] r[k] == x || s.contains(r[k]) by {
            if k < s.len() {
                assert(r[k] == s[k]);
            }
        }
    } else {
        let d = s.drop_last();
        let l = s.last();
        assert(sorted_by_key(d, key));
        lemma_insert_by_key(d, x, key);
        let q = insert_by_key(d, x, key);
        assert(s =~= d.push(l));
        assert forall|i: int, j: int| 0 <= i <= j < r.len() implies !text_lt(
            key(r[j]),
            key(r[i]),
        ) by {
            if j == q.len() {
                if i == j {
                    lemma_text_lt_irreflexive(key(l));
                } else if q[i] == x {
                    if text_lt(key(l), key(x)) {
                        lemma_text_lt_transitive(key(x), key(l), key(x));
                        lemma_text_lt_irreflexive(key(x));
                    }
                } else {
                    assert(d.contains(q[i]));
                    let m = choose|m: int| 0 <= m < d.len() && d[m] == q[i];
                    assert(s[m] == d[m]);
                }
            }
        }
        assert forall|k: int|
            0 <= k < r.len() implies #[trigger] r[k] == x || s.contains(r[k]) by {
            if k < q.len() {
                if q[k] != x {
                    assert(d.contains(q[k]));
                    let m = choose|m: int| 0 <= m < d.len() && d[m] == q[k];
                    assert(s[m] == d[m]);
                }
            } else {
                assert(s[s.len() - 1] == l);
            }
        }
    }
}

/// A listing sorted by a text key is in non-decreasing order of that key and holds the same
/// entries as before.
pub proof fn lemma_sort_by_key<T>(s: Seq<T>, key: spec_fn(T) -> Seq<char>)
    ensures
        sorted_by_key(sort_by_key(s, key), key),
        sort_by_key(s, key).to_multiset() == s.to_multiset(),
    decreases s.len(),
{
    broadcast use vstd::seq_lib::to_multiset_build;

    if s.len() > 0 {
        let d = s.drop_last();
        lemma_sort_by_key(d, key);
        lemma_insert_by_key(sort_by_key(d, key), s.last(), key);
        assert(s =~= d.push(s.last()));
    }
}

} // verus!

verus! {

/// The id of a playlist created `millis` milliseconds after the Unix epoch: the number in
/// decimal.
pub fn playlist_id(millis: u128) -> (r: String)
    ensures
        r@ == crate::numbers::decimal(millis as nat),
{
    let mut out: Vec<char> = Vec::new();
    crate::numbers::push_decimal(&mut out, millis);
    assert(out@ =~= crate::numbers::decimal(millis as nat));
    crate::text::string_of(&out)
}


/// Adding one path: it is appended when not held yet, and the tracks stay as they are when
/// it is.
pub proof fn lemma_with_one_track(ts: Seq<Seq<char>>, x: Seq<char>)
    ensures
        with_tracks(ts, seq![x]) == if ts.contains(x) {
            ts
        } else {
            ts.push(x)
        },
{
    let step = if ts.contains(x) {
        ts
    } else {
        ts.push(x)
    };
    assert(seq![x].drop_first() =~= Seq::<Seq<char>>::empty());
    assert(seq![x][0] == x);
    assert(with_tracks(step, Seq::<Seq<char>>::empty()) == step);
    assert(with_tracks(ts, seq![x]) == with_tracks(step, seq![x].drop_first()));
}

/// Paths are added one after the other in the order given: adding `ps` and then `x` is
/// adding `ps` followed by `x`.
pub proof fn lemma_with_tracks_in_order(ts: Seq<Seq<char>>, ps: Seq<Seq<char>>, x: Seq<char>)
    ensures
        with_tracks(ts, ps.push(x)) == with_tracks(with_tracks(ts, ps), seq![x]),
    decreases ps.len(),
{
    if ps.len() == 0 {
        assert(ps.push(x) =~= seq![x]);
    } else {
        let ts2 = if ts.contains(ps[0]) {
            ts
        } else {
            ts.push(ps[0])
        };
        assert(ps.push(x)[0] == ps[0]);
        assert(ps.push(x).drop_first() =~= ps.drop_first().push(x));
        lemma_with_tracks_in_order(ts2, ps.drop_first(), x);
    }
}

/// New distinct paths are appended after the tracks there were, in the order given.
pub proof fn lemma_with_new_tracks(ts: Seq<Seq<char>>, ps: Seq<Seq<char>>)
    requires
        forall|i: int, j: int| 0 <= i < j < ps.len() ==> ps[i] != ps[j],
        forall|i: int| 0 <= i < ps.len() ==> !ts.contains(#[trigger] ps[i]),
    ensures
        with_tracks(ts, ps) == ts + ps,
    decreases ps.len(),
{
    if ps.len() == 0 {
        assert(ts + ps =~= ts);
    } else {
        let p = ps.drop_last();
        let x = ps.last();
        assert(ps =~= p.push(x));
        lemma_with_new_tracks(ts, p);
        lemma_with_tracks_in_order(ts, p, x);
        lemma_with_one_track(ts + p, x);
        assert(!(ts + p).contains(x)) by {
            if (ts + p).contains(x) {
                let k = choose|k: int| 0 <= k < (ts + p).len() && (ts + p)[k] == x;
                if k < ts.len() {
                    assert(ts.contains(x));
                    assert(ts.contains(ps[ps.len() - 1]));
                } else {
                    assert(ps[k - ts.len()] == ps[ps.len() - 1]);
                }
            }
        }
        assert((ts + p).push(x) =~= ts + ps);
    }
}

/// The audio extensions are exactly mp3, wav, flac, ogg, m4a, aac, wma and opus, in any ASCII
/// case.
pub proof fn lemma_audio_extensions(ext: Seq<char>)
    ensures
        is_audio_ext(ext) <==> ({
            let l = ext.map_values(|c: char| ascii_lower(c));
            ||| l == seq!['m', 'p', '3']
            ||| l == seq!['w', 'a', 'v']
            ||| l == seq!['f', 'l', 'a', 'c']
            ||| l == seq!['o', 'g', 'g']
            ||| l == seq!['m', '4', 'a']
            ||| l == seq!['a', 'a', 'c']
            ||| l == seq!['w', 'm', 'a']
            ||| l == seq!['o', 'p', 'u', 's']
        }),
{
    reveal_strlit("mp3");
    reveal_strlit("wav");
    reveal_strlit("flac");
    reveal_strlit("ogg");
    reveal_strlit("m4a");
    reveal_strlit("aac");
    reveal_strlit("wma");
    reveal_strlit("opus");
    let a = audio_extensions();
    let l = ext.map_values(|c: char| ascii_lower(c));
    assert(a[0] =~= seq!['m', 'p', '3']);
    assert(a[1] =~= seq!['w', 'a', 'v']);
    assert(a[2] =~= seq!['f', 'l', 'a', 'c']);
    assert(a[3] =~= seq!['o', 'g', 'g']);
    assert(a[4] =~= seq!['m', '4', 'a']);
    assert(a[5] =~= seq!['a', 'a', 'c']);
    assert(a[6] =~= seq!['w', 'm', 'a']);
    assert(a[7] =~= seq!['o', 'p', 'u', 's']);
    assert(a.len() == 8);
    if a.contains(l) {
        let k = choose|k: int| 0 <= k < a.len() && a[k] == l;
        assert(k == 0 || k == 1 || k == 2 || k == 3 || k == 4 || k == 5 || k == 6 || k == 7);
    }
    if l == a[0] || l == a[1] || l == a[2] || l == a[3] || l == a[4] || l == a[5] || l == a[6]
        || l == a[7] {
        if l == a[0] { assert(a.contains(l)); }
        if l == a[1] { assert(a.contains(l)); }
        if l == a[2] { assert(a.contains(l)); }
        if l == a[3] { assert(a.contains(l)); }
        if l == a[4] { assert(a.contains(l)); }
        if l == a[5] { assert(a.contains(l)); }
        if l == a[6] { assert(a.contains(l)); }
        if l == a[7] { assert(a.contains(l)); }
    }
}

} // verus!

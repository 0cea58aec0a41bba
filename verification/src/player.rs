use vstd::prelude::*;

use crate::lyrics::{LyricLine, lyric_views};
use crate::text::{chars_of, find_seq_from, find_str, owned, string_of, trim, trim_range};

verus! {

/// The artist and title of a file named `artist - title`: the text before and after the first
/// `" - "`, trimmed; `"Unknown"` and the whole name when there is none.
pub open spec fn artist_title(stem: Seq<char>) -> (Seq<char>, Seq<char>) {
    let k = find_seq_from(stem, " - "@, 0);
    if k < stem.len() {
        (trim(stem.take(k)), trim(stem.skip(k + 3)))
    } else {
        ("Unknown"@, stem)
    }
}

/// Whether `stem` holds `" - "`.
pub open spec fn has_artist(stem: Seq<char>) -> bool {
    find_seq_from(stem, " - "@, 0) < stem.len()
}

/// Splits a file stem `artist - title` into artist and title, as `artist_title` describes.
pub fn split_artist_title(stem: &str) -> (r: (String, String))
    ensures
        (r.0@, r.1@) == artist_title(stem@),
{
    let s = chars_of(stem);
    let pat = chars_of(" - ");
    proof {
        reveal_strlit(" - ");
    }
    let n = s.len();
    let k = find_str(&s, &pat);
    if k < n {
        assert(pat@.len() == 3);
        let a = trim_range(&s, 0, k);
        let t = trim_range(&s, k + 3, n);
        assert(s@.subrange(0, k as int) =~= s@.take(k as int));
        assert(s@.subrange(k + 3, n as int) =~= s@.skip(k + 3));
        (string_of(&a), string_of(&t))
    } else {
        proof {
            reveal_strlit("Unknown");
        }
        (owned("Unknown"), string_of(&s))
    }
}

/// The artist and title of a file stem, or the error when it does not read as
/// `artist - title`.
pub fn track_query(stem: &str) -> (r: Result<(String, String), String>)
    ensures
        has_artist(stem@) ==> (r matches Ok((a, t)) && (a@, t@) == artist_title(stem@)),
        !has_artist(stem@) ==> (r matches Err(e) && e@
            == "Cannot parse artist - title from filename"@),
{
    let s = chars_of(stem);
    let pat = chars_of(" - ");
    proof {
        reveal_strlit(" - ");
    }
    let k = find_str(&s, &pat);
    if k < s.len() {
        Ok(split_artist_title(stem))
    } else {
        Err(owned("Cannot parse artist - title from filename"))
    }
}

} // verus!

verus! {

/// The largest `std::time::Duration`, in nanoseconds.
pub open spec fn max_duration_ns() -> nat {
    0xffff_ffff_ffff_ffff * 1_000_000_000 + 999_999_999
}

/// `d` nanoseconds as whole milliseconds, cut to 64 bits as `as_millis() as u64` does.
pub open spec fn ns_to_ms(d: nat) -> u64 {
    ((d / 1_000_000) % 0x1_0000_0000_0000_0000) as u64
}

/// The time from `start` to `now` (nanoseconds on a monotonic clock), zero when `now` is
/// earlier.
pub open spec fn since(start: u128, now: u128) -> nat {
    if now >= start {
        (now - start) as nat
    } else {
        0
    }
}

/// The playback state of the player: what is loaded and how far it has played. Times are
/// nanoseconds on a monotonic clock that the caller reads.
pub struct AudioPlayer {
    pub current_path: String,
    pub use_ffmpeg: bool,
    pub lyrics: Vec<LyricLine>,
    /// When playback was last started or resumed, while it plays.
    pub start_time: Option<u128>,
    /// How long it had played before `start_time` (or in all, while paused), in nanoseconds.
    pub paused_elapsed: u128,
    pub is_paused: bool,
    pub song_title: String,
    pub song_artist: String,
    pub duration_ms: u64,
}

/// Facts about a loaded song, as the player window shows them.
#[derive(Clone, Debug)]
pub struct SongInfo {
    pub title: String,
    pub artist: String,
    pub has_lyrics: bool,
    pub lyrics: Vec<LyricLine>,
    pub duration_ms: u64,
    pub cover_path: String,
}

impl AudioPlayer {
    /// The playing time in nanoseconds at `now`: what was played before plus, while playing,
    /// the time since the last start.
    pub open spec fn elapsed_ns(&self, now: u128) -> nat {
        if self.is_paused {
            self.paused_elapsed as nat
        } else {
            match self.start_time {
                Some(t) => self.paused_elapsed as nat + since(t, now),
                None => 0,
            }
        }
    }

    /// The time played before the last start plus the time since it fits in a `Duration`.
    pub open spec fn pause_fits(&self, now: u128) -> bool {
        match self.start_time {
            Some(t) => self.paused_elapsed + since(t, now) <= max_duration_ns(),
            None => true,
        }
    }

    /// The playing time at `now` fits in a `Duration`.
    pub open spec fn elapsed_fits(&self, now: u128) -> bool {
        self.elapsed_ns(now) <= max_duration_ns()
    }

    /// Whether pausing at `now` keeps the played time within a `Duration`.
    pub fn pause_fits_at(&self, now: u128) -> (b: bool)
        ensures
            b == self.pause_fits(now),
    {
        match self.start_time {
            Some(t) => {
                let d = if now >= t {
                    now - t
                } else {
                    0
                };
                self.paused_elapsed <= 0xffff_ffff_ffff_ffff_u128 * 1_000_000_000 + 999_999_999
                    && d <= 0xffff_ffff_ffff_ffff_u128 * 1_000_000_000 + 999_999_999 - self.paused_elapsed
            },
            None => true,
        }
    }

    /// Whether the playing time at `now` fits in a `Duration`.
    pub fn elapsed_fits_at(&self, now: u128) -> (b: bool)
        ensures
            b == self.elapsed_fits(now),
    {
        if self.is_paused {
            self.paused_elapsed <= 0xffff_ffff_ffff_ffff_u128 * 1_000_000_000 + 999_999_999
        } else {
            match self.start_time {
                Some(_) => self.pause_fits_at(now),
                None => true,
            }
        }
    }

    /// A player with nothing loaded.
    pub fn new() -> (p: AudioPlayer)
        ensures
            p.current_path@ == Seq::<char>::empty(),
            !p.use_ffmpeg,
            p.lyrics@.len() == 0,
            p.start_time is None,
            p.paused_elapsed == 0,
            !p.is_paused,
            p.song_title@ == Seq::<char>::empty(),
            p.song_artist@ == Seq::<char>::empty(),
            p.duration_ms == 0,
    {
        AudioPlayer {
            current_path: String::new(),
            use_ffmpeg: false,
            lyrics: Vec::new(),
            start_time: None,
            paused_elapsed: 0,
            is_paused: false,
            song_title: String::new(),
            song_artist: String::new(),
            duration_ms: 0,
        }
    }

    /// The playing position in milliseconds at `now`.
    pub fn elapsed_ms(&self, now: u128) -> (ms: u64)
        requires
            self.elapsed_fits(now),
        ensures
            ms == ns_to_ms(self.elapsed_ns(now)),
    {
        if self.is_paused {
            ((self.paused_elapsed / 1_000_000) % 0x1_0000_0000_0000_0000) as u64
        } else {
            match self.start_time {
                Some(t) => {
                    let d = if now >= t {
                        now - t
                    } else {
                        0
                    };
                    let total = self.paused_elapsed + d;
                    ((total / 1_000_000) % 0x1_0000_0000_0000_0000) as u64
                },
                None => 0,
            }
        }
    }

    /// Toggles between playing and paused, given whether the output was paused (none when
    /// nothing is loaded, which is an error). Resuming restarts the clock at `now`; pausing
    /// adds the time played since the last start. Returns whether it is now paused.
    pub fn play_pause(&mut self, sink_paused: Option<bool>, now: u128) -> (r: Result<bool, String>)
        requires
            sink_paused == Some(false) ==> old(self).pause_fits(now),
        ensures
            match sink_paused {
                None => r matches Err(e) && e@ == "No music loaded"@ && *final(self) == *old(self),
                Some(w) => r == Ok::<bool, String>(!w) && toggled(*old(self), *final(self), w, now),
            },
    {
        match sink_paused {
            None => Err(owned("No music loaded")),
            Some(was_paused) => {
                if was_paused {
                    self.start_time = Some(now);
                    self.is_paused = false;
                } else {
                    match self.start_time {
                        Some(t) => {
                            let d = if now >= t {
                                now - t
                            } else {
                                0
                            };
                            self.paused_elapsed = self.paused_elapsed + d;
                        },
                        None => {},
                    }
                    self.start_time = None;
                    self.is_paused = true;
                }
                Ok(!was_paused)
            },
        }
    }

    /// Playing, the clock has a start time.
    pub open spec fn clock_ready(&self) -> bool {
        self.is_paused || self.start_time is Some
    }

    /// Two players hold the same song and settings (all but the clock).
    pub open spec fn same_song(&self, other: AudioPlayer) -> bool {
        &&& self.current_path@ == other.current_path@
        &&& self.use_ffmpeg == other.use_ffmpeg
        &&& lyric_views(self.lyrics@) == lyric_views(other.lyrics@)
        &&& self.song_title@ == other.song_title@
        &&& self.song_artist@ == other.song_artist@
        &&& self.duration_ms == other.duration_ms
    }

    /// Moves the position to `position_ms`: the clock restarts at `now` with that much played.
    pub fn seek(&mut self, position_ms: u64, now: u128)
        ensures
            final(self).start_time == Some(now),
            final(self).paused_elapsed == position_ms as nat * 1_000_000,
            final(self).is_paused == old(self).is_paused,
            final(self).same_song(*old(self)),
    {
        self.start_time = Some(now);
        self.paused_elapsed = position_ms as u128 * 1_000_000;
    }
}

} // verus!

verus! {

/// The duration shown for a song: the reported one when known (non-zero), else ten seconds
/// after the last lyric line (wrapping past `u64::MAX`), else 0.
pub open spec fn song_duration_spec(reported: u64, lyrics: Seq<(u64, Seq<char>)>) -> u64 {
    if reported > 0 {
        reported
    } else if lyrics.len() > 0 {
        ((lyrics.last().0 + 10000) % 0x1_0000_0000_0000_0000) as u64
    } else {
        0
    }
}

/// The duration shown for a song, as `song_duration_spec` gives it.
pub fn song_duration(reported: u64, lyrics: &Vec<LyricLine>) -> (d: u64)
    ensures
        d == song_duration_spec(reported, lyric_views(lyrics@)),
{
    if reported > 0 {
        reported
    } else if lyrics.len() > 0 {
        lyrics[lyrics.len() - 1].time_ms.wrapping_add(10000)
    } else {
        0
    }
}

/// A copy of the lines.
pub fn copy_lyrics(v: &Vec<LyricLine>) -> (r: Vec<LyricLine>)
    ensures
        lyric_views(r@) == lyric_views(v@),
{
    let mut r: Vec<LyricLine> = Vec::new();
    let n = v.len();
    for i in 0..n
        invariant
            n == v@.len(),
            lyric_views(r@) == lyric_views(v@.take(i as int)),
    {
        let x = v[i].duplicate();
        let ghost before = r@;
        r.push(x);
        assert(r@ == before.push(x));
        assert(lyric_views(before.push(x)) =~= lyric_views(before).push(x@));
        assert(lyric_views(v@.take(i + 1)) =~= lyric_views(v@.take(i as int)).push(v@[i as int]@));
        assert(lyric_views(r@) =~= lyric_views(v@.take(i + 1)));
    }
    assert(v@.take(n as int) =~= v@);
    r
}

impl AudioPlayer {
    /// Loads a song that now plays from the start at `now`: artist and title come from the
    /// file stem, the duration from the reported one or the lyrics. Returns what the player
    /// window shows.
    pub fn open_song(
        &mut self,
        path: String,
        stem: &str,
        lyrics: Vec<LyricLine>,
        reported_ms: u64,
        use_ffmpeg: bool,
        cover_path: String,
        now: u128,
    ) -> (info: SongInfo)
        ensures
            (info.artist@, info.title@) == artist_title(stem@),
            info.has_lyrics == (lyrics@.len() > 0),
            lyric_views(info.lyrics@) == lyric_views(lyrics@),
            info.duration_ms == song_duration_spec(reported_ms, lyric_views(lyrics@)),
            info.cover_path@ == cover_path@,
            final(self).song_title@ == info.title@,
            final(self).song_artist@ == info.artist@,
            lyric_views(final(self).lyrics@) == lyric_views(lyrics@),
            final(self).duration_ms == info.duration_ms,
            final(self).current_path@ == path@,
            final(self).use_ffmpeg == use_ffmpeg,
            final(self).start_time == Some(now),
            final(self).paused_elapsed == 0,
            !final(self).is_paused,
    {
        let (artist, title) = split_artist_title(stem);
        let dur = song_duration(reported_ms, &lyrics);
        self.song_title = owned(title.as_str());
        self.song_artist = owned(artist.as_str());
        self.lyrics = copy_lyrics(&lyrics);
        self.duration_ms = dur;
        self.current_path = path;
        self.use_ffmpeg = use_ffmpeg;
        self.start_time = Some(now);
        self.paused_elapsed = 0;
        self.is_paused = false;
        let has_lyrics = lyrics.len() > 0;
        SongInfo { title, artist, has_lyrics, lyrics, duration_ms: dur, cover_path }
    }
}

/// The last position below `n` whose line is due at `e` (time at most `e`), or -1.
pub open spec fn last_due(s: Seq<(u64, Seq<char>)>, e: u64, n: int) -> int
    decreases n,
{
    if n <= 0 {
        -1
    } else if s[n - 1].0 <= e {
        n - 1
    } else {
        last_due(s, e, n - 1)
    }
}

/// The line shown at position `e`: the last one that is due, or the first when none is.
pub open spec fn current_index(s: Seq<(u64, Seq<char>)>, e: u64) -> int {
    let k = last_due(s, e, s.len() as int);
    if k < 0 {
        0
    } else {
        k
    }
}

/// What the island shows at position `e`: the current and the next text, and how far the
/// current line has run (`done` of `span` milliseconds; a span of 0 means no progress). With
/// no lyrics it shows the title and the artist.
pub open spec fn lyric_cursor(
    lyrics: Seq<(u64, Seq<char>)>,
    title: Seq<char>,
    artist: Seq<char>,
    e: u64,
) -> (Seq<char>, Seq<char>, u64, u64) {
    if lyrics.len() == 0 {
        (title, artist, 0, 0)
    } else {
        let i = current_index(lyrics, e);
        let ct = lyrics[i].0;
        let has_next = i + 1 < lyrics.len();
        let nt = if has_next {
            lyrics[i + 1].0
        } else {
            ((ct + 5000) % 0x1_0000_0000_0000_0000) as u64
        };
        let next = if has_next {
            lyrics[i + 1].1
        } else {
            seq![]
        };
        if nt > ct && e >= ct {
            (lyrics[i].1, next, (e - ct) as u64, (nt - ct) as u64)
        } else {
            (lyrics[i].1, next, 0, 0)
        }
    }
}

/// The lyric position shown on the island.
#[derive(Clone, Debug)]
pub struct LyricCursor {
    pub current: String,
    pub next: String,
    /// Milliseconds of the current line that have run.
    pub done_ms: u64,
    /// Milliseconds the current line lasts; 0 when no progress is shown.
    pub span_ms: u64,
    pub position_ms: u64,
}

/// The line due at `e` is the last one whose time is at most `e`: when some line is due, the
/// current one is due and every later one is not.
pub proof fn lemma_current_index(s: Seq<(u64, Seq<char>)>, e: u64)
    requires
        s.len() > 0,
    ensures
        0 <= current_index(s, e) < s.len(),
        (exists|j: int| 0 <= j < s.len() && s[j].0 <= e) ==> s[current_index(s, e)].0 <= e,
        forall|j: int| current_index(s, e) < j < s.len() ==> s[j].0 > e,
{
    lemma_last_due(s, e, s.len() as int);
}

proof fn lemma_last_due(s: Seq<(u64, Seq<char>)>, e: u64, n: int)
    requires
        0 <= n <= s.len(),
    ensures
        -1 <= last_due(s, e, n) < n,
        last_due(s, e, n) >= 0 ==> s[last_due(s, e, n)].0 <= e,
        forall|j: int| last_due(s, e, n) < j < n ==> s[j].0 > e,
    decreases n,
{
    if n > 0 && s[n - 1].0 > e {
        lemma_last_due(s, e, n - 1);
    }
}

impl AudioPlayer {
    /// What the island shows at `now`, as `lyric_cursor` describes it at the playing position.
    pub fn current_lyric(&self, now: u128) -> (c: LyricCursor)
        requires
            self.elapsed_fits(now),
        ensures
            c.position_ms == ns_to_ms(self.elapsed_ns(now)),
            (c.current@, c.next@, c.done_ms, c.span_ms) == lyric_cursor(
                lyric_views(self.lyrics@),
                self.song_title@,
                self.song_artist@,
                c.position_ms,
            ),
    {
        let e = self.elapsed_ms(now);
        let ghost lv = lyric_views(self.lyrics@);
        let n = self.lyrics.len();
        if n == 0 {
            return LyricCursor {
                current: owned(self.song_title.as_str()),
                next: owned(self.song_artist.as_str()),
                done_ms: 0,
                span_ms: 0,
                position_ms: e,
            };
        }
        let mut k = n;
        while k > 0 && self.lyrics[k - 1].time_ms > e
            invariant
                k <= n == self.lyrics@.len(),
                lv == lyric_views(self.lyrics@),
                last_due(lv, e, n as int) == last_due(lv, e, k as int),
            decreases k,
        {
            k = k - 1;
        }
        let i = if k == 0 {
            0
        } else {
            k - 1
        };
        assert(i == current_index(lv, e));
        let ct = self.lyrics[i].time_ms;
        let has_next = i + 1 < n;
        let nt = if has_next {
            self.lyrics[i + 1].time_ms
        } else {
            ct.wrapping_add(5000)
        };
        let next = if has_next {
            owned(self.lyrics[i + 1].text.as_str())
        } else {
            String::new()
        };
        let current = owned(self.lyrics[i].text.as_str());
        if nt > ct && e >= ct {
            LyricCursor { current, next, done_ms: e - ct, span_ms: nt - ct, position_ms: e }
        } else {
            LyricCursor { current, next, done_ms: 0, span_ms: 0, position_ms: e }
        }
    }
}

} // verus!

verus! {

/// `after` is `before` toggled at `now`, given whether the output was paused: resuming
/// restarts the clock at `now`; pausing adds the time played since the last start.
pub open spec fn toggled(before: AudioPlayer, after: AudioPlayer, was_paused: bool, now: u128) -> bool {
    &&& after.same_song(before)
    &&& if was_paused {
        &&& after.start_time == Some(now)
        &&& !after.is_paused
        &&& after.paused_elapsed == before.paused_elapsed
    } else {
        &&& after.start_time is None
        &&& after.is_paused
        &&& after.paused_elapsed == (match before.start_time {
            Some(t) => before.paused_elapsed as nat + since(t, now),
            None => before.paused_elapsed as nat,
        })
    }
}

/// With the paused flag in step with the output: toggling flips the paused state, keeps the
/// position of that moment and leaves the clock ready; toggling again restores the paused
/// state.
pub proof fn lemma_toggle_round_trip(
    p0: AudioPlayer,
    p1: AudioPlayer,
    p2: AudioPlayer,
    t1: u128,
    t2: u128,
)
    requires
        p0.clock_ready(),
        toggled(p0, p1, p0.is_paused, t1),
        toggled(p1, p2, p1.is_paused, t2),
    ensures
        p1.is_paused == !p0.is_paused,
        p1.elapsed_ns(t1) == p0.elapsed_ns(t1),
        p1.clock_ready(),
        p2.is_paused == p0.is_paused,
        p2.clock_ready(),
{
}

/// After a seek to `pos` at `now`, the position read at `now` is `pos`.
pub proof fn lemma_seek_sets_position(p: AudioPlayer, pos: u64, now: u128)
    requires
        p.start_time == Some(now),
        p.paused_elapsed == pos as nat * 1_000_000,
    ensures
        ns_to_ms(p.elapsed_ns(now)) == pos,
{
    assert(p.elapsed_ns(now) == pos as nat * 1_000_000);
    assert((pos as nat * 1_000_000) / 1_000_000 == pos as nat) by (nonlinear_arith);
}

/// Pausing a playing player at `now` keeps the position it had at `now` for every later
/// moment, until it plays again.
pub proof fn lemma_pause_keeps_position(before: AudioPlayer, after: AudioPlayer, now: u128, later: u128)
    requires
        !before.is_paused,
        before.start_time is Some,
        after.is_paused,
        after.start_time is None,
        after.paused_elapsed == before.paused_elapsed as nat + since(before.start_time.unwrap(), now),
    ensures
        after.elapsed_ns(later) == before.elapsed_ns(now),
{
}

/// Resuming at `now` continues from the position the player was paused at.
pub proof fn lemma_resume_continues(before: AudioPlayer, after: AudioPlayer, now: u128, later: u128)
    requires
        before.is_paused,
        !after.is_paused,
        after.start_time == Some(now),
        after.paused_elapsed == before.paused_elapsed,
    ensures
        after.elapsed_ns(later) == before.elapsed_ns(now) + since(now, later),
{
}

} // verus!

verus! {

/// While a later line follows the current one, the current line has run less than its span:
/// its progress is below one.
pub proof fn lemma_progress_below_span(
    lyrics: Seq<(u64, Seq<char>)>,
    title: Seq<char>,
    artist: Seq<char>,
    e: u64,
)
    requires
        lyrics.len() > 0,
        current_index(lyrics, e) + 1 < lyrics.len(),
        lyric_cursor(lyrics, title, artist, e).3 > 0,
    ensures
        lyric_cursor(lyrics, title, artist, e).2 < lyric_cursor(lyrics, title, artist, e).3,
{
    lemma_current_index(lyrics, e);
}


/// What the island shows at position `e` with some lyrics: the text of the line due (the last
/// one whose time has come, or the first), the text of the line directly after it (none after
/// the last line), and, when that next line starts later and the current one has begun, the
/// time run since the current line started out of the gap up to the next one.
pub proof fn lemma_cursor_lines(
    lyrics: Seq<(u64, Seq<char>)>,
    title: Seq<char>,
    artist: Seq<char>,
    e: u64,
)
    requires
        lyrics.len() > 0,
    ensures
        ({
            let i = current_index(lyrics, e);
            let c = lyric_cursor(lyrics, title, artist, e);
            &&& 0 <= i < lyrics.len()
            &&& c.0 == lyrics[i].1
            &&& i + 1 < lyrics.len() ==> c.1 == lyrics[i + 1].1
            &&& i + 1 == lyrics.len() ==> c.1 == Seq::<char>::empty()
            &&& (i + 1 < lyrics.len() && lyrics[i].0 < lyrics[i + 1].0 && lyrics[i].0 <= e) ==> (
            c.2 == e - lyrics[i].0 && c.3 == lyrics[i + 1].0 - lyrics[i].0)
            &&& c.2 <= c.3 || c.3 == 0 || i + 1 == lyrics.len()
        }),
{
    lemma_current_index(lyrics, e);
    let i = current_index(lyrics, e);
    if i + 1 < lyrics.len() {
        assert(lyrics[i + 1].0 > e);
    }
}

} // verus!

# lyric_island

The logic of a desktop lyrics display that sits at the top of the screen and shows the
current line of the song that plays, written in Verus and verified.

- `src/` is the verified library:
  - `text`, `numbers`: characters, lines, trimming, decimal numbers;
  - `decimal`: which texts are float literals (sign, fraction, exponent, `inf`, `nan`);
  - `lyrics`, `subtitles`, `lyric_files`: LRC, WebVTT/SubRip and ASS/SSA lyrics, writing LRC,
    and picking the lyrics file of a song;
  - `encoding`: URL query encoding and base64;
  - `online`: the LRCLIB and iTunes requests and what their replies give;
  - `media`: FFmpeg paths, `ffprobe` output and decoder arguments;
  - `player`: the playback clock and the lyric shown at a position;
  - `library`: folder listings and playlists.
- `app/` is the Tauri shell: windows, audio output, files, network, the serialised forms
  of the library's types, and the floating-point step that turns timestamp and duration
  literals into milliseconds (the library hands out the literals and takes the times back).
- `tests/` runs the library on concrete inputs.

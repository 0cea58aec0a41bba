//! Lyrics and playback logic of a desktop lyrics display: lyric file formats (LRC, WebVTT,
//! SubRip, ASS/SSA), online lyrics and cover lookups, audio probing, the playback clock, and
//! track and playlist listings.

pub mod text;
pub mod numbers;
pub mod decimal;
pub mod lyrics;
pub mod subtitles;
pub mod encoding;
pub mod lyric_files;
pub mod online;
pub mod media;
pub mod player;
pub mod library;

pub use encoding::{base64_encode, image_data_url, urlenc};
pub use library::{Playlist, PlaylistInfo, TrackItem};
pub use lyrics::{LyricLine, parse_lrc, timestamp_fields};
pub use media::{ffmpeg_bin, ffprobe_bin, AudioMeta, ProbeReport};
pub use player::{AudioPlayer, SongInfo};
pub use subtitles::{parse_ass, parse_vtt_srt};

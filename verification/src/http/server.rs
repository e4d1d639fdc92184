//! Live egress over HTTP: which files are served, and how.

use crate::config;
use crate::config::{is_safe_channel, OutputMode};
use crate::mpegts::stitch;
use crate::mpegts::stitch::parse_m4s_seg_number;
use crate::mpegts::streamer;
use crate::mpegts::streamer::channel_mpegts_ready;
use crate::number;
use crate::number::number_text;
use crate::text;
use crate::text::{chars_of, contains_char, ends_with, same_text};
use vstd::prelude::*;
use vstd::string::*;

verus! {

/// Two dots stand side by side.
pub open spec fn has_double_dot(s: Seq<char>) -> bool {
    exists|i: int| 0 <= i < s.len() - 1 && #[trigger] s[i] == '.' && s[i + 1] == '.'
}

/// A media file name that may be served: no way out of its directory, and a known kind.
pub open spec fn is_media_name(file: Seq<char>) -> bool {
    &&& file.len() > 0
    &&& !has_double_dot(file)
    &&& !file.contains('/')
    &&& !file.contains('\\')
    &&& file == "init.mp4"@ || text::has_suffix(file, ".m4s"@) || text::has_suffix(file, ".mp4"@)
        || text::has_suffix(file, ".mpd"@)
}

fn contains_double_dot(s: &str) -> (yes: bool)
    ensures
        yes == has_double_dot(s@),
{
    let x: Vec<char> = chars_of(s);
    let n: usize = x.len();
    let mut i: usize = 1;
    while i < n
        invariant
            1 <= i,
            n == x@.len(),
            x@ == s@,
            forall|j: int|
                0 <= j < i - 1 && j < n - 1 ==> !(#[trigger] s@[j] == '.' && s@[j + 1] == '.'),
        decreases n - i,
    {
        if x[i - 1] == '.' && x[i] == '.' {
            assert(s@[i - 1] == '.' && s@[i - 1 + 1] == '.');
            return true;
        }
        i = i + 1;
    }
    false
}

/// True for the name of a media file that may be served.
pub fn is_safe_file(file: &str) -> (safe: bool)
    ensures
        safe == is_media_name(file@),
{
    !file.is_empty() && !contains_double_dot(file) && !contains_char(file, '/') && !contains_char(
        file,
        '\\',
    ) && (same_text(file, "init.mp4") || ends_with(file, ".m4s") || ends_with(file, ".mp4")
        || ends_with(file, ".mpd"))
}

/// How a request for a media file is answered.
#[derive(Debug, Clone, Copy)]
pub enum MediaReply {
    /// Refused: `invalid path`.
    InvalidPath,
    /// Served with this content type. The number is that of the segment in the file.
    Serve { content_type: &'static str, segment: Option<u64> },
}

/// The content type of a media file.
pub open spec fn content_type_of(file: Seq<char>) -> Seq<char> {
    if text::has_suffix(file, ".mp4"@) || text::has_suffix(file, ".m4s"@) {
        "video/mp4"@
    } else {
        "application/octet-stream"@
    }
}

/// Decide on a request for `/live/{channel}/{file}`.
pub fn serve_media(channel: &str, file: &str) -> (reply: MediaReply)
    ensures
        match reply {
            MediaReply::InvalidPath => !config::is_channel_id(channel@) || !is_media_name(file@),
            MediaReply::Serve { content_type, segment } => {
                &&& config::is_channel_id(channel@) && is_media_name(file@)
                &&& content_type@ == content_type_of(file@)
                &&& segment == stitch::segment_number(file@, ".m4s"@)
            },
        },
{
    if !is_safe_channel(channel) || !is_safe_file(file) {
        return MediaReply::InvalidPath;
    }
    let content_type: &'static str = if ends_with(file, ".mp4") || ends_with(file, ".m4s") {
        "video/mp4"
    } else {
        "application/octet-stream"
    };
    MediaReply::Serve { content_type, segment: parse_m4s_seg_number(file) }
}

/// How a request for a continuous stream is answered.
#[derive(Debug, Clone, Copy, PartialEq, Eq, Structural)]
pub enum StreamReply {
    /// Refused: `invalid path`.
    InvalidPath,
    /// Not yet: too few segments are there.
    NotReady,
    Stream,
}

/// Decide on a request for `/live/{channel}/mpegts`, given the files of the channel directory.
///
/// The path exists in MPEG-TS mode only, and opens once the buffer is filled.
pub fn serve_mpegts(
    mode: OutputMode,
    channel: &str,
    names: &Vec<String>,
    min_buffer: u64,
) -> (reply: StreamReply)
    ensures
        reply == (if mode != OutputMode::Mpegts || !config::is_channel_id(channel@) {
            StreamReply::InvalidPath
        } else if streamer::media_files(text::texts(names@)).dom().len() < (if min_buffer == 0 {
            1
        } else {
            min_buffer as int
        }) {
            StreamReply::NotReady
        } else {
            StreamReply::Stream
        }),
{
    if mode != OutputMode::Mpegts || !is_safe_channel(channel) {
        return StreamReply::InvalidPath;
    }
    if channel_mpegts_ready(names, min_buffer) {
        StreamReply::Stream
    } else {
        StreamReply::NotReady
    }
}

/// The text of `/metrics`.
pub fn metrics(active_channels: usize) -> (body: String)
    ensures
        body@ == "hls2dash_active_channels "@ + number::decimal(active_channels as nat) + "\n"@,
{
    let mut body: String = "hls2dash_active_channels ".to_owned();
    let count: String = number_text(active_channels as u64);
    body.append(count.as_str());
    body.append("\n");
    body
}

/// The parts of a path that is served are plain names: neither holds a separator, and neither is
/// a reference to a directory.
pub proof fn law_served_parts_are_plain_names(channel: Seq<char>, file: Seq<char>)
    requires
        config::is_channel_id(channel),
        is_media_name(file),
    ensures
        !channel.contains('/') && !channel.contains('\\') && !file.contains('/')
            && !file.contains('\\'),
        channel != ".."@ && channel != "."@,
        file != ".."@ && file != "."@,
{
    reveal_strlit("..");
    reveal_strlit(".");
    reveal_strlit("init.mp4");
    reveal_strlit(".m4s");
    reveal_strlit(".mp4");
    reveal_strlit(".mpd");
    if channel.contains('/') {
        let i = choose|i: int| 0 <= i < channel.len() && channel[i] == '/';
        assert(config::is_channel_char(channel[i]));
    }
    if channel.contains('\\') {
        let i = choose|i: int| 0 <= i < channel.len() && channel[i] == '\\';
        assert(config::is_channel_char(channel[i]));
    }
    assert(file.len() >= 4);
}

/// A media file is served where its name ends with `.m4s`, `.mp4` or `.mpd` and holds neither a
/// slash nor a backslash nor two dots in a row. No other name is.
pub proof fn law_served_names_end_with_their_kind(stem: Seq<char>, kind: Seq<char>)
    requires
        kind.len() == 4,
    ensures
        is_media_name(stem + kind) <==> {
            &&& kind[0] == '.' && kind[1] == 'm'
            &&& (kind[2] == '4' && kind[3] == 's') || (kind[2] == 'p' && (kind[3] == '4' || kind[3]
                == 'd'))
            &&& stem.len() > 0 ==> stem.last() != '.'
            &&& forall|i: int|
                0 <= i < stem.len() ==> #[trigger] stem[i] != '/' && stem[i] != '\\'
            &&& forall|i: int, j: int|
                0 <= i && j == i + 1 && j < stem.len() ==> #[trigger] stem[i] != '.'
                    || #[trigger] stem[j] != '.'
        },
{
    reveal_strlit("init.mp4");
    reveal_strlit(".m4s");
    reveal_strlit(".mp4");
    reveal_strlit(".mpd");
    let file = stem + kind;
    let n = stem.len() as int;
    assert(file.skip(n) =~= kind);
    assert(file[n] == kind[0] && file[n + 1] == kind[1] && file[n + 2] == kind[2] && file[n + 3]
        == kind[3]);
    if file == "init.mp4"@ {
        assert(kind =~= ".mp4"@);
    }
    if kind[0] == '.' && kind[1] == 'm' {
        if kind[2] == '4' && kind[3] == 's' {
            assert(kind =~= ".m4s"@);
        } else if kind[2] == 'p' && kind[3] == '4' {
            assert(kind =~= ".mp4"@);
        } else if kind[2] == 'p' && kind[3] == 'd' {
            assert(kind =~= ".mpd"@);
        }
    }
    if is_media_name(file) {
        assert forall|i: int| 0 <= i < stem.len() implies #[trigger] stem[i] != '/' && stem[i]
            != '\\' by {
            assert(file[i] == stem[i]);
            assert(file.contains(file[i]));
        }
        assert forall|i: int, j: int| 0 <= i && j == i + 1 && j < stem.len() implies
            #[trigger] stem[i] != '.' || #[trigger] stem[j] != '.' by {
            assert(file[i] == stem[i] && file[i + 1] == stem[j]);
        }
        if stem.len() > 0 {
            assert(file[n - 1] == stem.last());
            assert(file[n - 1] != '.' || file[n - 1 + 1] != '.');
        }
    } else if (kind == ".m4s"@ || kind == ".mp4"@ || kind == ".mpd"@) && !(stem.len() > 0
        && stem.last() == '.') {
        if file.contains('/') {
            let i = choose|i: int| 0 <= i < file.len() && file[i] == '/';
            assert(i < n && stem[i] == '/');
        } else if file.contains('\\') {
            let i = choose|i: int| 0 <= i < file.len() && file[i] == '\\';
            assert(i < n && stem[i] == '\\');
        } else {
            let i = choose|i: int|
                0 <= i < file.len() - 1 && #[trigger] file[i] == '.' && file[i + 1] == '.';
            assert(i + 1 < n);
            assert(stem[i] == '.' && stem[i + 1] == '.');
        }
    }
}

/// A name of fewer than four characters is not served.
pub proof fn law_short_names_are_not_served(file: Seq<char>)
    requires
        file.len() < 4,
    ensures
        !is_media_name(file),
{
    reveal_strlit("init.mp4");
    reveal_strlit(".m4s");
    reveal_strlit(".mp4");
    reveal_strlit(".mpd");
}

/// Fragments and initialisation segments are served as video, and every other file as plain
/// bytes.
pub proof fn law_content_type_follows_the_name(stem: Seq<char>, kind: Seq<char>)
    requires
        kind.len() == 4,
    ensures
        content_type_of(stem + kind) == (if kind[0] == '.' && kind[1] == 'm' && ((kind[2] == '4'
            && kind[3] == 's') || (kind[2] == 'p' && kind[3] == '4')) {
            "video/mp4"@
        } else {
            "application/octet-stream"@
        }),
{
    reveal_strlit(".m4s");
    reveal_strlit(".mp4");
    let file = stem + kind;
    assert(file.skip(stem.len() as int) =~= kind);
    if kind[0] == '.' && kind[1] == 'm' {
        if kind[2] == '4' && kind[3] == 's' {
            assert(kind =~= ".m4s"@);
        } else if kind[2] == 'p' && kind[3] == '4' {
            assert(kind =~= ".mp4"@);
        }
    }
}

} // verus!

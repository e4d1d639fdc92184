//! HLS playlists: master and media playlist syntax, and URI resolution.

use crate::number;
use crate::number::{is_real_text, parse_u64};
use crate::text;
use crate::text::{before_char, lines_of, same_text, starts_with, strip_prefix, trim};
use vstd::prelude::*;
use vstd::string::*;

verus! {

/// One media segment listed in a media playlist.
#[derive(Debug, Clone)]
pub struct PlaylistSegment {
    pub seq: u64,
    pub uri: String,
    /// The duration in seconds, as the numeral that spells it.
    pub duration_secs: String,
    pub discontinuity: bool,
}

/// Parsed live media playlist snapshot.
#[derive(Debug, Clone)]
pub struct MediaPlaylist {
    pub media_sequence: u64,
    /// The target duration in seconds, as the numeral that spells it.
    pub target_duration: String,
    pub segments: Vec<PlaylistSegment>,
    pub end_list: bool,
}

/// What a [`PlaylistSegment`] says.
pub ghost struct SegmentView {
    pub seq: u64,
    pub uri: Seq<char>,
    pub duration_secs: Seq<char>,
    pub discontinuity: bool,
}

impl View for PlaylistSegment {
    type V = SegmentView;

    open spec fn view(&self) -> SegmentView {
        SegmentView {
            seq: self.seq,
            uri: self.uri@,
            duration_secs: self.duration_secs@,
            discontinuity: self.discontinuity,
        }
    }
}

/// What a list of segments says.
pub open spec fn segment_views(list: Seq<PlaylistSegment>) -> Seq<SegmentView> {
    list.map_values(|s: PlaylistSegment| s@)
}

/// What is known of a media playlist after some of its lines.
pub ghost struct PlaylistState {
    pub media_sequence: u64,
    pub target_duration: Seq<char>,
    pub segments: Seq<SegmentView>,
    pub end_list: bool,
    /// The duration that an `#EXTINF` gave the segment whose URI is still to come.
    pub pending_duration: Option<Seq<char>>,
    /// A discontinuity stands before the segment whose URI is still to come.
    pub pending_discontinuity: bool,
    /// The sequence number of the next segment.
    pub seq: u64,
}

/// What is known before the first line: sequence numbers from zero, six seconds to a segment.
pub open spec fn playlist_start() -> PlaylistState {
    PlaylistState {
        media_sequence: 0,
        target_duration: "6.0"@,
        segments: Seq::empty(),
        end_list: false,
        pending_duration: None,
        pending_discontinuity: false,
        seq: 0,
    }
}

/// `text` where it spells a real number, `otherwise` where it does not.
pub open spec fn real_or(text: Seq<char>, otherwise: Seq<char>) -> Seq<char> {
    if number::is_real(text) {
        text
    } else {
        otherwise
    }
}

/// `n + 1`, but for the largest `u64`.
pub open spec fn next_seq(n: u64) -> u64 {
    if n == u64::MAX {
        n
    } else {
        (n + 1) as u64
    }
}

/// What one trimmed line adds.
pub open spec fn playlist_line(st: PlaylistState, line: Seq<char>) -> PlaylistState {
    if line.len() == 0 {
        st
    } else if text::has_prefix(line, "#EXT-X-MEDIA-SEQUENCE:"@) {
        let text = text::trimmed(line.skip("#EXT-X-MEDIA-SEQUENCE:"@.len() as int));
        let n = match number::u64_of(text) {
            Some(n) => n,
            None => 0,
        };
        PlaylistState { media_sequence: n, seq: n, ..st }
    } else if text::has_prefix(line, "#EXT-X-TARGETDURATION:"@) {
        let text = text::trimmed(line.skip("#EXT-X-TARGETDURATION:"@.len() as int));
        PlaylistState { target_duration: real_or(text, "6.0"@), ..st }
    } else if line == "#EXT-X-ENDLIST"@ {
        PlaylistState { end_list: true, ..st }
    } else if line == "#EXT-X-DISCONTINUITY"@ {
        PlaylistState { pending_discontinuity: true, ..st }
    } else if text::has_prefix(line, "#EXTINF:"@) {
        let text = text::trimmed(text::text_before(line.skip("#EXTINF:"@.len() as int), ','));
        PlaylistState { pending_duration: Some(real_or(text, st.target_duration)), ..st }
    } else if line.first() == '#' {
        st
    } else {
        match st.pending_duration {
            None => st,
            Some(duration) => PlaylistState {
                segments: st.segments.push(
                    SegmentView {
                        seq: st.seq,
                        uri: line,
                        duration_secs: duration,
                        discontinuity: st.pending_discontinuity,
                    },
                ),
                pending_duration: None,
                pending_discontinuity: false,
                seq: next_seq(st.seq),
                ..st
            },
        }
    }
}

/// What is known after `lines`, from `st` on.
pub open spec fn playlist_lines(st: PlaylistState, lines: Seq<Seq<char>>) -> PlaylistState
    decreases lines.len(),
{
    if lines.len() == 0 {
        st
    } else {
        playlist_line(playlist_lines(st, lines.drop_last()), lines.last())
    }
}

/// What the text of a media playlist says.
pub open spec fn playlist_of(body: Seq<char>) -> PlaylistState {
    playlist_lines(playlist_start(), text::trimmed_lines(body))
}

impl MediaPlaylist {
    /// The playlist holds what `st` says.
    pub open spec fn says(&self, st: PlaylistState) -> bool {
        &&& self.media_sequence == st.media_sequence
        &&& self.target_duration@ == st.target_duration
        &&& segment_views(self.segments@) == st.segments
        &&& self.end_list == st.end_list
    }
}

struct PlaylistReader {
    playlist: MediaPlaylist,
    pending_duration: Option<String>,
    pending_discontinuity: bool,
    seq: u64,
}

impl View for PlaylistReader {
    type V = PlaylistState;

    closed spec fn view(&self) -> PlaylistState {
        PlaylistState {
            media_sequence: self.playlist.media_sequence,
            target_duration: self.playlist.target_duration@,
            segments: segment_views(self.playlist.segments@),
            end_list: self.playlist.end_list,
            pending_duration: match self.pending_duration {
                Some(d) => Some(d@),
                None => None,
            },
            pending_discontinuity: self.pending_discontinuity,
            seq: self.seq,
        }
    }
}

impl PlaylistReader {
    fn new() -> (reader: Self)
        ensures
            reader@ == playlist_start(),
    {
        let reader: PlaylistReader = PlaylistReader {
            playlist: MediaPlaylist {
                media_sequence: 0,
                target_duration: "6.0".to_owned(),
                segments: Vec::new(),
                end_list: false,
            },
            pending_duration: None,
            pending_discontinuity: false,
            seq: 0,
        };
        assert(segment_views(reader.playlist.segments@) =~= Seq::empty());
        reader
    }

    fn line(&mut self, line: &str)
        ensures
            final(self)@ == playlist_line(old(self)@, line@),
    {
        if line.is_empty() {
            return;
        }
        if let Some(rest) = strip_prefix(line, "#EXT-X-MEDIA-SEQUENCE:") {
            let n: u64 = match parse_u64(trim(rest)) {
                Some(n) => n,
                None => 0,
            };
            self.playlist.media_sequence = n;
            self.seq = n;
            return;
        }
        if let Some(rest) = strip_prefix(line, "#EXT-X-TARGETDURATION:") {
            let text: &str = trim(rest);
            self.playlist.target_duration = if is_real_text(text) {
                text.to_owned()
            } else {
                "6.0".to_owned()
            };
            return;
        }
        if same_text(line, "#EXT-X-ENDLIST") {
            self.playlist.end_list = true;
            return;
        }
        if same_text(line, "#EXT-X-DISCONTINUITY") {
            self.pending_discontinuity = true;
            return;
        }
        if let Some(rest) = strip_prefix(line, "#EXTINF:") {
            let text: &str = trim(before_char(rest, ','));
            self.pending_duration = Some(
                if is_real_text(text) {
                    text.to_owned()
                } else {
                    self.playlist.target_duration.clone()
                },
            );
            return;
        }
        if line.get_char(0) == '#' {
            return;
        }
        let pending: Option<String> = self.pending_duration.take();
        if let Some(duration) = pending {
            let segment: PlaylistSegment = PlaylistSegment {
                seq: self.seq,
                uri: line.to_owned(),
                duration_secs: duration,
                discontinuity: self.pending_discontinuity,
            };
            let ghost before = self.playlist.segments@;
            self.playlist.segments.push(segment);
            assert(segment_views(self.playlist.segments@) =~= segment_views(before).push(segment@));
            self.pending_discontinuity = false;
            self.seq = self.seq.saturating_add(1);
        }
    }
}

/// Parse an HLS media playlist (RFC 8216 subset for live TS).
pub fn parse_media_playlist(body: &str) -> (playlist: MediaPlaylist)
    ensures
        playlist.says(playlist_of(body@)),
{
    let lines: Vec<String> = lines_of(body);
    let ghost all = text::trimmed_lines(body@);
    let mut reader: PlaylistReader = PlaylistReader::new();
    let mut i: usize = 0;
    while i < lines.len()
        invariant
            i <= lines@.len(),
            all == text::texts(lines@),
            reader@ == playlist_lines(playlist_start(), all.take(i as int)),
        decreases lines@.len() - i,
    {
        reader.line(lines[i].as_str());
        assert(all.take(i + 1).drop_last() =~= all.take(i as int));
        i = i + 1;
    }
    assert(all.take(i as int) =~= all);
    reader.playlist
}

/// The line stands for the URI of something: it is not blank, a comment or a tag.
pub open spec fn is_uri_line(line: Seq<char>) -> bool {
    line.len() > 0 && line.first() != '#'
}

/// The line announces a variant stream.
pub open spec fn is_stream_inf(line: Seq<char>) -> bool {
    text::has_prefix(line, "#EXT-X-STREAM-INF:"@)
}

/// Line `i` is a URI, and the last tag or comment before it announced a variant stream.
pub open spec fn is_variant(lines: Seq<Seq<char>>, i: int) -> bool {
    &&& 0 <= i < lines.len()
    &&& is_uri_line(lines[i])
    &&& exists|j: int|
        0 <= j < i && is_stream_inf(#[trigger] lines[j]) && only_uris(lines, j + 1, i)
}

/// No tag or comment stands from line `a` up to line `b`.
pub open spec fn only_uris(lines: Seq<Seq<char>>, a: int, b: int) -> bool {
    forall|k: int| a <= k < b && lines[k].len() > 0 ==> (#[trigger] lines[k]).first() != '#'
}

/// The URI of the first variant stream that the lines of a master playlist list.
pub open spec fn first_variant(lines: Seq<Seq<char>>) -> Option<Seq<char>> {
    if exists|i: int| is_variant(lines, i) {
        let i = choose|i: int|
            is_variant(lines, i) && forall|h: int| 0 <= h < i ==> !is_variant(lines, h);
        Some(lines[i])
    } else {
        None
    }
}

proof fn lemma_first_variant(lines: Seq<Seq<char>>, i: int)
    requires
        is_variant(lines, i),
        forall|h: int| 0 <= h < i ==> !is_variant(lines, h),
    ensures
        first_variant(lines) == Some(lines[i]),
{
    let c = choose|c: int|
        is_variant(lines, c) && forall|h: int| 0 <= h < c ==> !is_variant(lines, h);
    assert(c == i) by {
        if c < i {
            assert(!is_variant(lines, c));
        } else if i < c {
            assert(!is_variant(lines, i));
        }
    }
}

/// No announcement stands open before line `i`: a tag or comment follows each of them.
spec fn none_open(lines: Seq<Seq<char>>, i: int) -> bool {
    forall|j: int|
        0 <= j < i && is_stream_inf(#[trigger] lines[j]) ==> !only_uris(lines, j + 1, i)
}

proof fn lemma_none_open(lines: Seq<Seq<char>>, i: int)
    requires
        0 <= i < lines.len(),
        !is_stream_inf(lines[i]),
        none_open(lines, i) || (lines[i].len() > 0 && lines[i].first() == '#'),
    ensures
        none_open(lines, i + 1),
{
    assert forall|j: int| 0 <= j < i + 1 && is_stream_inf(#[trigger] lines[j]) implies !only_uris(
        lines,
        j + 1,
        i + 1,
    ) by {
        assert(j < i);
        if none_open(lines, i) {
            assert(!only_uris(lines, j + 1, i));
        }
    }
}

/// If `body` is a master playlist, return the first media variant URL; else `None`.
pub fn first_variant_uri(body: &str) -> (uri: Option<String>)
    ensures
        option_text(uri) == first_variant(text::trimmed_lines(body@)),
{
    let lines: Vec<String> = lines_of(body);
    let ghost all = text::trimmed_lines(body@);
    let ghost mut announced: int = 0;
    let mut pending: bool = false;
    let mut i: usize = 0;
    proof {
        reveal_strlit("#EXT-X-STREAM-INF:");
    }
    while i < lines.len()
        invariant
            i <= lines@.len(),
            all == text::texts(lines@),
            all == text::trimmed_lines(body@),
            "#EXT-X-STREAM-INF:"@.len() > 0,
            "#EXT-X-STREAM-INF:"@.first() == '#',
            forall|h: int| 0 <= h < i ==> !is_variant(all, h),
            pending ==> 0 <= announced < i && is_stream_inf(all[announced]) && only_uris(
                all,
                announced + 1,
                i as int,
            ),
            !pending ==> none_open(all, i as int),
        decreases lines@.len() - i,
    {
        let line: &str = lines[i].as_str();
        assert(all[i as int] == line@);
        if !line.is_empty() {
            if starts_with(line, "#EXT-X-STREAM-INF:") {
                assert(line@.take("#EXT-X-STREAM-INF:"@.len() as int).first() == line@.first());
                pending = true;
                proof {
                    announced = i as int;
                }
            } else if line.get_char(0) != '#' {
                if pending {
                    proof {
                        assert(is_variant(all, i as int));
                        lemma_first_variant(all, i as int);
                    }
                    return Some(line.to_owned());
                }
            } else {
                pending = false;
            }
        }
        proof {
            if !pending {
                lemma_none_open(all, i as int);
            }
            assert(!is_variant(all, i as int));
        }
        i = i + 1;
    }
    assert(forall|h: int| !is_variant(all, h));
    None
}

/// Why a URL could not be read, as the `url` crate tells it.
#[verifier::external_type_specification]
#[verifier::external_body]
pub struct ExUrlParseError(url::ParseError);

/// The serialization of the absolute URL that `url::Url::parse` reads from a text, or `None`
/// where it refuses the text.
pub uninterp spec fn absolute_url(text: Seq<char>) -> Option<Seq<char>>;

/// The serialization of the URL that `url::Url::join` makes of a reference, seen from the
/// absolute URL that the first text spells, or `None` where either is refused.
pub uninterp spec fn joined_url(base: Seq<char>, reference: Seq<char>) -> Option<Seq<char>>;

/// Calls `url::Url::parse`. Trusted: parsing depends on the text alone, and [`absolute_url`]
/// names its outcome.
#[verifier::external_body]
fn parse_url(text: &str) -> (parsed: Result<String, url::ParseError>)
    ensures
        parsed is Ok == absolute_url(text@) is Some,
        parsed matches Ok(u) ==> absolute_url(text@) == Some(u@),
{
    Ok(String::from(url::Url::parse(text)?))
}

/// Calls `url::Url::join` on the URL that `base` spells. Trusted: joining depends on the two
/// texts alone, and [`joined_url`] names its outcome.
#[verifier::external_body]
fn join_url(base: &str, reference: &str) -> (joined: Result<String, url::ParseError>)
    ensures
        joined is Ok == joined_url(base@, reference@) is Some,
        joined matches Ok(u) ==> joined_url(base@, reference@) == Some(u@),
{
    Ok(String::from(url::Url::parse(base)?.join(reference)?))
}

/// Why a URI could not be resolved.
#[derive(Debug, Clone, Copy, PartialEq, Eq, Structural)]
pub enum ResolveError {
    /// The playlist URL is no absolute URL.
    Playlist,
    /// The URI does not combine with the playlist URL.
    Join,
}

/// The text is an absolute `http` or `https` URL by its scheme.
pub open spec fn is_http(uri: Seq<char>) -> bool {
    text::has_prefix(uri, "http://"@) || text::has_prefix(uri, "https://"@)
}

/// True for a text that begins with `http://` or `https://`.
pub fn is_http_url(uri: &str) -> (yes: bool)
    ensures
        yes == is_http(uri@),
{
    starts_with(uri, "http://") || starts_with(uri, "https://")
}

/// What a URI of a playlist resolves to, given whether the playlist URL is an absolute URL
/// and what joining the URI to it made.
pub open spec fn resolved(uri: Seq<char>, absolute: bool, joined: Option<Seq<char>>) -> Result<
    Seq<char>,
    ResolveError,
> {
    if is_http(uri) {
        Ok(uri)
    } else if !absolute {
        Err(ResolveError::Playlist)
    } else {
        match joined {
            Some(url) => Ok(url),
            None => Err(ResolveError::Join),
        }
    }
}

/// What `uri` resolves to in the playlist at `playlist_url`.
pub open spec fn resolved_in(playlist_url: Seq<char>, uri: Seq<char>) -> Result<
    Seq<char>,
    ResolveError,
> {
    resolved(uri, absolute_url(playlist_url) is Some, joined_url(playlist_url, uri))
}

/// The text of an optional string.
pub open spec fn option_text(t: Option<String>) -> Option<Seq<char>> {
    match t {
        Some(t) => Some(t@),
        None => None,
    }
}

/// The view of a resolution.
pub open spec fn resolution(r: Result<String, ResolveError>) -> Result<Seq<char>, ResolveError> {
    match r {
        Ok(url) => Ok(url@),
        Err(e) => Err(e),
    }
}

/// Resolve a possibly-relative URI, given whether the playlist URL is an absolute URL and
/// what joining the URI to it made.
pub fn resolve_joined(uri: &str, absolute: bool, joined: Option<String>) -> (url: Result<
    String,
    ResolveError,
>)
    ensures
        resolution(url) == resolved(uri@, absolute, option_text(joined)),
{
    if is_http_url(uri) {
        return Ok(uri.to_owned());
    }
    if !absolute {
        return Err(ResolveError::Playlist);
    }
    match joined {
        Some(url) => Ok(url),
        None => Err(ResolveError::Join),
    }
}

/// Resolve a possibly-relative URI against the playlist URL.
pub fn resolve_uri(playlist_url: &str, uri: &str) -> (url: Result<String, ResolveError>)
    ensures
        resolution(url) == resolved_in(playlist_url@, uri@),
{
    let absolute: bool = parse_url(playlist_url).is_ok();
    let joined: Option<String> = match join_url(playlist_url, uri) {
        Ok(url) => Some(url),
        Err(_) => None,
    };
    resolve_joined(uri, absolute, joined)
}

/// Where the media playlist of a source is.
#[derive(Debug, Clone)]
pub enum PlaylistLocation {
    /// The text at hand is the media playlist.
    Here,
    /// The text at hand is a master playlist, and this is the URL of its first variant.
    At(String),
}

/// Find the media playlist behind the text fetched from `url`: one level of master is followed.
pub fn resolve_media_playlist_url(url: &str, body: &str) -> (location: Result<
    PlaylistLocation,
    ResolveError,
>)
    ensures
        match first_variant(text::trimmed_lines(body@)) {
            None => location matches Ok(PlaylistLocation::Here),
            Some(variant) => match resolved_in(url@, variant) {
                Ok(media) => location matches Ok(PlaylistLocation::At(u)) && u@ == media,
                Err(e) => location == Err::<PlaylistLocation, ResolveError>(e),
            },
        },
{
    match first_variant_uri(body) {
        None => Ok(PlaylistLocation::Here),
        Some(variant) => match resolve_uri(url, variant.as_str()) {
            Ok(media) => Ok(PlaylistLocation::At(media)),
            Err(e) => Err(e),
        },
    }
}

/// A URI with an `http` or `https` scheme resolves to itself, whatever the playlist URL.
pub proof fn law_http_uri_is_kept(playlist_url: Seq<char>, uri: Seq<char>)
    requires
        is_http(uri),
    ensures
        resolved_in(playlist_url, uri) == Ok::<Seq<char>, ResolveError>(uri),
{
}

/// A line that says nothing: blank, or a comment or tag that the reader does not know.
pub open spec fn is_ignored(line: Seq<char>) -> bool {
    line.len() > 0 ==> {
        &&& line.first() == '#'
        &&& !text::has_prefix(line, "#EXT-X-MEDIA-SEQUENCE:"@)
        &&& !text::has_prefix(line, "#EXT-X-TARGETDURATION:"@)
        &&& line != "#EXT-X-ENDLIST"@
        &&& line != "#EXT-X-DISCONTINUITY"@
        &&& !text::has_prefix(line, "#EXTINF:"@)
    }
}

/// Reading lines in two parts is reading them in one go.
pub proof fn lemma_playlist_lines_concat(
    st: PlaylistState,
    a: Seq<Seq<char>>,
    b: Seq<Seq<char>>,
)
    ensures
        playlist_lines(st, a + b) == playlist_lines(playlist_lines(st, a), b),
    decreases b.len(),
{
    if b.len() == 0 {
        assert(a + b =~= a);
    } else {
        lemma_playlist_lines_concat(st, a, b.drop_last());
        assert((a + b).drop_last() =~= a + b.drop_last());
        assert((a + b).last() == b.last());
    }
}

/// A blank line, a comment or an unknown tag may stand anywhere in a media playlist: the
/// playlist says the same without it.
pub proof fn law_ignored_line_changes_nothing(
    before: Seq<Seq<char>>,
    line: Seq<char>,
    after: Seq<Seq<char>>,
)
    requires
        is_ignored(line),
    ensures
        playlist_lines(playlist_start(), before.push(line) + after) == playlist_lines(
            playlist_start(),
            before + after,
        ),
{
    lemma_playlist_lines_concat(playlist_start(), before.push(line), after);
    lemma_playlist_lines_concat(playlist_start(), before, after);
    assert(before.push(line).drop_last() =~= before);
    assert(playlist_line(playlist_lines(playlist_start(), before), line) == playlist_lines(
        playlist_start(),
        before,
    ));
}

/// `n + k`, held at the largest `u64`.
pub open spec fn seq_after(n: u64, k: int) -> u64 {
    if n + k <= u64::MAX {
        (n + k) as u64
    } else {
        u64::MAX
    }
}

/// Without a new `#EXT-X-MEDIA-SEQUENCE` among the lines, the segments that they list are
/// numbered one after the other.
pub proof fn law_segments_are_numbered_in_order(st: PlaylistState, lines: Seq<Seq<char>>)
    requires
        forall|i: int|
            0 <= i < lines.len() ==> !text::has_prefix(
                #[trigger] lines[i],
                "#EXT-X-MEDIA-SEQUENCE:"@,
            ),
    ensures
        ({
            let end = playlist_lines(st, lines);
            let old_len = st.segments.len();
            &&& end.segments.len() >= old_len
            &&& end.segments.take(old_len as int) == st.segments
            &&& end.media_sequence == st.media_sequence
            &&& end.seq == seq_after(st.seq, end.segments.len() - old_len)
            &&& forall|k: int|
                old_len <= k < end.segments.len() ==> (#[trigger] end.segments[k]).seq == seq_after(
                    st.seq,
                    k - old_len,
                )
        }),
    decreases lines.len(),
{
    if lines.len() == 0 {
        assert(st.segments.take(st.segments.len() as int) =~= st.segments);
    } else {
        law_segments_are_numbered_in_order(st, lines.drop_last());
        let mid = playlist_lines(st, lines.drop_last());
        let end = playlist_lines(st, lines);
        assert(end == playlist_line(mid, lines.last()));
        assert(end.segments.take(st.segments.len() as int) =~= mid.segments.take(
            st.segments.len() as int,
        ));
    }
}

/// The line gives the duration of a segment.
pub open spec fn is_extinf(line: Seq<char>) -> bool {
    text::has_prefix(line, "#EXTINF:"@)
}

/// The duration that line `j` gives: its own number, or the target duration that stands when it
/// comes.
pub open spec fn extinf_duration(lines: Seq<Seq<char>>, j: int) -> Seq<char> {
    real_or(
        text::trimmed(text::text_before(lines[j].skip("#EXTINF:"@.len() as int), ',')),
        playlist_lines(playlist_start(), lines.take(j)).target_duration,
    )
}

/// Line `j` is the last `#EXTINF` before line `i`, and no URI stands between them.
pub open spec fn is_announced_by(lines: Seq<Seq<char>>, i: int, j: int) -> bool {
    &&& 0 <= j < i
    &&& is_extinf(lines[j])
    &&& forall|k: int|
        j < k < i ==> !is_uri_line(#[trigger] lines[k]) && !is_extinf(lines[k])
}

/// Line `i` is a URI with an `#EXTINF` since the URI before.
pub open spec fn is_segment_line(lines: Seq<Seq<char>>, i: int) -> bool {
    is_uri_line(lines[i]) && exists|j: int| is_announced_by(lines, i, j)
}

/// A discontinuity stands before line `i`, and no segment between them.
pub open spec fn is_discontinuous(lines: Seq<Seq<char>>, i: int) -> bool {
    exists|j: int|
        0 <= j < i && #[trigger] lines[j] == "#EXT-X-DISCONTINUITY"@ && no_segment(lines, j + 1, i)
}

/// No segment stands from line `a` up to line `b`.
pub open spec fn no_segment(lines: Seq<Seq<char>>, a: int, b: int) -> bool {
    forall|k: int| a <= k < b ==> !#[trigger] is_segment_line(lines, k)
}

/// The lines among the first `n` that stand for a segment, in their order.
pub open spec fn segment_lines(lines: Seq<Seq<char>>, n: int) -> Seq<int>
    decreases n,
{
    if n <= 0 {
        Seq::empty()
    } else if is_segment_line(lines, n - 1) {
        segment_lines(lines, n - 1).push(n - 1)
    } else {
        segment_lines(lines, n - 1)
    }
}

/// The segment that line `i` stands for, but for its number.
pub open spec fn is_listed(lines: Seq<Seq<char>>, i: int, segment: SegmentView) -> bool {
    &&& segment.uri == lines[i]
    &&& segment.discontinuity == is_discontinuous(lines, i)
    &&& exists|j: int| #[trigger]
        is_announced_by(lines, i, j) && segment.duration_secs == extinf_duration(lines, j)
}

/// What is known after the first `n` lines.
spec fn is_read(lines: Seq<Seq<char>>, n: int, st: PlaylistState) -> bool {
    &&& st.segments.len() == segment_lines(lines, n).len()
    &&& forall|k: int|
        0 <= k < st.segments.len() ==> is_listed(
            lines,
            segment_lines(lines, n)[k],
            #[trigger] st.segments[k],
        )
    &&& match st.pending_duration {
        Some(d) => exists|j: int| #[trigger]
            is_announced_by(lines, n, j) && d == extinf_duration(lines, j),
        None => forall|j: int| !#[trigger] is_announced_by(lines, n, j),
    }
    &&& st.pending_discontinuity == is_discontinuous(lines, n)
}

proof fn lemma_tags_differ(line: Seq<char>)
    ensures
        is_extinf(line) || text::has_prefix(line, "#EXT-X-MEDIA-SEQUENCE:"@) || text::has_prefix(
            line,
            "#EXT-X-TARGETDURATION:"@,
        ) || line == "#EXT-X-ENDLIST"@ || line == "#EXT-X-DISCONTINUITY"@ ==> line.len() > 0
            && line.first() == '#',
        is_extinf(line) ==> !text::has_prefix(line, "#EXT-X-MEDIA-SEQUENCE:"@)
            && !text::has_prefix(line, "#EXT-X-TARGETDURATION:"@) && line != "#EXT-X-ENDLIST"@
            && line != "#EXT-X-DISCONTINUITY"@,
        line == "#EXT-X-DISCONTINUITY"@ ==> !text::has_prefix(line, "#EXT-X-MEDIA-SEQUENCE:"@)
            && !text::has_prefix(line, "#EXT-X-TARGETDURATION:"@) && line != "#EXT-X-ENDLIST"@,
{
    reveal_strlit("#EXTINF:");
    reveal_strlit("#EXT-X-MEDIA-SEQUENCE:");
    reveal_strlit("#EXT-X-TARGETDURATION:");
    reveal_strlit("#EXT-X-ENDLIST");
    reveal_strlit("#EXT-X-DISCONTINUITY");
    if is_extinf(line) {
        assert(line.take("#EXTINF:"@.len() as int)[4] == line[4]);
        assert(line.take("#EXTINF:"@.len() as int)[0] == line[0]);
    }
    if text::has_prefix(line, "#EXT-X-MEDIA-SEQUENCE:"@) {
        assert(line.take("#EXT-X-MEDIA-SEQUENCE:"@.len() as int)[0] == line[0]);
        assert(line.take("#EXT-X-MEDIA-SEQUENCE:"@.len() as int)[4] == line[4]);
        assert(line.take("#EXT-X-MEDIA-SEQUENCE:"@.len() as int)[7] == line[7]);
    }
    if text::has_prefix(line, "#EXT-X-TARGETDURATION:"@) {
        assert(line.take("#EXT-X-TARGETDURATION:"@.len() as int)[0] == line[0]);
        assert(line.take("#EXT-X-TARGETDURATION:"@.len() as int)[4] == line[4]);
        assert(line.take("#EXT-X-TARGETDURATION:"@.len() as int)[7] == line[7]);
    }
}

proof fn lemma_discontinuity_stays(lines: Seq<Seq<char>>, i: int)
    requires
        0 <= i < lines.len(),
        lines[i] != "#EXT-X-DISCONTINUITY"@,
        !is_segment_line(lines, i),
    ensures
        is_discontinuous(lines, i + 1) == is_discontinuous(lines, i),
{
    if is_discontinuous(lines, i) {
        let j = choose|j: int|
            0 <= j < i && #[trigger] lines[j] == "#EXT-X-DISCONTINUITY"@ && no_segment(
                lines,
                j + 1,
                i,
            );
        assert(no_segment(lines, j + 1, i + 1));
    }
    if is_discontinuous(lines, i + 1) {
        let j = choose|j: int|
            0 <= j < i + 1 && #[trigger] lines[j] == "#EXT-X-DISCONTINUITY"@ && no_segment(
                lines,
                j + 1,
                i + 1,
            );
        assert(no_segment(lines, j + 1, i));
    }
}

proof fn lemma_announcement_stays(lines: Seq<Seq<char>>, i: int)
    requires
        0 <= i < lines.len(),
        !is_uri_line(lines[i]),
        !is_extinf(lines[i]),
    ensures
        forall|j: int| #[trigger]
            is_announced_by(lines, i + 1, j) <==> is_announced_by(lines, i, j),
{
}

proof fn lemma_line_is_read(lines: Seq<Seq<char>>, i: int, st: PlaylistState)
    requires
        0 <= i < lines.len(),
        is_read(lines, i, st),
        st == playlist_lines(playlist_start(), lines.take(i)),
    ensures
        is_read(lines, i + 1, playlist_line(st, lines[i])),
{
    let line = lines[i];
    let after = playlist_line(st, line);
    lemma_tags_differ(line);
    if is_uri_line(line) {
        if st.pending_duration is Some {
            let j = choose|j: int| #[trigger]
                is_announced_by(lines, i, j) && st.pending_duration == Some(
                    extinf_duration(lines, j),
                );
            assert(is_segment_line(lines, i));
            assert(is_listed(lines, i, after.segments.last()));
            assert(after.segments.drop_last() =~= st.segments);
            assert(!is_discontinuous(lines, i + 1)) by {
                assert forall|j: int| 0 <= j < i + 1 && #[trigger] lines[j]
                    == "#EXT-X-DISCONTINUITY"@ implies !no_segment(lines, j + 1, i + 1) by {
                    assert(j < i);
                }
            }
        } else {
            assert(!is_segment_line(lines, i));
            lemma_discontinuity_stays(lines, i);
        }
        assert(forall|j: int| !#[trigger] is_announced_by(lines, i + 1, j));
    } else {
        assert(!is_segment_line(lines, i));
        if line == "#EXT-X-DISCONTINUITY"@ {
            assert(no_segment(lines, i + 1, i + 1));
        } else {
            lemma_discontinuity_stays(lines, i);
        }
        if is_extinf(line) {
            assert(is_announced_by(lines, i + 1, i));
        } else {
            lemma_announcement_stays(lines, i);
            if st.pending_duration is Some {
                let j = choose|j: int| #[trigger]
                    is_announced_by(lines, i, j) && st.pending_duration == Some(
                        extinf_duration(lines, j),
                    );
                assert(is_announced_by(lines, i + 1, j));
            }
            assert(after.pending_duration == st.pending_duration);
        }
        assert(after.segments == st.segments);
        assert(after.pending_discontinuity == is_discontinuous(lines, i + 1));
    }
}

proof fn lemma_lines_are_read(lines: Seq<Seq<char>>, n: int)
    requires
        0 <= n <= lines.len(),
    ensures
        is_read(lines, n, playlist_lines(playlist_start(), lines.take(n))),
    decreases n,
{
    if n > 0 {
        lemma_lines_are_read(lines, n - 1);
        assert(lines.take(n).drop_last() =~= lines.take(n - 1));
        lemma_line_is_read(
            lines,
            n - 1,
            playlist_lines(playlist_start(), lines.take(n - 1)),
        );
    }
}

/// The segments of a media playlist are exactly the URIs that have an `#EXTINF` since the URI
/// before, in their order. A segment has the duration of the last such `#EXTINF`, and is flagged
/// where a discontinuity lies behind the segment before.
pub proof fn law_segments_are_the_announced_uris(body: Seq<char>)
    ensures
        ({
            let lines = text::trimmed_lines(body);
            let at = segment_lines(lines, lines.len() as int);
            let segments = playlist_of(body).segments;
            &&& segments.len() == at.len()
            &&& forall|k: int|
                0 <= k < segments.len() ==> is_listed(lines, at[k], #[trigger] segments[k])
        }),
{
    let lines = text::trimmed_lines(body);
    assert(lines.take(lines.len() as int) =~= lines);
    lemma_lines_are_read(lines, lines.len() as int);
}

/// The lines that stand for a segment are listed in ascending order, each once, and no other is.
pub proof fn law_segment_lines_are_complete(lines: Seq<Seq<char>>, n: int, i: int)
    requires
        0 <= n,
    ensures
        segment_lines(lines, n).contains(i) <==> 0 <= i < n && is_segment_line(lines, i),
        forall|j: int, k: int|
            0 <= j < k < segment_lines(lines, n).len() ==> #[trigger] segment_lines(lines, n)[j]
                < #[trigger] segment_lines(lines, n)[k],
    decreases n,
{
    if n > 0 {
        law_segment_lines_are_complete(lines, n - 1, i);
        let before = segment_lines(lines, n - 1);
        if is_segment_line(lines, n - 1) {
            let after = before.push(n - 1);
            assert(after.last() == n - 1);
            if before.contains(i) {
                let k = choose|k: int| 0 <= k < before.len() && before[k] == i;
                assert(after[k] == i);
            }
            assert forall|j: int, k: int| 0 <= j < k < after.len() implies #[trigger] after[j]
                < #[trigger] after[k] by {
                if k == before.len() {
                    law_segment_lines_are_complete(lines, n - 1, before[j]);
                    assert(before.contains(before[j]));
                }
            }
        }
    }
}

/// Every duration in the state spells a real number.
pub open spec fn durations_are_real(st: PlaylistState) -> bool {
    &&& number::is_real(st.target_duration)
    &&& st.pending_duration matches Some(d) ==> number::is_real(d)
    &&& forall|k: int|
        0 <= k < st.segments.len() ==> number::is_real((#[trigger] st.segments[k]).duration_secs)
}

proof fn lemma_six_is_real()
    ensures
        number::is_real("6.0"@),
{
    reveal_strlit("6.0");
    let s = "6.0"@;
    assert(number::without_sign(s) =~= s);
    assert(s[1] == '.');
    let m = s.take(3);
    assert(m =~= s);
    assert(number::all_digits(m.take(1)));
    assert(number::all_digits(m.skip(2)));
    assert(number::is_mantissa(m));
    assert(number::is_exponent(s.skip(3)));
    assert(number::is_decimal_number(s));
}

proof fn lemma_durations_are_real(lines: Seq<Seq<char>>)
    ensures
        durations_are_real(playlist_lines(playlist_start(), lines)),
    decreases lines.len(),
{
    lemma_six_is_real();
    if lines.len() > 0 {
        lemma_durations_are_real(lines.drop_last());
    }
}

/// Every duration that a media playlist yields spells a real number, whatever the text.
pub proof fn law_durations_are_real(body: Seq<char>)
    ensures
        durations_are_real(playlist_of(body)),
{
    lemma_durations_are_real(text::trimmed_lines(body));
}

/// The line begins with this tag.
pub open spec fn is_tagged(line: Seq<char>, tag: Seq<char>) -> bool {
    line.len() >= tag.len() && forall|i: int| 0 <= i < tag.len() ==> #[trigger] line[i] == tag[i]
}

/// No line from `a` up to `b` begins with this tag.
pub open spec fn none_tagged(lines: Seq<Seq<char>>, tag: Seq<char>, a: int, b: int) -> bool {
    forall|i: int| a <= i < b ==> !is_tagged(#[trigger] lines[i], tag)
}

proof fn lemma_tagged(line: Seq<char>, tag: Seq<char>)
    ensures
        is_tagged(line, tag) <==> text::has_prefix(line, tag),
{
    if is_tagged(line, tag) {
        assert(line.take(tag.len() as int) =~= tag);
    }
    if text::has_prefix(line, tag) {
        assert forall|i: int| 0 <= i < tag.len() implies #[trigger] line[i] == tag[i] by {
            assert(line.take(tag.len() as int)[i] == line[i]);
        }
    }
}

proof fn lemma_sequence_line(st: PlaylistState, line: Seq<char>)
    requires
        is_tagged(line, "#EXT-X-MEDIA-SEQUENCE:"@),
    ensures
        ({
            let after = playlist_line(st, line);
            let read = number::u64_of(
                text::trimmed(line.skip("#EXT-X-MEDIA-SEQUENCE:"@.len() as int)),
            );
            &&& after.segments == st.segments
            &&& read matches Some(n) ==> after.media_sequence == n && after.seq == n
            &&& read is None ==> after.media_sequence == 0 && after.seq == 0
        }),
{
    reveal_strlit("#EXT-X-MEDIA-SEQUENCE:");
    lemma_tagged(line, "#EXT-X-MEDIA-SEQUENCE:"@);
}

/// Segments are numbered from the number that the playlist gives. Where line `i` is the last that
/// begins with `#EXT-X-MEDIA-SEQUENCE:`, and what follows is the numeral of `n`, the playlist begins
/// with number `n`, and the segments behind that line have the numbers from `n` on, one after the
/// other, up to the largest number.
pub proof fn law_segments_are_numbered_from_the_media_sequence(body: Seq<char>, i: int, n: u64)
    requires
        ({
            let lines = text::trimmed_lines(body);
            let tag = "#EXT-X-MEDIA-SEQUENCE:"@;
            &&& 0 <= i < lines.len()
            &&& is_tagged(lines[i], tag)
            &&& none_tagged(lines, tag, i + 1, lines.len() as int)
            &&& text::trimmed(lines[i].skip(tag.len() as int)) == number::decimal(n as nat)
        }),
    ensures
        ({
            let lines = text::trimmed_lines(body);
            let list = playlist_of(body);
            let before = segment_lines(lines, i).len();
            &&& list.media_sequence == n
            &&& before <= list.segments.len()
            &&& forall|k: int|
                before <= k < list.segments.len() ==> {
                    let expected = n + k - before;
                    (#[trigger] list.segments[k]).seq == (if expected <= u64::MAX {
                        expected
                    } else {
                        u64::MAX as int
                    })
                }
        }),
{
    let lines = text::trimmed_lines(body);
    let mid = playlist_lines(playlist_start(), lines.take(i));
    let st = playlist_line(mid, lines[i]);
    let rest = lines.skip(i + 1);
    lemma_sequence_line(mid, lines[i]);
    number::law_decimal_round_trip(n);
    lemma_lines_are_read(lines, i);
    assert(lines.take(i + 1).drop_last() =~= lines.take(i));
    assert(lines.take(i + 1).last() == lines[i]);
    assert(st == playlist_lines(playlist_start(), lines.take(i + 1)));
    assert(lines =~= lines.take(i + 1) + rest);
    lemma_playlist_lines_concat(playlist_start(), lines.take(i + 1), rest);
    assert forall|j: int| 0 <= j < rest.len() implies !text::has_prefix(
        #[trigger] rest[j],
        "#EXT-X-MEDIA-SEQUENCE:"@,
    ) by {
        assert(rest[j] == lines[i + 1 + j]);
        lemma_tagged(rest[j], "#EXT-X-MEDIA-SEQUENCE:"@);
    }
    law_segments_are_numbered_in_order(st, rest);
}

/// Without a line that begins with `#EXT-X-MEDIA-SEQUENCE:` segments are numbered from zero.
pub proof fn law_segments_are_numbered_from_zero_by_default(body: Seq<char>, k: int)
    requires
        none_tagged(
            text::trimmed_lines(body),
            "#EXT-X-MEDIA-SEQUENCE:"@,
            0,
            text::trimmed_lines(body).len() as int,
        ),
    ensures
        playlist_of(body).media_sequence == 0,
        0 <= k < playlist_of(body).segments.len() && k <= u64::MAX ==> playlist_of(
            body,
        ).segments[k].seq == k,
{
    let lines = text::trimmed_lines(body);
    assert forall|j: int| 0 <= j < lines.len() implies !text::has_prefix(
        #[trigger] lines[j],
        "#EXT-X-MEDIA-SEQUENCE:"@,
    ) by {
        lemma_tagged(lines[j], "#EXT-X-MEDIA-SEQUENCE:"@);
    }
    law_segments_are_numbered_in_order(playlist_start(), lines);
}

proof fn lemma_target_kept(st: PlaylistState, line: Seq<char>)
    ensures
        !is_tagged(line, "#EXT-X-TARGETDURATION:"@) ==> playlist_line(st, line).target_duration
            == st.target_duration,
        is_tagged(line, "#EXT-X-TARGETDURATION:"@) ==> ({
            let given = text::trimmed(line.skip("#EXT-X-TARGETDURATION:"@.len() as int));
            &&& number::is_real(given) ==> playlist_line(st, line).target_duration == given
            &&& !number::is_real(given) ==> playlist_line(st, line).target_duration == "6.0"@
        }),
        line != "#EXT-X-ENDLIST"@ ==> playlist_line(st, line).end_list == st.end_list,
        line == "#EXT-X-ENDLIST"@ ==> playlist_line(st, line).end_list,
{
    lemma_tagged(line, "#EXT-X-TARGETDURATION:"@);
    lemma_tagged(line, "#EXT-X-MEDIA-SEQUENCE:"@);
    reveal_strlit("#EXT-X-MEDIA-SEQUENCE:");
    reveal_strlit("#EXT-X-TARGETDURATION:");
    reveal_strlit("#EXT-X-ENDLIST");
    if is_tagged(line, "#EXT-X-TARGETDURATION:"@) {
        assert(line[7] == "#EXT-X-TARGETDURATION:"@[7]);
        if is_tagged(line, "#EXT-X-MEDIA-SEQUENCE:"@) {
            assert(line[7] == "#EXT-X-MEDIA-SEQUENCE:"@[7]);
        }
    }
    if line == "#EXT-X-ENDLIST"@ {
        assert(line[7] == 'E');
        if is_tagged(line, "#EXT-X-MEDIA-SEQUENCE:"@) {
            assert(line[7] == "#EXT-X-MEDIA-SEQUENCE:"@[7]);
        }
        if is_tagged(line, "#EXT-X-TARGETDURATION:"@) {
            assert(line[7] == "#EXT-X-TARGETDURATION:"@[7]);
        }
    }
}

/// The target duration after the first `n` lines: the number on the last line that begins with
/// `#EXT-X-TARGETDURATION:`, and six seconds without such a line or number.
pub open spec fn target_after(lines: Seq<Seq<char>>, n: int) -> Seq<char>
    decreases n,
{
    if n <= 0 {
        "6.0"@
    } else if is_tagged(lines[n - 1], "#EXT-X-TARGETDURATION:"@) {
        let given = text::trimmed(lines[n - 1].skip("#EXT-X-TARGETDURATION:"@.len() as int));
        if number::is_real(given) {
            given
        } else {
            "6.0"@
        }
    } else {
        target_after(lines, n - 1)
    }
}

proof fn lemma_target_after(lines: Seq<Seq<char>>, n: int)
    requires
        0 <= n <= lines.len(),
    ensures
        playlist_lines(playlist_start(), lines.take(n)).target_duration == target_after(lines, n),
        playlist_lines(playlist_start(), lines.take(n)).end_list <==> exists|i: int|
            0 <= i < n && #[trigger] lines[i] == "#EXT-X-ENDLIST"@,
    decreases n,
{
    if n > 0 {
        lemma_target_after(lines, n - 1);
        assert(lines.take(n).drop_last() =~= lines.take(n - 1));
        assert(lines.take(n).last() == lines[n - 1]);
        lemma_target_kept(playlist_lines(playlist_start(), lines.take(n - 1)), lines[n - 1]);
        let before = exists|i: int| 0 <= i < n - 1 && #[trigger] lines[i] == "#EXT-X-ENDLIST"@;
        if before {
            let i = choose|i: int| 0 <= i < n - 1 && #[trigger] lines[i] == "#EXT-X-ENDLIST"@;
            assert(0 <= i < n);
        }
    }
}

/// The target duration is the one that the playlist gives last, in its own words. A playlist ends
/// where one of its lines says so.
pub proof fn law_target_duration_and_end_are_as_given(body: Seq<char>)
    ensures
        ({
            let lines = text::trimmed_lines(body);
            let list = playlist_of(body);
            &&& list.target_duration == target_after(lines, lines.len() as int)
            &&& list.end_list <==> exists|i: int|
                0 <= i < lines.len() && #[trigger] lines[i] == "#EXT-X-ENDLIST"@
        }),
{
    let lines = text::trimmed_lines(body);
    assert(lines.take(lines.len() as int) =~= lines);
    lemma_target_after(lines, lines.len() as int);
}

/// A segment lasts as long as its own `#EXTINF:` says, in its words up to the comma, and where these
/// are no number as long as the target duration that stands there.
pub proof fn law_segment_lasts_as_its_line_says(body: Seq<char>, k: int, j: int)
    requires
        ({
            let lines = text::trimmed_lines(body);
            let at = segment_lines(lines, lines.len() as int);
            0 <= k < at.len() && is_announced_by(lines, at[k], j)
        }),
    ensures
        ({
            let lines = text::trimmed_lines(body);
            let given = text::trimmed(
                text::text_before(lines[j].skip("#EXTINF:"@.len() as int), ','),
            );
            let segment = playlist_of(body).segments[k];
            &&& k < playlist_of(body).segments.len()
            &&& number::is_real(given) ==> segment.duration_secs == given
            &&& !number::is_real(given) ==> segment.duration_secs == target_after(lines, j)
        }),
{
    let lines = text::trimmed_lines(body);
    let at = segment_lines(lines, lines.len() as int);
    law_segments_are_the_announced_uris(body);
    law_segment_lines_are_complete(lines, lines.len() as int, at[k]);
    assert(at.contains(at[k]));
    let segment = playlist_of(body).segments[k];
    assert(is_listed(lines, at[k], segment));
    let own = choose|h: int| #[trigger]
        is_announced_by(lines, at[k], h) && segment.duration_secs == extinf_duration(lines, h);
    if own < j {
        assert(!is_extinf(lines[j]));
    } else if j < own {
        assert(!is_extinf(lines[own]));
    }
    lemma_target_after(lines, j);
}

/// The variant that is followed is the first URI behind the first announcement. A text without an
/// announcement is no master playlist.
pub proof fn law_first_variant_is_followed(lines: Seq<Seq<char>>, j: int, i: int)
    requires
        0 <= j < i < lines.len(),
        is_tagged(lines[j], "#EXT-X-STREAM-INF:"@),
        none_tagged(lines, "#EXT-X-STREAM-INF:"@, 0, j),
        forall|k: int| j < k < i ==> (#[trigger] lines[k]).len() == 0,
        lines[i].len() > 0,
        lines[i][0] != '#',
    ensures
        first_variant(lines) == Some(lines[i]),
{
    lemma_tagged(lines[j], "#EXT-X-STREAM-INF:"@);
    assert(only_uris(lines, j + 1, i));
    assert(is_stream_inf(lines[j]));
    assert(is_variant(lines, i));
    reveal_strlit("#EXT-X-STREAM-INF:");
    assert(lines[j][0] == "#EXT-X-STREAM-INF:"@[0]);
    assert forall|h: int| 0 <= h < i implies !is_variant(lines, h) by {
        if is_variant(lines, h) {
            let g = choose|g: int|
                0 <= g < h && is_stream_inf(#[trigger] lines[g]) && only_uris(lines, g + 1, h);
            lemma_tagged(lines[g], "#EXT-X-STREAM-INF:"@);
            if h <= j {
                assert(is_tagged(lines[g], "#EXT-X-STREAM-INF:"@));
            } else {
                assert(lines[h].len() == 0);
            }
        }
    }
    lemma_first_variant(lines, i);
}

/// Without an announcement there is no variant, and what is followed is always a URI of the text.
pub proof fn law_media_playlist_has_no_variant(lines: Seq<Seq<char>>)
    ensures
        none_tagged(lines, "#EXT-X-STREAM-INF:"@, 0, lines.len() as int) ==> first_variant(
            lines,
        ) is None,
        first_variant(lines) matches Some(uri) ==> lines.contains(uri) && uri.len() > 0 && uri[0]
            != '#',
{
    if exists|i: int| is_variant(lines, i) {
        let i = choose|i: int| is_variant(lines, i);
        let g = choose|g: int|
            0 <= g < i && is_stream_inf(#[trigger] lines[g]) && only_uris(lines, g + 1, i);
        lemma_tagged(lines[g], "#EXT-X-STREAM-INF:"@);
        assert(is_tagged(lines[g], "#EXT-X-STREAM-INF:"@));
        lemma_first_exists(lines, i);
        let c = choose|c: int|
            is_variant(lines, c) && forall|h: int| 0 <= h < c ==> !is_variant(lines, h);
        assert(lines.contains(lines[c]));
    }
}

proof fn lemma_first_exists(lines: Seq<Seq<char>>, i: int)
    requires
        is_variant(lines, i),
    ensures
        exists|c: int| is_variant(lines, c) && forall|h: int| 0 <= h < c ==> !is_variant(lines, h),
    decreases i,
{
    if exists|h: int| 0 <= h < i && is_variant(lines, h) {
        let h = choose|h: int| 0 <= h < i && is_variant(lines, h);
        lemma_first_exists(lines, h);
    }
}

/// A URI with a scheme of its own is kept as it is. Any other becomes what joining it to the URL of
/// the playlist makes; where that URL is none, and where they do not combine, the error says which.
pub proof fn law_uris_are_joined_to_the_playlist(
    rest: Seq<char>,
    uri: Seq<char>,
    absolute: bool,
    joined: Option<Seq<char>>,
)
    ensures
        resolved("http://"@ + rest, absolute, joined) == Ok::<Seq<char>, ResolveError>(
            "http://"@ + rest,
        ),
        resolved("https://"@ + rest, absolute, joined) == Ok::<Seq<char>, ResolveError>(
            "https://"@ + rest,
        ),
        !is_tagged(uri, "http://"@) && !is_tagged(uri, "https://"@) ==> match resolved(
            uri,
            absolute,
            joined,
        ) {
            Ok(url) => absolute && joined == Some(url),
            Err(ResolveError::Playlist) => !absolute,
            Err(ResolveError::Join) => absolute && joined is None,
        },
{
    text::law_prefix_and_suffix_are_the_ends(uri, "http://"@, rest);
    text::law_prefix_and_suffix_are_the_ends(uri, "https://"@, rest);
    lemma_tagged(uri, "http://"@);
    lemma_tagged(uri, "https://"@);
}

/// A URL is one of HTTP where its first characters spell `http` or `https`, a colon and two
/// slashes, whatever follows.
pub proof fn law_http_urls_begin_with_their_scheme(uri: Seq<char>)
    ensures
        is_http(uri) <==> uri.len() >= 7 && uri[0] == 'h' && uri[1] == 't' && uri[2] == 't'
            && uri[3] == 'p' && ((uri[4] == ':' && uri[5] == '/' && uri[6] == '/') || (uri.len()
            >= 8 && uri[4] == 's' && uri[5] == ':' && uri[6] == '/' && uri[7] == '/')),
{
    reveal_strlit("http://");
    reveal_strlit("https://");
    let plain = "http://"@;
    let secure = "https://"@;
    if text::has_prefix(uri, plain) {
        assert forall|i: int| 0 <= i < 7 implies #[trigger] uri[i] == plain[i] by {
            assert(uri.take(7)[i] == plain[i]);
        }
    } else if text::has_prefix(uri, secure) {
        assert forall|i: int| 0 <= i < 8 implies #[trigger] uri[i] == secure[i] by {
            assert(uri.take(8)[i] == secure[i]);
        }
    } else if uri.len() >= 7 && uri[0] == 'h' && uri[1] == 't' && uri[2] == 't' && uri[3] == 'p' {
        if uri[4] == ':' && uri[5] == '/' && uri[6] == '/' {
            assert(uri.take(7) =~= plain);
        }
        if uri.len() >= 8 && uri[4] == 's' && uri[5] == ':' && uri[6] == '/' && uri[7] == '/' {
            assert(uri.take(8) =~= secure);
        }
    }
}

/// What is said of a playlist is what its fields hold, segment by segment: nothing is left out.
pub proof fn law_playlist_says_what_it_holds(pl: MediaPlaylist, st: PlaylistState, i: int)
    requires
        pl.says(st),
    ensures
        pl.media_sequence == st.media_sequence,
        pl.target_duration@ == st.target_duration,
        pl.end_list <==> st.end_list,
        pl.segments@.len() == st.segments.len(),
        0 <= i < pl.segments@.len() ==> {
            &&& pl.segments@[i].seq == st.segments[i].seq
            &&& pl.segments@[i].uri@ == st.segments[i].uri
            &&& pl.segments@[i].duration_secs@ == st.segments[i].duration_secs
            &&& pl.segments@[i].discontinuity <==> st.segments[i].discontinuity
        },
{
    if 0 <= i < pl.segments@.len() {
        assert(st.segments[i] == segment_views(pl.segments@)[i]);
    }
}

/// A text that may be missing is there where it is, and is that text.
pub proof fn law_optional_text_is_the_text(t: Option<String>)
    ensures
        option_text(t) is Some <==> t is Some,
        t matches Some(s) ==> option_text(t) == Some(s@),
{
}

} // verus!

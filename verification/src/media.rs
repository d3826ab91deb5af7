//! What a browser can play, and how to make it play the rest.
//!
//! Most files stream directly, which is always preferable: no CPU, no GPU,
//! instant seeking, and the original quality. Transcoding exists only for what a
//! browser genuinely cannot decode — an MKV container, HEVC video, AC3 or DTS
//! audio — where the alternative is a black rectangle.
//!
//! The decision is made from the file's actual streams via `ffprobe`, not from
//! its extension. An `.mkv` holding H.264 and AAC needs only a container change
//! and is remuxed without re-encoding; guessing from the name would burn the GPU
//! on a file that never needed it.

use crate::json;
use crate::json::Json;
use crate::term_api;
use crate::text;
use serde_json::Value;
use vstd::prelude::*;

verus! {

/// What a browser would need in order to play a file.
#[derive(Debug, Clone, Copy, PartialEq, Eq)]
pub enum Playability {
    /// Stream the original bytes.
    Direct,
    /// Container change only — no re-encode, so it costs almost nothing.
    Remux { video: &'static str, audio: &'static str },
    /// At least one stream must be re-encoded.
    Transcode {
        video: &'static str,
        audio: &'static str,
        /// Which streams actually need work, for the UI to explain the wait.
        reencode_video: bool,
        reencode_audio: bool,
    },
    /// Not a media file, or unreadable.
    Unknown,
}

pub enum PlayView {
    Direct,
    Remux { video: Seq<char>, audio: Seq<char> },
    Transcode { video: Seq<char>, audio: Seq<char>, reencode_video: bool, reencode_audio: bool },
    Unknown,
}

impl View for Playability {
    type V = PlayView;

    open spec fn view(&self) -> PlayView {
        match *self {
            Playability::Direct => PlayView::Direct,
            Playability::Remux { video, audio } => PlayView::Remux { video: video@, audio: audio@ },
            Playability::Transcode { video, audio, reencode_video, reencode_audio } =>
                PlayView::Transcode {
                video: video@,
                audio: audio@,
                reencode_video,
                reencode_audio,
            },
            Playability::Unknown => PlayView::Unknown,
        }
    }
}

#[derive(Debug)]
pub struct MediaInfo {
    /// The duration in seconds, as the probe wrote it, where that can be read as
    /// a number.
    pub duration_secs: Option<String>,
    pub width: Option<u32>,
    pub height: Option<u32>,
    pub video_codec: Option<String>,
    pub audio_codec: Option<String>,
    pub container: Option<String>,
    pub playability: Playability,
}

pub struct MediaView {
    pub duration_secs: Option<Seq<char>>,
    pub width: Option<u32>,
    pub height: Option<u32>,
    pub video_codec: Option<Seq<char>>,
    pub audio_codec: Option<Seq<char>>,
    pub container: Option<Seq<char>>,
    pub playability: PlayView,
}

impl View for MediaInfo {
    type V = MediaView;

    open spec fn view(&self) -> MediaView {
        MediaView {
            duration_secs: text::opt(self.duration_secs),
            width: self.width,
            height: self.height,
            video_codec: text::opt(self.video_codec),
            audio_codec: text::opt(self.audio_codec),
            container: text::opt(self.container),
            playability: self.playability@,
        }
    }
}

/// A stream that a probe reports.
#[derive(Debug)]
pub struct Stream {
    pub codec_type: Option<String>,
    pub codec_name: Option<String>,
    pub width: Option<u64>,
    pub height: Option<u64>,
}

pub struct StreamView {
    pub codec_type: Option<Seq<char>>,
    pub codec_name: Option<Seq<char>>,
    pub width: Option<u64>,
    pub height: Option<u64>,
}

impl View for Stream {
    type V = StreamView;

    open spec fn view(&self) -> StreamView {
        StreamView {
            codec_type: text::opt(self.codec_type),
            codec_name: text::opt(self.codec_name),
            width: self.width,
            height: self.height,
        }
    }
}

pub open spec fn stream_views(v: Seq<Stream>) -> Seq<StreamView> {
    v.map_values(|s: Stream| s@)
}

/// What a probe reports of a file.
#[derive(Debug)]
pub struct Report {
    pub streams: Vec<Stream>,
    pub format_name: Option<String>,
    pub duration: Option<String>,
}

pub struct ReportView {
    pub streams: Seq<StreamView>,
    pub format_name: Option<Seq<char>>,
    pub duration: Option<Seq<char>>,
}

impl View for Report {
    type V = ReportView;

    open spec fn view(&self) -> ReportView {
        ReportView {
            streams: stream_views(self.streams@),
            format_name: text::opt(self.format_name),
            duration: text::opt(self.duration),
        }
    }
}

// ---------------------------------------------------------------------------
// What a browser plays
// ---------------------------------------------------------------------------

/// Containers a browser will accept.
pub open spec fn good_containers() -> Seq<Seq<char>> {
    seq!["mov"@, "mp4"@, "m4a"@, "3gp"@, "webm"@]
}

/// The names of a container, as a probe lists them.
pub open spec fn container_names(format: Seq<char>) -> Seq<Seq<char>> {
    text::split(format, ',').map_values(|f: Seq<char>| text::trim(f))
}

/// A container that a browser accepts goes by one of the good names, and not by
/// `matroska`: a probe reports the same names for an `.mkv` as for a `.webm`, of
/// which only the latter is safe, so that the shared name is no permission.
pub open spec fn good_container(format: Seq<char>) -> bool {
    let names = container_names(format);
    &&& exists|i: int| 0 <= i < names.len() && good_containers().contains(#[trigger] names[i])
    &&& !names.contains("matroska"@)
}

/// Whether a browser will accept a container.
///
/// Deliberately narrow. A browser will sometimes play more than this, but a
/// false positive means a black rectangle and no explanation, whereas a false
/// negative costs a remux that is nearly free.
pub fn container_ok(format_names: &str) -> (r: bool)
    ensures
        r == good_container(format_names@),
{
    let parts = text::split_str(format_names, ',');
    let ghost names = container_names(format_names@);
    let good = ["mov", "mp4", "m4a", "3gp", "webm"];
    assert(text::lits(good@) =~= good_containers());
    let mut any = false;
    let mut i: usize = 0;
    while i < parts.len()
        invariant
            i <= parts.len(),
            text::strs(parts@) == text::split(format_names@, ','),
            names == container_names(format_names@),
            text::lits(good@) == good_containers(),
            any == (exists|k: int|
                0 <= k < i && good_containers().contains(#[trigger] names[k])),
            forall|k: int| 0 <= k < i ==> #[trigger] names[k] != "matroska"@,
        decreases parts.len() - i,
    {
        let f = text::trim_str(parts[i].as_str());
        assert(text::strs(parts@)[i as int] == parts@[i as int]@);
        assert(names[i as int] == f@);
        if text::same(f.as_str(), "matroska") {
            return false;
        }
        if text::among(f.as_str(), good.as_slice()) {
            any = true;
        }
        i += 1;
    }
    any
}

pub open spec fn good_video(codec: Seq<char>) -> bool {
    codec == "h264"@ || codec == "vp8"@ || codec == "vp9"@ || codec == "av1"@
}

pub open spec fn good_audio(codec: Seq<char>) -> bool {
    codec == "aac"@ || codec == "mp3"@ || codec == "opus"@ || codec == "vorbis"@ || codec
        == "flac"@
}

pub fn video_ok(codec: &str) -> (r: bool)
    ensures
        r == good_video(codec@),
{
    text::same(codec, "h264") || text::same(codec, "vp8") || text::same(codec, "vp9")
        || text::same(codec, "av1")
}

pub fn audio_ok(codec: &str) -> (r: bool)
    ensures
        r == good_audio(codec@),
{
    text::same(codec, "aac") || text::same(codec, "mp3") || text::same(codec, "opus")
        || text::same(codec, "vorbis") || text::same(codec, "flac")
}

/// What a browser needs, given which parts of a file it can take.
pub open spec fn playable(video: bool, audio: bool, container: bool) -> PlayView {
    if video && audio && container {
        PlayView::Direct
    } else if video && audio {
        PlayView::Remux { video: "copy"@, audio: "copy"@ }
    } else {
        PlayView::Transcode {
            video: if video {
                "copy"@
            } else {
                "h264"@
            },
            audio: if audio {
                "copy"@
            } else {
                "aac"@
            },
            reencode_video: !video,
            reencode_audio: !audio,
        }
    }
}

/// The first stream of a type.
pub open spec fn first_stream(streams: Seq<StreamView>, kind: Seq<char>) -> Option<StreamView>
    decreases streams.len(),
{
    if streams.len() == 0 {
        None
    } else if streams[0].codec_type == Some(kind) {
        Some(streams[0])
    } else {
        first_stream(streams.skip(1), kind)
    }
}

pub open spec fn codec_of(s: Option<StreamView>) -> Option<Seq<char>> {
    match s {
        Some(v) => v.codec_name,
        None => None,
    }
}

/// A dimension, in 32 bits.
pub open spec fn dimension(n: Option<u64>) -> Option<u32> {
    match n {
        Some(w) => Some((w % 0x1_0000_0000) as u32),
        None => None,
    }
}

/// A number without its sign.
pub open spec fn unsigned(s: Seq<char>) -> Seq<char> {
    if s.len() > 0 && (s[0] == '+' || s[0] == '-') {
        s.skip(1)
    } else {
        s
    }
}

/// What follows the digits before the point of a number, and the point.
pub open spec fn fraction(s: Seq<char>) -> Seq<char> {
    if s.len() > 0 && s[0] == '.' {
        s.skip(1)
    } else {
        s
    }
}

/// What follows the point of a number and its digits there: nothing, or a power
/// of ten.
pub open spec fn is_power(s: Seq<char>) -> bool {
    s.len() == 0 || ((s[0] == 'e' || s[0] == 'E') && unsigned(s.skip(1)).len() > 0
        && text::all_digits(unsigned(s.skip(1))))
}

/// A decimal number: a sign or none, digits with a point among them or none, and
/// a power of ten or none.
pub open spec fn is_decimal(s: Seq<char>) -> bool {
    let t = unsigned(s);
    let whole = text::digit_run(t);
    let tail = t.skip(whole);
    let f = fraction(tail);
    let part: int = if f == tail {
        0
    } else {
        text::digit_run(f)
    };
    whole + part > 0 && is_power(f.skip(part))
}

fn without_sign(v: &[char], from: usize) -> (r: usize)
    requires
        from <= v@.len(),
    ensures
        from <= r <= v@.len(),
        v@.skip(r as int) == unsigned(v@.skip(from as int)),
{
    if from < v.len() && (v[from] == '+' || v[from] == '-') {
        assert(v@.skip(from as int).skip(1) =~= v@.skip(from + 1));
        from + 1
    } else {
        from
    }
}

fn digits_end(v: &[char], from: usize) -> (r: usize)
    requires
        from <= v@.len(),
    ensures
        from <= r <= v@.len(),
        r - from == text::digit_run(v@.skip(from as int)),
{
    let tail = text::part(v, from, v.len());
    assert(tail@ =~= v@.skip(from as int));
    let n: usize = text::leading_digits(tail.as_slice());
    from + n
}

/// Whether what stands from a place on is nothing or a power of ten.
fn power(v: &[char], from: usize) -> (r: bool)
    requires
        from <= v@.len(),
    ensures
        r == is_power(v@.skip(from as int)),
{
    if from == v.len() {
        return true;
    }
    if v[from] != 'e' && v[from] != 'E' {
        return false;
    }
    assert(v@.skip(from as int).skip(1) =~= v@.skip(from + 1));
    let e: usize = without_sign(v, from + 1);
    let ghost digits = v@.skip(e as int);
    if e == v.len() {
        return false;
    }
    let end: usize = digits_end(v, e);
    proof {
        text::lemma_digit_run(digits);
        if text::all_digits(digits) {
            text::lemma_digit_run_is(digits, digits.len() as int);
        }
    }
    end == v.len()
}

/// Whether a text is a decimal number.
pub fn decimal(s: &str) -> (r: bool)
    ensures
        r == is_decimal(s@),
{
    let chars = text::chars_of(s);
    let v = chars.as_slice();
    assert(s@.skip(0) =~= s@);
    let a: usize = without_sign(v, 0);
    let b: usize = digits_end(v, a);
    let ghost t = unsigned(s@);
    let ghost tail = t.skip(b - a);
    assert(s@.skip(b as int) =~= tail);
    let mut c: usize = b;
    let mut d: usize = b;
    if b < v.len() && v[b] == '.' {
        c = b + 1;
        d = digits_end(v, c);
        assert(s@.skip(c as int) =~= fraction(tail));
        assert(fraction(tail).len() < tail.len());
    }
    assert(s@.skip(c as int) == fraction(tail));
    assert(s@.skip(d as int) =~= fraction(tail).skip(d - c));
    if (b - a) + (d - c) == 0 {
        return false;
    }
    power(v, d)
}

/// What is read as a number although it is none: infinity, or not a number, in
/// whatever case and with a sign or none.
pub open spec fn is_special(s: Seq<char>) -> bool {
    let t = text::lower(unsigned(s));
    t == "inf"@ || t == "infinity"@ || t == "nan"@
}

/// What can be read as a floating-point number.
pub open spec fn is_number(s: Seq<char>) -> bool {
    is_decimal(s) || is_special(s)
}

/// Whether a text can be read as a floating-point number.
pub fn number(s: &str) -> (r: bool)
    ensures
        r == is_number(s@),
{
    if decimal(s) {
        return true;
    }
    let v = text::chars_of(s);
    assert(s@.skip(0) =~= s@);
    let from: usize = without_sign(v.as_slice(), 0);
    let rest = text::string_from(v.as_slice(), from, v.len());
    assert(rest@ =~= unsigned(s@));
    let t = text::lower_str(rest.as_str());
    text::same(t.as_str(), "inf") || text::same(t.as_str(), "infinity") || text::same(
        t.as_str(),
        "nan",
    )
}

/// Nothing is known of the file.
pub open spec fn nothing() -> MediaView {
    MediaView {
        duration_secs: None,
        width: None,
        height: None,
        video_codec: None,
        audio_codec: None,
        container: None,
        playability: PlayView::Unknown,
    }
}

/// What follows from what a probe reports. A file with neither video nor audio
/// is not media.
pub open spec fn judged(r: ReportView) -> MediaView {
    let video = first_stream(r.streams, "video"@);
    let audio = first_stream(r.streams, "audio"@);
    let v = codec_of(video);
    let a = codec_of(audio);
    let container = match r.format_name {
        Some(n) => n,
        None => seq![],
    };
    if v is None && a is None {
        nothing()
    } else {
        MediaView {
            duration_secs: match r.duration {
                Some(d) => if is_number(d) {
                    Some(d)
                } else {
                    None
                },
                None => None,
            },
            width: match video {
                Some(s) => dimension(s.width),
                None => None,
            },
            height: match video {
                Some(s) => dimension(s.height),
                None => None,
            },
            video_codec: v,
            audio_codec: a,
            container: Some(container),
            playability: playable(
                v is None || good_video(v->0),
                a is None || good_audio(a->0),
                good_container(container),
            ),
        }
    }
}

pub fn unknown() -> (r: MediaInfo)
    ensures
        r@ == nothing(),
{
    MediaInfo {
        duration_secs: None,
        width: None,
        height: None,
        video_codec: None,
        audio_codec: None,
        container: None,
        playability: Playability::Unknown,
    }
}

fn find_stream(streams: &Vec<Stream>, kind: &str) -> (r: Option<usize>)
    ensures
        match r {
            Some(i) => i < streams@.len() && first_stream(stream_views(streams@), kind@) == Some(
                streams@[i as int]@,
            ),
            None => first_stream(stream_views(streams@), kind@) is None,
        },
{
    let ghost all = stream_views(streams@);
    let mut i: usize = 0;
    assert(all.skip(0) =~= all);
    while i < streams.len()
        invariant
            i <= streams.len(),
            all == stream_views(streams@),
            first_stream(all.skip(i as int), kind@) == first_stream(all, kind@),
        decreases streams.len() - i,
    {
        assert(all.skip(i as int)[0] == streams@[i as int]@);
        assert(all.skip(i as int).skip(1) =~= all.skip(i + 1));
        match &streams[i].codec_type {
            Some(t) => {
                if text::same(t.as_str(), kind) {
                    return Some(i);
                }
            },
            None => {},
        }
        i += 1;
    }
    None
}

fn narrow(n: Option<u64>) -> (r: Option<u32>)
    ensures
        r == dimension(n),
{
    match n {
        Some(w) => Some((w % 0x1_0000_0000) as u32),
        None => None,
    }
}

/// What follows from what a probe reports.
pub fn judge(report: &Report) -> (r: MediaInfo)
    ensures
        r@ == judged(report@),
{
    let video = find_stream(&report.streams, "video");
    let audio = find_stream(&report.streams, "audio");
    let video_codec = match video {
        Some(i) => text::copy_opt(&report.streams[i].codec_name),
        None => None,
    };
    let audio_codec = match audio {
        Some(i) => text::copy_opt(&report.streams[i].codec_name),
        None => None,
    };
    if video_codec.is_none() && audio_codec.is_none() {
        return unknown();
    }
    let container = match &report.format_name {
        Some(n) => n.clone(),
        None => String::new(),
    };
    assert(container@ =~= match report@.format_name {
        Some(n) => n,
        None => seq![],
    });
    let v_ok = match &video_codec {
        Some(c) => video_ok(c.as_str()),
        None => true,
    };
    let a_ok = match &audio_codec {
        Some(c) => audio_ok(c.as_str()),
        None => true,
    };
    let c_ok = container_ok(container.as_str());
    let playability = if v_ok && a_ok && c_ok {
        Playability::Direct
    } else if v_ok && a_ok {
        // Only the wrapper is wrong: copy both streams into MP4.
        Playability::Remux { video: "copy", audio: "copy" }
    } else {
        Playability::Transcode {
            video: if v_ok {
                "copy"
            } else {
                "h264"
            },
            audio: if a_ok {
                "copy"
            } else {
                "aac"
            },
            reencode_video: !v_ok,
            reencode_audio: !a_ok,
        }
    };
    MediaInfo {
        duration_secs: match &report.duration {
            Some(d) => if number(d.as_str()) {
                Some(d.clone())
            } else {
                None
            },
            None => None,
        },
        width: match video {
            Some(i) => narrow(report.streams[i].width),
            None => None,
        },
        height: match video {
            Some(i) => narrow(report.streams[i].height),
            None => None,
        },
        video_codec,
        audio_codec,
        container: Some(container),
        playability,
    }
}

// ---------------------------------------------------------------------------
// What a probe wrote
// ---------------------------------------------------------------------------

/// A stream, from its JSON.
pub open spec fn stream_in(v: Json) -> StreamView {
    StreamView {
        codec_type: json::text_under(v, "codec_type"@),
        codec_name: json::text_under(v, "codec_name"@),
        width: json::count_under(v, "width"@),
        height: json::count_under(v, "height"@),
    }
}

/// A report, from its JSON.
pub open spec fn report_in(v: Json) -> ReportView {
    ReportView {
        streams: match json::member_of(v, "streams"@) {
            Some(s) => match json::items_in(s) {
                Some(items) => items.map_values(|x: Json| stream_in(x)),
                None => seq![],
            },
            None => seq![],
        },
        format_name: match json::member_of(v, "format"@) {
            Some(f) => json::text_under(f, "format_name"@),
            None => None,
        },
        duration: match json::member_of(v, "format"@) {
            Some(f) => json::text_under(f, "duration"@),
            None => None,
        },
    }
}

fn read_streams(items: &Vec<Value>) -> (r: Vec<Stream>)
    ensures
        stream_views(r@) == json::all_held(items@).map_values(|x: Json| stream_in(x)),
{
    let mut out: Vec<Stream> = Vec::new();
    let ghost f = |x: Json| stream_in(x);
    let ghost all = json::all_held(items@);
    let mut i: usize = 0;
    assert(stream_views(out@) =~= all.take(0).map_values(f));
    while i < items.len()
        invariant
            i <= items.len(),
            f == (|x: Json| stream_in(x)),
            all == json::all_held(items@),
            stream_views(out@) == all.take(i as int).map_values(f),
        decreases items.len() - i,
    {
        let v = &items[i];
        let s = Stream {
            codec_type: json::text_at(v, "codec_type"),
            codec_name: json::text_at(v, "codec_name"),
            width: json::count_at(v, "width"),
            height: json::count_at(v, "height"),
        };
        let ghost before = out@;
        let ghost view = s@;
        out.push(s);
        assert(stream_views(out@) =~= stream_views(before).push(view));
        i += 1;
        assert(all.take(i as int).map_values(f) =~= all.take(i - 1).map_values(f).push(
            stream_in(all[i - 1]),
        ));
    }
    assert(all.take(i as int) =~= all);
    out
}

/// A report, from its JSON.
pub fn read_report(v: &Value) -> (r: Report)
    ensures
        r@ == report_in(json::held(*v)),
{
    let streams = match json::member(v, "streams") {
        Some(s) => match json::as_items(s) {
            Some(items) => read_streams(items),
            None => Vec::new(),
        },
        None => Vec::new(),
    };
    let (format_name, duration) = match json::member(v, "format") {
        Some(f) => (json::text_at(f, "format_name"), json::text_at(f, "duration")),
        None => (None, None),
    };
    let r = Report { streams, format_name, duration };
    assert(r@.streams =~= report_in(json::held(*v)).streams);
    r
}

/// What is in a file, from what `ffprobe` printed about it.
pub fn probe(stdout: &[u8]) -> (r: MediaInfo)
    ensures
        r@ == (match json::value_in(stdout@) {
            Some(v) => judged(report_in(v)),
            None => nothing(),
        }),
{
    match json::parse(stdout) {
        Some(v) => judge(&read_report(&v)),
        None => unknown(),
    }
}

/// The arguments that have `ffprobe` report on a file.
pub fn probe_args(path: &str) -> (r: Vec<String>)
    ensures
        text::strs(r@) == seq![
            "-v"@,
            "quiet"@,
            "-print_format"@,
            "json"@,
            "-show_format"@,
            "-show_streams"@,
            path@,
        ],
{
    let mut args: Vec<String> = Vec::new();
    args.push("-v".to_string());
    args.push("quiet".to_string());
    args.push("-print_format".to_string());
    args.push("json".to_string());
    args.push("-show_format".to_string());
    args.push("-show_streams".to_string());
    args.push(path.to_string());
    assert(text::strs(args@) =~= seq![
        "-v"@,
        "quiet"@,
        "-print_format"@,
        "json"@,
        "-show_format"@,
        "-show_streams"@,
        path@,
    ]);
    args
}

// ---------------------------------------------------------------------------
// Transcoding
// ---------------------------------------------------------------------------

/// Milliseconds as seconds with three decimals.
pub open spec fn seconds(ms: u64) -> Seq<char> {
    text::dec(ms as nat / 1000) + "."@ + text::dec(ms as nat / 100 % 10) + text::dec(
        ms as nat / 10 % 10,
    ) + text::dec(ms as nat % 10)
}

fn push_seconds(out: &mut String, ms: u64)
    ensures
        final(out)@ == old(out)@ + seconds(ms),
{
    text::push_dec(out, ms / 1000);
    out.append(".");
    text::push_dec(out, ms / 100 % 10);
    text::push_dec(out, ms / 10 % 10);
    text::push_dec(out, ms % 10);
    assert(out@ =~= old(out)@ + seconds(ms));
}

/// What the video is encoded with.
pub open spec fn video_codec(p: PlayView, nvenc: bool) -> Seq<char> {
    match p {
        PlayView::Transcode { reencode_video, .. } => if !reencode_video {
            "copy"@
        } else if nvenc {
            "h264_nvenc"@
        } else {
            "libx264"@
        },
        _ => "copy"@,
    }
}

/// What the audio is encoded with.
pub open spec fn audio_codec(p: PlayView) -> Seq<char> {
    match p {
        PlayView::Transcode { reencode_audio, .. } => if reencode_audio {
            "aac"@
        } else {
            "copy"@
        },
        _ => "copy"@,
    }
}

pub open spec fn encodes_on_gpu(p: PlayView, nvenc: bool) -> bool {
    match p {
        PlayView::Transcode { reencode_video, .. } => reencode_video && nvenc,
        _ => false,
    }
}

/// Where the input starts and which it is. A seek stands before the input:
/// `ffmpeg` then jumps to the nearest keyframe instead of decoding from the
/// beginning.
pub open spec fn input_words(path: Seq<char>, start_ms: u64) -> Seq<Seq<char>> {
    (if start_ms > 0 {
        seq!["-hide_banner"@, "-loglevel"@, "error"@, "-ss"@, seconds(start_ms)]
    } else {
        seq!["-hide_banner"@, "-loglevel"@, "error"@]
    }) + seq!["-i"@, path]
}

/// How each stream is made. Latency over ratio: this is being watched now, not
/// archived.
pub open spec fn codec_words(p: PlayView, nvenc: bool) -> Seq<Seq<char>> {
    seq!["-c:v"@, video_codec(p, nvenc)] + (if encodes_on_gpu(p, nvenc) {
        seq!["-preset"@, "p4"@, "-tune"@, "ll"@]
    } else {
        seq![]
    }) + seq!["-c:a"@, audio_codec(p)]
}

/// Fragmented MP4, so playback can begin before the file is finished — a normal
/// MP4 puts its index at the end and would have to be fully transcoded first.
pub open spec fn output_words() -> Seq<Seq<char>> {
    seq![
        "-movflags"@,
        "frag_keyframe+empty_moov+default_base_moof"@,
        "-f"@,
        "mp4"@,
        "pipe:1"@,
    ]
}

/// The `ffmpeg` arguments for streaming a file the browser can play.
pub open spec fn transcode_words(path: Seq<char>, p: PlayView, start_ms: u64, nvenc: bool) -> Seq<
    Seq<char>,
> {
    input_words(path, start_ms) + codec_words(p, nvenc) + output_words()
}

/// Build the `ffmpeg` arguments for streaming a file the browser can play, from
/// a place given in milliseconds.
///
/// A seek lands on a keyframe rather than exactly where asked, which is the
/// usual trade and the one every streaming server makes.
pub fn transcode_args(path: &str, info: &MediaInfo, start_ms: u64, nvenc: bool) -> (r: Vec<String>)
    ensures
        text::strs(r@) == transcode_words(path@, info@.playability, start_ms, nvenc),
{
    let ghost p = info@.playability;
    let mut args: Vec<String> = Vec::new();
    args.push("-hide_banner".to_string());
    args.push("-loglevel".to_string());
    args.push("error".to_string());
    if start_ms > 0 {
        args.push("-ss".to_string());
        let mut at = String::new();
        push_seconds(&mut at, start_ms);
        assert(at@ =~= seconds(start_ms));
        args.push(at);
    }
    args.push("-i".to_string());
    args.push(path.to_string());
    assert(text::strs(args@) =~= input_words(path@, start_ms));
    let ghost first = text::strs(args@);
    let (v, a, on_gpu) = match info.playability {
        Playability::Transcode { reencode_video, reencode_audio, .. } => (
            if !reencode_video {
                "copy"
            } else if nvenc {
                "h264_nvenc"
            } else {
                "libx264"
            },
            if reencode_audio {
                "aac"
            } else {
                "copy"
            },
            reencode_video && nvenc,
        ),
        _ => ("copy", "copy", false),
    };
    args.push("-c:v".to_string());
    args.push(v.to_string());
    if on_gpu {
        args.push("-preset".to_string());
        args.push("p4".to_string());
        args.push("-tune".to_string());
        args.push("ll".to_string());
    }
    args.push("-c:a".to_string());
    args.push(a.to_string());
    assert(text::strs(args@) =~= first + codec_words(p, nvenc));
    let ghost second = text::strs(args@);
    args.push("-movflags".to_string());
    args.push("frag_keyframe+empty_moov+default_base_moof".to_string());
    args.push("-f".to_string());
    args.push("mp4".to_string());
    args.push("pipe:1".to_string());
    assert(text::strs(args@) =~= second + output_words());
    args
}

/// Transcoding is suspended at Red and above, as thumbnails are: an encoder is
/// the last thing to start on a machine that is already short of memory. What a
/// browser plays as it is can still be streamed.
pub fn transcoding_suspended(tier: &str) -> (r: bool)
    ensures
        r == !term_api::calm(tier@),
{
    !term_api::tier_allows_new_session(tier)
}

/// Whether the encoders that `ffmpeg` lists contain the one of the GPU.
pub fn names_nvenc(encoders: &str) -> (r: bool)
    ensures
        r == text::within(encoders@, "h264_nvenc"@),
{
    text::contains(encoders, "h264_nvenc")
}

// ---------------------------------------------------------------------------
// Laws
// ---------------------------------------------------------------------------

/// A remux never re-encodes: whatever the machine can do, both streams are
/// copied.
pub proof fn a_remux_copies(video: Seq<char>, audio: Seq<char>, nvenc: bool)
    ensures
        video_codec(PlayView::Remux { video, audio }, nvenc) == "copy"@,
        audio_codec(PlayView::Remux { video, audio }) == "copy"@,
        !encodes_on_gpu(PlayView::Remux { video, audio }, nvenc),
{
}

/// Only a stream that needs it is re-encoded, and one that does always is.
pub proof fn only_what_needs_it_is_re_encoded(v: bool, a: bool, c: bool, nvenc: bool)
    ensures
        playable(v, a, c) is Direct <==> v && a && c,
        v ==> video_codec(playable(v, a, c), nvenc) == "copy"@,
        a ==> audio_codec(playable(v, a, c)) == "copy"@,
        !v ==> video_codec(playable(v, a, c), nvenc) == (if nvenc {
            "h264_nvenc"@
        } else {
            "libx264"@
        }),
        !a ==> audio_codec(playable(v, a, c)) == "aac"@,
{
}

/// A seek comes before the input it applies to.
pub proof fn a_seek_precedes_the_input(path: Seq<char>, p: PlayView, start_ms: u64, nvenc: bool)
    requires
        start_ms > 0,
    ensures
        transcode_words(path, p, start_ms, nvenc)[3] == "-ss"@,
        transcode_words(path, p, start_ms, nvenc)[5] == "-i"@,
        transcode_words(path, p, start_ms, nvenc)[6] == path,
{
}

/// A file's codec of a kind is that of the first stream of the kind; none where
/// there is no such stream.
pub open spec fn carries(streams: Seq<StreamView>, kind: Seq<char>, codec: Option<Seq<char>>) -> bool {
    ||| codec is None && forall|i: int|
        0 <= i < streams.len() ==> (#[trigger] streams[i]).codec_type != Some(kind)
    ||| exists|i: int| first_at(streams, kind, i) && (#[trigger] streams[i]).codec_name == codec
}

/// The stream at `i` is the first of a kind.
pub open spec fn first_at(streams: Seq<StreamView>, kind: Seq<char>, i: int) -> bool {
    &&& 0 <= i < streams.len()
    &&& streams[i].codec_type == Some(kind)
    &&& forall|j: int| 0 <= j < i ==> (#[trigger] streams[j]).codec_type != Some(kind)
}

proof fn lemma_first(streams: Seq<StreamView>, kind: Seq<char>, i: int)
    requires
        first_at(streams, kind, i),
    ensures
        first_stream(streams, kind) == Some(streams[i]),
    decreases streams.len(),
{
    if i > 0 {
        let rest = streams.skip(1);
        assert(streams[0].codec_type != Some(kind));
        assert forall|j: int| 0 <= j < i - 1 implies (#[trigger] rest[j]).codec_type != Some(
            kind,
        ) by {
            assert(rest[j] == streams[j + 1]);
        }
        lemma_first(rest, kind, i - 1);
    }
}

proof fn lemma_no_first(streams: Seq<StreamView>, kind: Seq<char>)
    requires
        forall|i: int| 0 <= i < streams.len() ==> (#[trigger] streams[i]).codec_type != Some(kind),
    ensures
        first_stream(streams, kind) is None,
    decreases streams.len(),
{
    if streams.len() > 0 {
        let rest = streams.skip(1);
        assert forall|i: int| 0 <= i < rest.len() implies (#[trigger] rest[i]).codec_type != Some(
            kind,
        ) by {
            assert(rest[i] == streams[i + 1]);
        }
        assert(streams[0].codec_type != Some(kind));
        lemma_no_first(rest, kind);
    }
}

proof fn lemma_carries(streams: Seq<StreamView>, kind: Seq<char>, codec: Option<Seq<char>>)
    requires
        carries(streams, kind, codec),
    ensures
        codec_of(first_stream(streams, kind)) == codec,
{
    if codec is None && (forall|i: int|
        0 <= i < streams.len() ==> (#[trigger] streams[i]).codec_type != Some(kind)) {
        lemma_no_first(streams, kind);
    } else {
        let i = choose|i: int| first_at(streams, kind, i) && (#[trigger] streams[i]).codec_name
            == codec;
        lemma_first(streams, kind, i);
    }
}

/// What a file needs, from the codecs of its first video and its first audio
/// stream and the names of its container. With neither codec it is not media.
/// Each codec that is there and that no browser decodes has its stream
/// re-encoded, whatever the other is or whether there is one; a file all of whose
/// codecs are decoded is played as it is where its container goes by a good name
/// and not by that of Matroska, and remuxed elsewhere.
pub proof fn what_a_browser_needs(r: ReportView, v: Option<Seq<char>>, a: Option<Seq<char>>)
    requires
        carries(r.streams, "video"@, v),
        carries(r.streams, "audio"@, a),
    ensures
        ({
            let plays_video = v matches Some(c) ==> c == "h264"@ || c == "vp8"@ || c == "vp9"@ || c
                == "av1"@;
            let plays_audio = a matches Some(c) ==> c == "aac"@ || c == "mp3"@ || c == "opus"@ || c
                == "vorbis"@ || c == "flac"@;
            let names = text::split(
                match r.format_name {
                    Some(n) => n,
                    None => seq![],
                },
                ',',
            );
            let named = |n: Seq<char>|
                exists|i: int| 0 <= i < names.len() && text::trim(#[trigger] names[i]) == n;
            let opens = (named("mov"@) || named("mp4"@) || named("m4a"@) || named("3gp"@) || named(
                "webm"@,
            )) && !named("matroska"@);
            let media = v is Some || a is Some;
            let p = judged(r).playability;
            &&& p is Unknown <==> !media
            &&& p is Direct <==> media && plays_video && plays_audio && opens
            &&& p is Remux <==> media && plays_video && plays_audio && !opens
            &&& p is Transcode <==> media && !(plays_video && plays_audio)
            &&& p is Transcode ==> p == (PlayView::Transcode {
                video: if plays_video {
                    "copy"@
                } else {
                    "h264"@
                },
                audio: if plays_audio {
                    "copy"@
                } else {
                    "aac"@
                },
                reencode_video: !plays_video,
                reencode_audio: !plays_audio,
            })
            &&& p is Remux ==> p == (PlayView::Remux { video: "copy"@, audio: "copy"@ })
            &&& judged(r).video_codec == v
            &&& judged(r).audio_codec == a
        }),
{
    lemma_carries(r.streams, "video"@, v);
    lemma_carries(r.streams, "audio"@, a);
    let f = match r.format_name {
        Some(n) => n,
        None => seq![],
    };
    lemma_container(f);
}

proof fn lemma_container(f: Seq<char>)
    ensures
        ({
            let names = text::split(f, ',');
            let named = |n: Seq<char>|
                exists|i: int| 0 <= i < names.len() && text::trim(#[trigger] names[i]) == n;
            good_container(f) <==> (named("mov"@) || named("mp4"@) || named("m4a"@) || named("3gp"@)
                || named("webm"@)) && !named("matroska"@)
        }),
{
    let names = text::split(f, ',');
    let named = |n: Seq<char>|
        exists|i: int| 0 <= i < names.len() && text::trim(#[trigger] names[i]) == n;
    let trimmed = container_names(f);
    let good = good_containers();
    assert forall|n: Seq<char>| trimmed.contains(n) <==> #[trigger] named(n) by {
        if trimmed.contains(n) {
            let i = choose|i: int| 0 <= i < trimmed.len() && trimmed[i] == n;
            assert(text::trim(names[i]) == n);
        }
        if named(n) {
            let i = choose|i: int| 0 <= i < names.len() && text::trim(#[trigger] names[i]) == n;
            assert(trimmed[i] == n);
        }
    }
    assert(good[0] == "mov"@ && good[1] == "mp4"@ && good[2] == "m4a"@ && good[3] == "3gp"@
        && good[4] == "webm"@);
    let some = exists|i: int| 0 <= i < trimmed.len() && good.contains(#[trigger] trimmed[i]);
    if some {
        let i = choose|i: int| 0 <= i < trimmed.len() && good.contains(#[trigger] trimmed[i]);
        assert(trimmed.contains(trimmed[i]));
        assert(named(trimmed[i]));
    }
    if named("mov"@) || named("mp4"@) || named("m4a"@) || named("3gp"@) || named("webm"@) {
        let n = if named("mov"@) {
            "mov"@
        } else if named("mp4"@) {
            "mp4"@
        } else if named("m4a"@) {
            "m4a"@
        } else if named("3gp"@) {
            "3gp"@
        } else {
            "webm"@
        };
        assert(trimmed.contains(n));
        let i = choose|i: int| 0 <= i < trimmed.len() && trimmed[i] == n;
        assert(good.contains(trimmed[i]));
    }
    assert(trimmed.contains("matroska"@) <==> named("matroska"@));
}

/// What else is told of a media file: the size of its first video stream, in 32
/// bits, the container as it was named, and the duration where it is a number.
pub proof fn a_media_file_is_described(r: ReportView, i: int)
    requires
        first_at(r.streams, "video"@, i),
        r.streams[i].codec_name is Some,
    ensures
        ({
            let m = judged(r);
            &&& r.streams[i].width matches Some(w) ==> m.width is Some && m.width->0 == w
                % 0x1_0000_0000
            &&& r.streams[i].width is None ==> m.width is None
            &&& r.streams[i].height matches Some(h) ==> m.height is Some && m.height->0 == h
                % 0x1_0000_0000
            &&& r.streams[i].height is None ==> m.height is None
            &&& r.format_name is Some ==> m.container == r.format_name
            &&& r.duration matches Some(d) ==> (is_number(d) ==> m.duration_secs == Some(d)) && (
            !is_number(d) ==> m.duration_secs is None)
            &&& r.duration is None ==> m.duration_secs is None
        }),
{
    lemma_first(r.streams, "video"@, i);
}

/// What `ffmpeg` is told in full: to seek before it opens the input, where there
/// is a place to seek to; to copy what need not be re-encoded, and to make H.264
/// and AAC of what must; to hurry where the GPU encodes; and to write a
/// fragmented MP4 to its output.
pub proof fn what_ffmpeg_is_told(
    path: Seq<char>,
    start_ms: u64,
    nvenc: bool,
    video: Seq<char>,
    audio: Seq<char>,
    reencode_video: bool,
    reencode_audio: bool,
)
    ensures
        ({
            let quiet = seq!["-hide_banner"@, "-loglevel"@, "error"@];
            let from = if start_ms == 0 {
                quiet + seq!["-i"@, path]
            } else {
                quiet + seq!["-ss"@, seconds(start_ms), "-i"@, path]
            };
            let to = seq![
                "-movflags"@,
                "frag_keyframe+empty_moov+default_base_moof"@,
                "-f"@,
                "mp4"@,
                "pipe:1"@,
            ];
            let sound = if reencode_audio {
                seq!["-c:a"@, "aac"@]
            } else {
                seq!["-c:a"@, "copy"@]
            };
            let copied = from + seq!["-c:v"@, "copy"@, "-c:a"@, "copy"@] + to;
            let p = PlayView::Transcode { video, audio, reencode_video, reencode_audio };
            &&& transcode_words(path, PlayView::Remux { video, audio }, start_ms, nvenc) == copied
            &&& transcode_words(path, PlayView::Direct, start_ms, nvenc) == copied
            &&& transcode_words(path, PlayView::Unknown, start_ms, nvenc) == copied
            &&& !reencode_video ==> transcode_words(path, p, start_ms, nvenc) == from + seq![
                "-c:v"@,
                "copy"@,
            ] + sound + to
            &&& reencode_video && nvenc ==> transcode_words(path, p, start_ms, nvenc) == from + seq![
                "-c:v"@,
                "h264_nvenc"@,
                "-preset"@,
                "p4"@,
                "-tune"@,
                "ll"@,
            ] + sound + to
            &&& reencode_video && !nvenc ==> transcode_words(path, p, start_ms, nvenc) == from
                + seq!["-c:v"@, "libx264"@] + sound + to
        }),
{
    let quiet = seq!["-hide_banner"@, "-loglevel"@, "error"@];
    let from = if start_ms == 0 {
        quiet + seq!["-i"@, path]
    } else {
        quiet + seq!["-ss"@, seconds(start_ms), "-i"@, path]
    };
    assert(input_words(path, start_ms) =~= from);
    let p = PlayView::Transcode { video, audio, reencode_video, reencode_audio };
    lemma_told(path, start_ms, nvenc, PlayView::Remux { video, audio }, from);
    lemma_told(path, start_ms, nvenc, PlayView::Direct, from);
    lemma_told(path, start_ms, nvenc, PlayView::Unknown, from);
    lemma_told(path, start_ms, nvenc, p, from);
    assert(seq!["-c:v"@, "copy"@] + seq!["-c:a"@, "copy"@] =~= seq![
        "-c:v"@,
        "copy"@,
        "-c:a"@,
        "copy"@,
    ]);
}

proof fn lemma_told(path: Seq<char>, start_ms: u64, nvenc: bool, p: PlayView, from: Seq<Seq<char>>)
    requires
        input_words(path, start_ms) == from,
    ensures
        ({
            let video = if encodes_on_gpu(p, nvenc) {
                seq!["-c:v"@, video_codec(p, nvenc), "-preset"@, "p4"@, "-tune"@, "ll"@]
            } else {
                seq!["-c:v"@, video_codec(p, nvenc)]
            };
            let sound = seq!["-c:a"@, audio_codec(p)];
            &&& transcode_words(path, p, start_ms, nvenc) == from + video + sound + output_words()
            &&& transcode_words(path, p, start_ms, nvenc) == from + (video + sound) + output_words()
        }),
{
    let head = seq!["-c:v"@, video_codec(p, nvenc)];
    let sound = seq!["-c:a"@, audio_codec(p)];
    let video = if encodes_on_gpu(p, nvenc) {
        seq!["-c:v"@, video_codec(p, nvenc), "-preset"@, "p4"@, "-tune"@, "ll"@]
    } else {
        head
    };
    assert(head + seq!["-preset"@, "p4"@, "-tune"@, "ll"@] =~= seq![
        "-c:v"@,
        video_codec(p, nvenc),
        "-preset"@,
        "p4"@,
        "-tune"@,
        "ll"@,
    ]);
    assert(head + Seq::<Seq<char>>::empty() =~= head);
    assert(codec_words(p, nvenc) == video + sound);
    assert(from + (video + sound) + output_words() =~= from + video + sound + output_words());
}

/// Milliseconds are written as whole seconds, a point, and three digits that are
/// the rest.
pub proof fn seconds_are_thousandths(ms: u64)
    ensures
        seconds(ms).len() >= 5,
        ({
            let n = seconds(ms).len() as int;
            let whole = seconds(ms).take(n - 4);
            let rest = seconds(ms).skip(n - 3);
            &&& seconds(ms)[n - 4] == '.'
            &&& text::all_digits(whole)
            &&& text::all_digits(rest)
            &&& text::dec_val(whole) * 1000 + text::dec_val(rest) == ms
        }),
{
    let n = ms as nat;
    let w = text::dec(n / 1000);
    let rest = text::dec(n / 100 % 10) + text::dec(n / 10 % 10) + text::dec(n % 10);
    text::lemma_dec(n / 1000);
    lemma_three_digits(n / 100 % 10, n / 10 % 10, n % 10);
    lemma_thousandths(n);
    lemma_around_a_point(w, rest);
    lemma_seconds_are(ms, w, rest);
}

proof fn lemma_seconds_are(ms: u64, w: Seq<char>, rest: Seq<char>)
    requires
        w == text::dec(ms as nat / 1000),
        rest == text::dec(ms as nat / 100 % 10) + text::dec(ms as nat / 10 % 10) + text::dec(
            ms as nat % 10,
        ),
    ensures
        seconds(ms) == w + "."@ + rest,
{
    assert(seconds(ms) =~= w + "."@ + rest);
}

proof fn lemma_thousandths(n: nat)
    ensures
        n == 1000 * (n / 1000) + 100 * (n / 100 % 10) + 10 * (n / 10 % 10) + n % 10,
{
    let q = n / 10;
    let h = q / 10;
    assert(h == n / 100);
    assert(h / 10 == n / 1000);
    assert(n == 10 * q + n % 10);
    assert(q == 10 * h + q % 10);
    assert(h == 10 * (h / 10) + h % 10);
}

proof fn lemma_around_a_point(w: Seq<char>, rest: Seq<char>)
    requires
        rest.len() == 3,
    ensures
        ({
            let s = w + "."@ + rest;
            &&& s.len() == w.len() + 4
            &&& s.take(s.len() - 4) == w
            &&& s.skip(s.len() - 3) == rest
            &&& s[s.len() - 4] == '.'
        }),
{
    reveal_strlit(".");
    let s = w + "."@ + rest;
    assert(s.take(s.len() - 4) =~= w);
    assert(s.skip(s.len() - 3) =~= rest);
}

proof fn lemma_three_digits(a: nat, b: nat, c: nat)
    requires
        a < 10,
        b < 10,
        c < 10,
    ensures
        ({
            let s = text::dec(a) + text::dec(b) + text::dec(c);
            s.len() == 3 && text::all_digits(s) && text::dec_val(s) == 100 * a + 10 * b + c
        }),
{
    lemma_one_digit(a);
    lemma_one_digit(b);
    lemma_one_digit(c);
    let s = text::dec(a) + text::dec(b) + text::dec(c);
    assert(s.drop_last() =~= text::dec(a) + text::dec(b));
    assert(s.drop_last().drop_last() =~= text::dec(a));
    assert(s.last() == text::dec(c)[0]);
    assert(s.drop_last().last() == text::dec(b)[0]);
    assert(text::dec_val(s.drop_last()) == text::dec_val(text::dec(a)) * 10 + b);
}

proof fn lemma_one_digit(d: nat)
    requires
        d < 10,
    ensures
        text::dec(d).len() == 1,
        text::all_digits(text::dec(d)),
        text::dec_val(text::dec(d)) == d,
        text::is_digit(text::dec(d)[0]),
        text::dec(d)[0] as u32 == 48 + d,
{
    text::lemma_dec(d);
}

proof fn lemma_digits_run(n: nat, rest: Seq<char>)
    requires
        rest.len() > 0 ==> !text::is_digit(rest[0]),
    ensures
        text::digit_run(text::dec(n) + rest) == text::dec(n).len(),
        (text::dec(n) + rest).skip(text::dec(n).len() as int) == rest,
        unsigned(text::dec(n) + rest) == text::dec(n) + rest,
        text::dec(n).len() > 0,
{
    text::lemma_dec(n);
    let d = text::dec(n);
    let s = d + rest;
    assert forall|j: int| 0 <= j < d.len() implies text::is_digit(s[j]) by {
        assert(text::is_digit(d[j]));
    }
    if rest.len() > 0 {
        assert(s[d.len() as int] == rest[0]);
    }
    text::lemma_digit_run_is(s, d.len() as int);
    assert(s.skip(d.len() as int) =~= rest);
    assert(text::is_digit(s[0]));
}

proof fn lemma_point(w: nat, f: nat, power: Seq<char>, s: Seq<char>)
    requires
        unsigned(s) == text::dec(w) + ("."@ + (text::dec(f) + power)),
        is_power(power),
    ensures
        is_decimal(s),
{
    reveal_strlit(".");
    let g = text::dec(f) + power;
    let tail = "."@ + g;
    assert(tail[0] == '.');
    lemma_digits_run(w, tail);
    lemma_digits_run(f, power);
    assert(fraction(tail) =~= g);
    assert(g != tail) by {
        assert(g.len() != tail.len());
    }
}

/// What reads as a number: digits, with a point among them or none, with a sign or
/// none, and with a power of ten or none; and the words for what is infinite or
/// none. Nothing else does that begins with neither a digit nor a point.
pub proof fn what_reads_as_a_number(w: nat, f: nat, e: nat, word: Seq<char>)
    ensures
        ({
            let n = text::dec(w) + ("."@ + text::dec(f));
            let scaled = text::dec(w) + ("."@ + (text::dec(f) + ("e"@ + text::dec(e))));
            &&& is_number(text::dec(w))
            &&& is_number(n)
            &&& is_number("-"@ + n)
            &&& is_number("+"@ + n)
            &&& is_number(scaled)
            &&& text::lower(word) == "inf"@ || text::lower(word) == "infinity"@ || text::lower(word)
                == "nan"@ ==> is_number("-"@ + word)
            &&& word.len() > 0 && !text::is_digit(word[0]) && word[0] != '.' && word[0] != '+'
                && word[0] != '-' && text::lower(word) != "inf"@ && text::lower(word)
                != "infinity"@ && text::lower(word) != "nan"@ ==> !is_number(word)
            &&& word.len() == 0 ==> !is_number(word)
        }),
{
    lemma_whole_number(w);
    lemma_with_point(w, f);
    lemma_with_power(w, f, e);
    lemma_words_for_none(word);
    lemma_no_number(word);
}

proof fn lemma_whole_number(w: nat)
    ensures
        is_decimal(text::dec(w)),
{
    let none = Seq::<char>::empty();
    assert(text::dec(w) + none =~= text::dec(w));
    lemma_digits_run(w, none);
    assert(fraction(none) == none);
    assert(none.skip(0) =~= none);
}

proof fn lemma_with_point(w: nat, f: nat)
    ensures
        is_decimal(text::dec(w) + ("."@ + text::dec(f))),
        is_decimal("-"@ + (text::dec(w) + ("."@ + text::dec(f)))),
        is_decimal("+"@ + (text::dec(w) + ("."@ + text::dec(f)))),
{
    reveal_strlit(".");
    reveal_strlit("-");
    reveal_strlit("+");
    let none = Seq::<char>::empty();
    let n = text::dec(w) + ("."@ + text::dec(f));
    assert(text::dec(f) + none =~= text::dec(f));
    assert(("."@ + text::dec(f))[0] == '.');
    lemma_digits_run(w, "."@ + text::dec(f));
    lemma_point(w, f, none, n);
    assert(("-"@ + n).skip(1) =~= n);
    assert(("+"@ + n).skip(1) =~= n);
    lemma_point(w, f, none, "-"@ + n);
    lemma_point(w, f, none, "+"@ + n);
}

proof fn lemma_with_power(w: nat, f: nat, e: nat)
    ensures
        is_decimal(text::dec(w) + ("."@ + (text::dec(f) + ("e"@ + text::dec(e))))),
{
    reveal_strlit(".");
    reveal_strlit("e");
    let none = Seq::<char>::empty();
    let power = "e"@ + text::dec(e);
    assert(power.skip(1) =~= text::dec(e));
    lemma_digits_run(e, none);
    assert(text::dec(e) + none =~= text::dec(e));
    text::lemma_dec(e);
    assert(is_power(power));
    assert(("."@ + (text::dec(f) + power))[0] == '.');
    lemma_digits_run(w, "."@ + (text::dec(f) + power));
    lemma_point(w, f, power, text::dec(w) + ("."@ + (text::dec(f) + power)));
}

proof fn lemma_words_for_none(word: Seq<char>)
    ensures
        text::lower(word) == "inf"@ || text::lower(word) == "infinity"@ || text::lower(word)
            == "nan"@ ==> is_special("-"@ + word),
{
    reveal_strlit("-");
    assert(("-"@ + word).skip(1) =~= word);
}

proof fn lemma_no_number(word: Seq<char>)
    ensures
        word.len() > 0 && !text::is_digit(word[0]) && word[0] != '.' && word[0] != '+' && word[0]
            != '-' && text::lower(word) != "inf"@ && text::lower(word) != "infinity"@
            && text::lower(word) != "nan"@ ==> !is_number(word),
        word.len() == 0 ==> !is_number(word),
{
    reveal_strlit("inf");
    reveal_strlit("infinity");
    reveal_strlit("nan");
    assert("inf"@.len() == 3 && "infinity"@.len() == 8 && "nan"@.len() == 3);
    assert(text::lower(word).len() == word.len());
    assert(word.skip(0) =~= word);
}

} // verus!
